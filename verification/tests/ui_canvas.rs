//! Drawing on the canvas.
use arca::ui::canvas::{Canvas, Color, RgbaImg};

/// Lienzo de test: dueño del buffer; presta el [`Canvas`] por préstamo.
struct Lienzo {
    buf: Box<[u8]>,
    w: u32,
    h: u32,
}

impl Lienzo {
    fn new(w: u32, h: u32) -> Self {
        Self {
            buf: vec![0u8; w as usize * h as usize * 4].into_boxed_slice(),
            w,
            h,
        }
    }

    /// Canvas prestado sobre el buffer propio (una draw por statement).
    fn canvas(&mut self) -> Canvas<'_> {
        Canvas::new_rgba(&mut self.buf, self.w, self.h).expect("geometría del test")
    }

    fn px(&self, x: u32, y: u32) -> (u8, u8, u8, u8) {
        let at = (y as usize * self.w as usize + x as usize) * 4;
        (
            self.buf[at],
            self.buf[at + 1],
            self.buf[at + 2],
            self.buf[at + 3],
        )
    }
}

#[test]
fn tamano_incorrecto_se_rechaza() {
    let mut buf = [0u8; 16];
    assert!(Canvas::new_rgba(&mut buf, 3, 3).is_err()); // 36 ≠ 16
    assert!(Canvas::new_rgba(&mut buf, 2, 2).is_ok());
    assert!(Canvas::new_rgba(&mut buf, 0, 4).is_err());
}

#[test]
fn fill_rellena_todo_opaco() {
    let mut l = Lienzo::new(4, 4);
    l.canvas().fill(Color::rgb(10, 20, 30));
    for y in 0..4 {
        for x in 0..4 {
            assert_eq!(l.px(x, y), (10, 20, 30, 255));
        }
    }
}

#[test]
fn fill_rect_clipea_fuera_de_pantalla() {
    let mut l = Lienzo::new(10, 10);
    l.canvas().fill(Color::rgb(0, 0, 0));
    l.canvas().fill_rect(-5, -5, 10, 10, Color::rgb(255, 0, 0)); // esquina sup-izq
    l.canvas().fill_rect(20, 20, 5, 5, Color::rgb(0, 255, 0)); // fuera total: noop
    l.canvas().fill_rect(5, 5, 100, 2, Color::rgb(0, 0, 255)); // sobredimensionado
    assert_eq!(l.px(0, 0), (255, 0, 0, 255));
    assert_eq!(
        l.px(4, 4),
        (255, 0, 0, 255),
        "(4,4) dentro del rojo clipeado"
    );
    assert_eq!(l.px(5, 5), (0, 0, 255, 255));
    assert_eq!(l.px(5, 6), (0, 0, 255, 255));
    assert_eq!(l.px(9, 6), (0, 0, 255, 255), "esquina inf-der del azul");
    assert_eq!(
        l.px(9, 9),
        (0, 0, 0, 255),
        "el azul mide 2 filas: (9,9) fuera"
    );
    assert_eq!(l.px(0, 9), (0, 0, 0, 255), "fila 9 fuera del rect azul");
}

#[test]
fn disco_y_contorno() {
    let mut l = Lienzo::new(21, 21);
    l.canvas().fill(Color::rgb(0, 0, 0));
    l.canvas().fill_disc(10, 10, 5, Color::rgb(255, 255, 255));
    assert_eq!(l.px(10, 10), (255, 255, 255, 255), "centro");
    assert_eq!(l.px(5, 10), (255, 255, 255, 255), "borde izq");
    assert_eq!(l.px(4, 10), (0, 0, 0, 255), "fuera del disco");
    assert_eq!(l.px(0, 0), (0, 0, 0, 255), "esquina lejos");
    l.canvas()
        .draw_rect_outline(2, 2, 17, 17, 1, Color::rgb(0, 255, 0));
    assert_eq!(l.px(2, 2), (0, 255, 0, 255));
    assert_eq!(l.px(3, 3), (0, 0, 0, 255), "dentro del contorno");
}

#[test]
fn blit_con_alfa_mezcla_correcto() {
    let mut l = Lienzo::new(4, 2);
    l.canvas().fill(Color::rgb(100, 100, 100));
    let rojo50 = RgbaImg::new(1, 1, &[255u8, 0, 0, 128]).expect("1x1");
    l.canvas().blit(0, 0, rojo50);
    let (r, g, bl, _) = l.px(0, 0);
    assert_eq!((r, g, bl), (177, 49, 49), "(255*128+100*127)/255 por canal");
    let opaco = RgbaImg::new(1, 1, &[10u8, 20, 30, 255]).expect("1x1");
    l.canvas().blit(2, 0, opaco);
    assert_eq!(l.px(2, 0), (10, 20, 30, 255));
    let invisible = RgbaImg::new(1, 1, &[10u8, 20, 30, 0]).expect("1x1");
    l.canvas().blit(2, 0, invisible);
    assert_eq!(l.px(2, 0), (10, 20, 30, 255), "alfa 0 = noop");
}

#[test]
fn blit_escalado_2x_duplica_pantalla() {
    let mut l = Lienzo::new(8, 4);
    l.canvas().fill(Color::rgb(0, 0, 0));
    // fuente 2×2: (0,0) rojo, (1,0) verde, fila 1 igual
    let src = [
        255u8, 0, 0, 255, 0, 255, 0, 255, //
        255u8, 0, 0, 255, 0, 255, 0, 255,
    ];
    let img = RgbaImg::new(2, 2, &src).expect("2x2");
    l.canvas().blit_scaled(0, 0, 4, 2, img);
    assert_eq!(l.px(0, 0), (255, 0, 0, 255));
    assert_eq!(l.px(1, 0), (255, 0, 0, 255), "duplicado en x");
    assert_eq!(l.px(2, 0), (0, 255, 0, 255));
    assert_eq!(l.px(2, 1), (0, 255, 0, 255), "duplicado en y");
}

#[test]
fn rgba_img_rechaza_datos_cortos() {
    assert!(RgbaImg::new(2, 2, &[0u8; 15]).is_none());
    assert!(RgbaImg::new(0, 2, &[0u8; 8]).is_none());
    assert!(RgbaImg::new(1, 1, &[0u8; 4]).is_some());
}

#[test]
fn texto_pinta_pixeles_y_avanza() {
    let mut l = Lienzo::new(60, 20);
    l.canvas().fill(Color::rgb(0, 0, 0));
    let w = l
        .canvas()
        .draw_text(0, 2, "II", 1, Color::rgb(255, 255, 255));
    assert_eq!(w, 2 * 12, "2 celdas de 12 px");
    let mut encendidos = 0;
    for y in 0..20u32 {
        for x in 0..60u32 {
            if l.px(x, y).0 == 255 {
                encendidos += 1;
            }
        }
    }
    assert!(encendidos > 10, "texto invisible ({encendidos} px)");
}

#[test]
fn degradado_extremos_y_medio() {
    let mut l = Lienzo::new(3, 9);
    l.canvas()
        .fill_vgrad(Color::rgb(0, 0, 0), Color::rgb(90, 90, 90));
    assert_eq!(l.px(0, 0).0, 0);
    assert_eq!(l.px(0, 8).0, 90);
    let mid = l.px(0, 4).0;
    assert!((35..=55).contains(&mid), "fila media ≈ 45 (fue {mid})");
}

#[test]
fn rect_redondeado_no_pinta_esquinas() {
    let mut l = Lienzo::new(20, 20);
    l.canvas().fill(Color::rgb(0, 0, 0));
    l.canvas()
        .fill_round_rect(0, 0, 20, 20, 6, Color::rgb(255, 255, 255));
    assert_eq!(l.px(10, 10), (255, 255, 255, 255), "centro");
    assert_eq!(l.px(0, 0), (0, 0, 0, 255), "esquina recortada");
    assert_eq!(l.px(19, 19), (0, 0, 0, 255), "esquina opuesta");
    assert_eq!(
        l.px(3, 0),
        (0, 0, 0, 255),
        "fila 0: solo la banda plana [r,w-r)"
    );
    assert_eq!(l.px(6, 0), (255, 255, 255, 255), "inicio de la banda plana");
    assert_eq!(
        l.px(10, 0),
        (255, 255, 255, 255),
        "centro de la banda plana"
    );
}
