//! Buttons.
use arca::ui::canvas::{Canvas, Color};
use arca::ui::widgets::Button;

struct Lienzo {
    buf: Box<[u8]>,
    w: u32,
    h: u32,
}

impl Lienzo {
    fn new(w: u32, h: u32) -> Self {
        Self {
            buf: vec![0u8; w as usize * h as usize * 4].into_boxed_slice(),
            w,
            h,
        }
    }

    fn canvas(&mut self) -> Canvas<'_> {
        Canvas::new_rgba(&mut self.buf, self.w, self.h).expect("geometría del test")
    }

    fn px(&self, x: u32, y: u32) -> (u8, u8, u8, u8) {
        let at = (y as usize * self.w as usize + x as usize) * 4;
        (
            self.buf[at],
            self.buf[at + 1],
            self.buf[at + 2],
            self.buf[at + 3],
        )
    }
}

fn btn() -> Button {
    Button {
        x: 10,
        y: 20,
        w: 80,
        h: 30,
        label: "Hola",
        base: Color::rgb(40, 90, 200),
        ink: Color::rgb(255, 255, 255),
    }
}

#[test]
fn hit_test_bordes() {
    let b = btn();
    assert!(b.contains(10, 20));
    assert!(b.contains(89, 49));
    assert!(!b.contains(90, 49), "borde derecho exclusivo");
    assert!(!b.contains(9, 20));
    assert!(!b.contains(10, 50), "borde inferior exclusivo");
}

#[test]
fn draw_pinta_cuerpo_y_borde() {
    let mut l = Lienzo::new(120, 60);
    l.canvas().fill(Color::rgb(0, 0, 0));
    let b = btn();
    b.draw(&mut l.canvas(), false);
    // centro del cuerpo (fila 35, col 50): azul base
    assert_eq!(l.px(50, 35), (40, 90, 200, 255), "cuerpo del botón");
    // borde inferior oscuro (fila 48 = y+h-2)
    assert_eq!(l.px(50, 48), (0, 0, 0, 255), "sombra inferior");
    // pressed = mezcla hacia blanco (1/3)
    b.draw(&mut l.canvas(), true);
    let (r, g, bl, _) = l.px(50, 35);
    assert_eq!(
        (r, g, bl),
        (
            40 + (255 - 40) / 3,
            90 + (255 - 90) / 3,
            200 + (255 - 200) / 3
        )
    );
}

/// The leftmost column of a row that is painted in the colour.
fn first_ink(l: &Lienzo, c: (u8, u8, u8, u8)) -> Option<u32> {
    (0..l.w).find(|x| (0..l.h).any(|y| l.px(*x, y) == c))
}

#[test]
fn a_label_stays_where_its_button_is() {
    let ink = Color::rgb(1, 2, 3);
    for w in [-5, 0, 5] {
        let mut l = Lienzo::new(64, 64);
        let b = Button { w, ink, label: "H", ..btn() };
        b.draw(&mut l.canvas(), false);
        let at = first_ink(&l, (1, 2, 3, 255)).expect("label");
        assert!((12..24).contains(&at), "w = {w}: {at}");
    }
}

#[test]
fn a_width_beyond_the_signed_range_moves_the_label() {
    // The unsigned width leaves 2^31 - 6 pixels beside a label of 12.
    let ink = Color::rgb(1, 2, 3);
    let mut l = Lienzo::new(64, 64);
    let b = Button {
        x: 0,
        w: i32::MIN + 6,
        ink,
        label: "H",
        ..btn()
    };
    b.draw(&mut l.canvas(), false);
    assert_eq!(first_ink(&l, (1, 2, 3, 255)), None);
    let b = Button { x: -((1 << 30) - 3), ..b };
    b.draw(&mut l.canvas(), false);
    let at = first_ink(&l, (1, 2, 3, 255)).expect("label");
    assert!(at < 12, "{at}");
}
