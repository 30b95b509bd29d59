//! Painting into the payload of a frame.
use arca::ui::canvas::{Canvas, Color};
use arca::ui::font::cell_w;
use arca::ui::paint::{paint_frame, FrameHeader, PaintError, HDR_BYTES};
use arca::ui::widgets::Button;

/// A header of an opaque frame, in the form in which it is published.
fn header(width: u16, height: u16, seq: u64, t_ns: u64) -> FrameHeader {
    let mut encoded = [0u8; 32];
    encoded[..4].copy_from_slice(b"AFRM");
    encoded[8..10].copy_from_slice(&width.to_le_bytes());
    encoded[10..12].copy_from_slice(&height.to_le_bytes());
    encoded[16..24].copy_from_slice(&seq.to_le_bytes());
    encoded[24..32].copy_from_slice(&t_ns.to_le_bytes());
    FrameHeader {
        width,
        height,
        encoded,
    }
}

fn frame_bytes(h: &FrameHeader) -> usize {
    HDR_BYTES + h.width as usize * h.height as usize * 4
}

#[test]
fn pinta_cabecera_y_pixeles() {
    let hdr = header(8, 4, 7, 123);
    let mut payload = vec![0u8; frame_bytes(&hdr)];
    paint_frame(&mut payload, &hdr, |c: &mut Canvas| {
        c.fill(Color::rgb(9, 8, 7));
    })
    .expect("pinta");
    assert_eq!(&payload[..4], b"AFRM");
    assert_eq!(payload[8..10], 8u16.to_le_bytes());
    assert_eq!(&payload[HDR_BYTES..HDR_BYTES + 4], &[9, 8, 7, 255]);
}

#[test]
fn payload_de_tamano_equivocado_falla_cerrado() {
    let hdr = header(8, 4, 7, 123);
    let mut payload = vec![0u8; frame_bytes(&hdr) + 1];
    let r = paint_frame(&mut payload, &hdr, |_: &mut Canvas| {});
    let PaintError::SizeMismatch { w, h, want, got } = r.expect_err("tamaño");
    assert_eq!((w, h), (8, 4));
    assert_eq!((want, got), (frame_bytes(&hdr), frame_bytes(&hdr) + 1));
    let mut corto = vec![0u8; frame_bytes(&hdr) - 1];
    assert!(paint_frame(&mut corto, &hdr, |_: &mut Canvas| {}).is_err());
    assert!(corto.iter().all(|b| *b == 0));
}

#[test]
fn el_canvas_dentro_ve_dimensiones_correctas() {
    let hdr = header(11, 5, 1, 0);
    let mut payload = vec![0u8; frame_bytes(&hdr)];
    let mut visto = (0u32, 0u32);
    paint_frame(&mut payload, &hdr, |c: &mut Canvas| {
        visto = (c.width(), c.height());
    })
    .expect("pinta");
    assert_eq!(visto, (11, 5));
}

#[test]
fn compose_de_botones_cabe_en_el_payload() {
    let hdr = header(64, 40, 1, 0);
    let mut payload = vec![0u8; frame_bytes(&hdr)];
    let b = Button {
        x: 4,
        y: 10,
        w: 48,
        h: 20,
        label: "Ok",
        base: Color::rgb(30, 120, 90),
        ink: Color::rgb(255, 255, 255),
    };
    paint_frame(&mut payload, &hdr, |c: &mut Canvas| {
        c.fill(Color::rgb(12, 12, 14));
        b.draw(c, false);
    })
    .expect("pinta");
    let cx = 4 + 48 / 2;
    let cy = 10 + 20 / 2;
    let at = HDR_BYTES + (cy * 64 + cx) * 4;
    assert_ne!(
        &payload[at..at + 3],
        &[12, 12, 14],
        "centro del botón no es fondo"
    );
    assert!(2 * cell_w() <= 48);
}
