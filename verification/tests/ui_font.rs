//! The bitmap font.
use arca::ui::font::{cell_h, cell_w, glyph, text_width, Glyph};

const FONT_CELL_W: usize = 12;
const FONT_CELL_H: usize = 16;
const FONT_ROW_BYTES: usize = 2;

#[test]
fn ascii_completo_mapea() {
    for c in 32..=126u32 {
        let ch = char::from_u32(c).expect("ascii válido");
        assert!(glyph(ch).is_some(), "falta glifo {ch:?}");
    }
}

#[test]
fn castellano_extra_mapea() {
    for ch in "áéíóúñÁÉÍÓÚÑ¿¡".chars() {
        assert!(glyph(ch).is_some(), "falta glifo extra {ch:?}");
    }
}

#[test]
fn desconocido_no_mapea() {
    assert!(glyph('β').is_none());
    assert!(glyph('\t').is_none());
    assert!(glyph('\u{1F600}').is_none());
}

#[test]
fn glifo_o_es_un_anillo_izq_der() {
    // 'o' renderizado: trazos laterales en col ~1 y ~6-7, hueco al centro
    // (columnas agregadas sobre todas las filas del glifo).
    let o = &glyph('o').expect("o");
    let cols = columnas(os(o));
    assert!(cols[1] || cols[2], "o sin trazo izquierdo");
    assert!(cols[6] || cols[7], "o sin trazo derecho");
    // fila del "cintura" del anillo: col 4 vacía
    let fila = filas_de(os(o));
    let cintura = fila[7]; // '.#...##' → bit de col4 = 0
    assert_eq!(
        cintura & (1 << (FONT_CELL_W - 1 - 4)),
        0,
        "sin hueco"
    );
}

#[test]
fn glifo_a_tiene_masa() {
    let a = &glyph('A').expect("A");
    let cols = columnas(os(a));
    assert!(cols.iter().filter(|&&c| c).count() >= 4, "A muy flaca");
    assert!(cols[0] || cols[1], "A sin pata izquierda");
    assert!(cols[6] || cols[7] || cols[8], "A sin pata derecha");
}

/// Bytes de un glifo → filas como u16 (bits alineados a la izquierda).
fn os(g: &Glyph) -> [u16; FONT_CELL_H] {
    let mut rows = [0u16; FONT_CELL_H];
    for (r, chunk) in g.chunks(FONT_ROW_BYTES).enumerate() {
        let mut bits = 0u16;
        for (k, b) in chunk.iter().enumerate() {
            bits |= u16::from(*b) << (8 * (FONT_ROW_BYTES - 1 - k));
        }
        rows[r] = bits;
    }
    rows
}

/// Filas → columnas con tinta (true = algún píxel en esa columna).
fn columnas(rows: [u16; FONT_CELL_H]) -> [bool; FONT_CELL_W] {
    let mut cols = [false; FONT_CELL_W];
    for (x, col) in cols.iter_mut().enumerate() {
        let bit = 1 << (FONT_CELL_W - 1 - x);
        *col = rows.iter().any(|&row| row & bit != 0);
    }
    cols
}

/// Alias de [`os`] legible en el test de la A.
fn filas_de(rows: [u16; FONT_CELL_H]) -> [u16; FONT_CELL_H] {
    rows
}

#[test]
fn medidas_celdas() {
    assert_eq!(cell_w(), 12);
    assert_eq!(cell_h(), 16);
    assert_eq!(text_width(3, 2), 3 * 12 * 2);
}
