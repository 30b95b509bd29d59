//! The dot patterns of the font: five columns by seven rows per character.
//!
//! A pattern is 35 bits, row by row from the top; the most significant of them
//! is the left dot of the top row.
use vstd::prelude::*;

verus! {

/// Patterns of the printable ASCII characters, from the space on.
pub open spec fn ascii_patterns() -> Seq<u64> {
    seq![
        0x000000000u64, 0x108421004u64, 0x294a00000u64, 0x295f57d4au64, 0x11f4717c4u64,
        0x632222263u64, 0x22944564du64, 0x18c440000u64, 0x088842082u64, 0x208210888u64,
        0x12aefbaa4u64, 0x0084f9080u64, 0x000003088u64, 0x0000f8000u64, 0x0000000c6u64,
        0x002222200u64, 0x3a33ae62eu64, 0x11842108eu64, 0x3a217421fu64, 0x7c223062eu64,
        0x08ca97c42u64, 0x7e1e0862eu64, 0x1d10f462eu64, 0x7c2111110u64, 0x3a317462eu64,
        0x3a317845cu64, 0x000401000u64, 0x000401088u64, 0x044441041u64, 0x001f07c00u64,
        0x208208888u64, 0x3a2131004u64, 0x3a35bda0fu64, 0x11518fe31u64, 0x7a31f463eu64,
        0x3a308422eu64, 0x7a318c63eu64, 0x7e10f421fu64, 0x7e10f4210u64, 0x3e3084e2fu64,
        0x4631fc631u64, 0x38842108eu64, 0x1c4210a4cu64, 0x4654c5251u64, 0x42108421fu64,
        0x4775ad631u64, 0x4639ace31u64, 0x3a318c62eu64, 0x7a31f4210u64, 0x3a318d64du64,
        0x7a31f5251u64, 0x3a307062eu64, 0x7ea421084u64, 0x46318c62eu64, 0x46318c544u64,
        0x4631ad6aau64, 0x462a22a31u64, 0x462a21084u64, 0x7c227221fu64, 0x3d084210fu64,
        0x020820820u64, 0x3c210842fu64, 0x115100000u64, 0x00000001fu64, 0x318410000u64,
        0x000c13a4fu64, 0x4216cc736u64, 0x000e8c22eu64, 0x042d9c66du64, 0x000e8fe0eu64,
        0x08a471084u64, 0x01f18bc2eu64, 0x4216cc631u64, 0x100c2108eu64, 0x080210a4cu64,
        0x4212a6292u64, 0x30842108eu64, 0x001aad6b5u64, 0x0016cc631u64, 0x000e8c62eu64,
        0x001e8fa10u64, 0x000d9bc21u64, 0x0016cc210u64, 0x000f8383eu64, 0x109f210a2u64,
        0x00118c66du64, 0x00118c544u64, 0x00118d6aau64, 0x001151151u64, 0x00118bc2eu64,
        0x001f1111fu64, 0x088441082u64, 0x108401084u64, 0x208411088u64, 0x22a200000u64,
    ]
}

/// The pattern of the printable ASCII character number `n`.
pub fn ascii_pattern(n: usize) -> (p: u64)
    requires
        n < 95,
    ensures
        p == ascii_patterns()[n as int],
{
    let table: [u64; 95] = [
        0x000000000u64, 0x108421004u64, 0x294a00000u64, 0x295f57d4au64, 0x11f4717c4u64,
        0x632222263u64, 0x22944564du64, 0x18c440000u64, 0x088842082u64, 0x208210888u64,
        0x12aefbaa4u64, 0x0084f9080u64, 0x000003088u64, 0x0000f8000u64, 0x0000000c6u64,
        0x002222200u64, 0x3a33ae62eu64, 0x11842108eu64, 0x3a217421fu64, 0x7c223062eu64,
        0x08ca97c42u64, 0x7e1e0862eu64, 0x1d10f462eu64, 0x7c2111110u64, 0x3a317462eu64,
        0x3a317845cu64, 0x000401000u64, 0x000401088u64, 0x044441041u64, 0x001f07c00u64,
        0x208208888u64, 0x3a2131004u64, 0x3a35bda0fu64, 0x11518fe31u64, 0x7a31f463eu64,
        0x3a308422eu64, 0x7a318c63eu64, 0x7e10f421fu64, 0x7e10f4210u64, 0x3e3084e2fu64,
        0x4631fc631u64, 0x38842108eu64, 0x1c4210a4cu64, 0x4654c5251u64, 0x42108421fu64,
        0x4775ad631u64, 0x4639ace31u64, 0x3a318c62eu64, 0x7a31f4210u64, 0x3a318d64du64,
        0x7a31f5251u64, 0x3a307062eu64, 0x7ea421084u64, 0x46318c62eu64, 0x46318c544u64,
        0x4631ad6aau64, 0x462a22a31u64, 0x462a21084u64, 0x7c227221fu64, 0x3d084210fu64,
        0x020820820u64, 0x3c210842fu64, 0x115100000u64, 0x00000001fu64, 0x318410000u64,
        0x000c13a4fu64, 0x4216cc736u64, 0x000e8c22eu64, 0x042d9c66du64, 0x000e8fe0eu64,
        0x08a471084u64, 0x01f18bc2eu64, 0x4216cc631u64, 0x100c2108eu64, 0x080210a4cu64,
        0x4212a6292u64, 0x30842108eu64, 0x001aad6b5u64, 0x0016cc631u64, 0x000e8c62eu64,
        0x001e8fa10u64, 0x000d9bc21u64, 0x0016cc210u64, 0x000f8383eu64, 0x109f210a2u64,
        0x00118c66du64, 0x00118c544u64, 0x00118d6aau64, 0x001151151u64, 0x00118bc2eu64,
        0x001f1111fu64, 0x088441082u64, 0x108401084u64, 0x208411088u64, 0x22a200000u64,
    ];
    assert(table@ =~= ascii_patterns());
    table[n]
}

/// The pattern of a Spanish letter or sign beyond ASCII.
pub open spec fn extra_pattern(ch: char) -> Option<u64> {
    if ch == 'á' {
        Some(0x088c13a4fu64)
    } else if ch == 'é' {
        Some(0x088e8fe0eu64)
    } else if ch == 'í' {
        Some(0x088c2108eu64)
    } else if ch == 'ó' {
        Some(0x088e8c62eu64)
    } else if ch == 'ú' {
        Some(0x08918c66du64)
    } else if ch == 'ñ' {
        Some(0x3240b6631u64)
    } else if ch == 'Á' {
        Some(0x088e8fe31u64)
    } else if ch == 'É' {
        Some(0x089f87a1fu64)
    } else if ch == 'Í' {
        Some(0x088e2108eu64)
    } else if ch == 'Ó' {
        Some(0x09d18c62eu64)
    } else if ch == 'Ú' {
        Some(0x08918c62eu64)
    } else if ch == 'Ñ' {
        Some(0x4991cd671u64)
    } else if ch == '¿' {
        Some(0x10046422eu64)
    } else if ch == '¡' {
        Some(0x100421084u64)
    } else {
        None
    }
}

/// The pattern of a Spanish letter or sign beyond ASCII.
pub fn find_extra(ch: char) -> (p: Option<u64>)
    ensures
        p == extra_pattern(ch),
{
    if ch == 'á' {
        Some(0x088c13a4fu64)
    } else if ch == 'é' {
        Some(0x088e8fe0eu64)
    } else if ch == 'í' {
        Some(0x088c2108eu64)
    } else if ch == 'ó' {
        Some(0x088e8c62eu64)
    } else if ch == 'ú' {
        Some(0x08918c66du64)
    } else if ch == 'ñ' {
        Some(0x3240b6631u64)
    } else if ch == 'Á' {
        Some(0x088e8fe31u64)
    } else if ch == 'É' {
        Some(0x089f87a1fu64)
    } else if ch == 'Í' {
        Some(0x088e2108eu64)
    } else if ch == 'Ó' {
        Some(0x09d18c62eu64)
    } else if ch == 'Ú' {
        Some(0x08918c62eu64)
    } else if ch == 'Ñ' {
        Some(0x4991cd671u64)
    } else if ch == '¿' {
        Some(0x10046422eu64)
    } else if ch == '¡' {
        Some(0x100421084u64)
    } else {
        None
    }
}

} // verus!
