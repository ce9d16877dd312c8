//! Colour conversions that need no profile: the additive CMYK fallback and
//! BT.601 RGB <-> YCbCr. Matrix coefficients are exact decimals, held in
//! millionths; a channel is the exact product sum, truncated toward zero and
//! clamped to 0 ..= 255.
use vstd::prelude::*;

verus! {

/// The naive additive CMYK -> RGB channel: `a + k - 255`, clamped to 0 ..= 255.
pub open spec fn additive(a: u8, k: u8) -> u8 {
    if a as int + k as int <= 255 {
        0
    } else {
        (a as int + k as int - 255) as u8
    }
}

/// The degraded conversion used when no profile table applies:
/// `r = c + k - 255`, `g = m + k - 255`, `b = y + k - 255`, clamped.
pub fn cmyk_to_rgb(y: u8, m: u8, c: u8, k: u8) -> (r: (u8, u8, u8))
    ensures
        r == (additive(c, k), additive(m, k), additive(y, k)),
{
    let r = if c as u16 + k as u16 <= 255 {
        0
    } else {
        (c as u16 + k as u16 - 255) as u8
    };
    let g = if m as u16 + k as u16 <= 255 {
        0
    } else {
        (m as u16 + k as u16 - 255) as u8
    };
    let b = if y as u16 + k as u16 <= 255 {
        0
    } else {
        (y as u16 + k as u16 - 255) as u8
    };
    (r, g, b)
}

/// A matrix output channel from its product sum in millionths.
pub open spec fn channel(num: int) -> u8 {
    if num < 0 {
        0
    } else if num / 1_000_000 > 255 {
        255
    } else {
        (num / 1_000_000) as u8
    }
}

/// One row of a 3x3 matrix in millionths applied to three bytes.
pub open spec fn row(e0: int, e1: int, e2: int, x: u8, y: u8, z: u8) -> int {
    e0 * x as int + e1 * y as int + e2 * z as int
}

fn channel_exec(e0: i64, e1: i64, e2: i64, x: u8, y: u8, z: u8) -> (r: u8)
    requires
        -2_000_000 <= e0 <= 2_000_000,
        -2_000_000 <= e1 <= 2_000_000,
        -2_000_000 <= e2 <= 2_000_000,
    ensures
        r == channel(row(e0 as int, e1 as int, e2 as int, x, y, z)),
{
    let (a, b, c) = (x as i64, y as i64, z as i64);
    assert(-2_000_000 * 255 <= e0 * a <= 2_000_000 * 255) by (nonlinear_arith)
        requires
            -2_000_000 <= e0 <= 2_000_000,
            0 <= a <= 255,
    ;
    assert(-2_000_000 * 255 <= e1 * b <= 2_000_000 * 255) by (nonlinear_arith)
        requires
            -2_000_000 <= e1 <= 2_000_000,
            0 <= b <= 255,
    ;
    assert(-2_000_000 * 255 <= e2 * c <= 2_000_000 * 255) by (nonlinear_arith)
        requires
            -2_000_000 <= e2 <= 2_000_000,
            0 <= c <= 255,
    ;
    let num = e0 * a + e1 * b + e2 * c;
    if num < 0 {
        0
    } else if num / 1_000_000 > 255 {
        255
    } else {
        (num / 1_000_000) as u8
    }
}

/// (R, G, B) -> (Y, Cb, Cr) with the BT.601 matrix
/// [0.299 0.587 0.114; -0.168736 -0.331264 0.5; 0.5 -0.418688 -0.081312].
pub fn rgb_to_yuv(r: u8, g: u8, b: u8) -> (out: (u8, u8, u8))
    ensures
        out == (
            channel(row(299_000, 587_000, 114_000, r, g, b)),
            channel(row(-168_736, -331_264, 500_000, r, g, b)),
            channel(row(500_000, -418_688, -81_312, r, g, b)),
        ),
{
    (
        channel_exec(299_000, 587_000, 114_000, r, g, b),
        channel_exec(-168_736, -331_264, 500_000, r, g, b),
        channel_exec(500_000, -418_688, -81_312, r, g, b),
    )
}

/// (Y, Cb, Cr) -> (R, G, B) with the BT.601 matrix
/// [1 0 1.402; 1 -0.34414 -0.71414; 1 1.772 1].
pub fn yuv_to_rgb(y: u8, cb: u8, cr: u8) -> (out: (u8, u8, u8))
    ensures
        out == (
            channel(row(1_000_000, 0, 1_402_000, y, cb, cr)),
            channel(row(1_000_000, -344_140, -714_140, y, cb, cr)),
            channel(row(1_000_000, 1_772_000, 1_000_000, y, cb, cr)),
        ),
{
    (
        channel_exec(1_000_000, 0, 1_402_000, y, cb, cr),
        channel_exec(1_000_000, -344_140, -714_140, y, cb, cr),
        channel_exec(1_000_000, 1_772_000, 1_000_000, y, cb, cr),
    )
}

} // verus!
