//! Conversion of hue / saturation / value colours to RGB, in integer
//! arithmetic.
use vstd::prelude::*;

verus! {

/// `v` cut to the byte range.
pub open spec fn clamp_byte(v: int) -> u8 {
    if v < 0 {
        0
    } else if v > 255 {
        255
    } else {
        v as u8
    }
}

/// Where hue `h` (of 255 to the full circle) stands on its rising or falling
/// ramp, scaled to `0 ..= 255`.
pub open spec fn hue_ramp(h: int) -> int {
    let t = (6 * h) % 510 - 255;
    255 - if t < 0 {
        -t
    } else {
        t
    }
}

/// Which sixth of the colour circle hue `h` lies in.
pub open spec fn hue_sextant(h: int) -> int {
    (6 * h) / 255
}

/// The colour of hue `h` (0 ..= 254, of 255 to the circle), saturation `s` and
/// value `v` (both in percent) with alpha `a`, each channel being 255 times
/// its exact share, rounded down and cut to a byte.
pub open spec fn rgba_of(h: int, s: int, v: int, a: u8) -> Seq<u8> {
    let hi = clamp_byte((255 * v) / 100);
    let mid = clamp_byte((v * s * hue_ramp(h) + 255 * v * (100 - s)) / 10000);
    let lo = clamp_byte((255 * v * (100 - s)) / 10000);
    let k = hue_sextant(h);
    if k == 0 {
        seq![hi, mid, lo, a]
    } else if k == 1 {
        seq![mid, hi, lo, a]
    } else if k == 2 {
        seq![lo, hi, mid, a]
    } else if k == 3 {
        seq![lo, mid, hi, a]
    } else if k == 4 {
        seq![mid, lo, hi, a]
    } else {
        seq![hi, lo, mid, a]
    }
}

/// `num / den` rounded down and cut to a byte, for a positive `den`.
fn byte_of_ratio(num: i64, den: i64) -> (r: u8)
    requires
        den > 0,
    ensures
        r == clamp_byte(num as int / den as int),
{
    if num < 0 {
        proof {
            assert(num as int / den as int <= -1) by (nonlinear_arith)
                requires
                    num < 0,
                    den > 0,
            ;
        }
        0
    } else {
        let q = num / den;
        if q > 255 {
            255
        } else {
            q as u8
        }
    }
}

/// Converts `[hue, saturation, value, alpha]` to `[red, green, blue, alpha]`.
/// Hue runs over `0 .. 255` for the full circle; saturation and value are in
/// percent.
pub fn hsva_to_rgba(hsva: [u8; 4]) -> (r: [u8; 4])
    requires
        hsva@[0] < 255,
    ensures
        r@ == rgba_of(hsva@[0] as int, hsva@[1] as int, hsva@[2] as int, hsva@[3]),
{
    let h = hsva[0] as i64;
    let s = hsva[1] as i64;
    let v = hsva[2] as i64;
    let a = hsva[3];
    let t = (6 * h) % 510 - 255;
    let ramp = 255 - if t < 0 {
        -t
    } else {
        t
    };
    proof {
        assert(0 <= v * s <= 255 * 255) by (nonlinear_arith)
            requires
                0 <= v <= 255,
                0 <= s <= 255,
        ;
        assert(0 <= v * s * ramp <= 255 * 255 * 255) by (nonlinear_arith)
            requires
                0 <= v * s <= 255 * 255,
                0 <= ramp <= 255,
        ;
        assert(-255 * 255 * 155 <= 255 * v * (100 - s) <= 255 * 255 * 100) by (nonlinear_arith)
            requires
                0 <= v <= 255,
                0 <= s <= 255,
        ;
    }
    let hi = byte_of_ratio(255 * v, 100);
    let mid = byte_of_ratio(v * s * ramp + 255 * v * (100 - s), 10000);
    let lo = byte_of_ratio(255 * v * (100 - s), 10000);
    let k = (6 * h) / 255;
    let r = if k == 0 {
        [hi, mid, lo, a]
    } else if k == 1 {
        [mid, hi, lo, a]
    } else if k == 2 {
        [lo, hi, mid, a]
    } else if k == 3 {
        [lo, mid, hi, a]
    } else if k == 4 {
        [mid, lo, hi, a]
    } else {
        [hi, lo, mid, a]
    };
    assert(r@ =~= rgba_of(hsva@[0] as int, hsva@[1] as int, hsva@[2] as int, hsva@[3]));
    r
}

} // verus!
