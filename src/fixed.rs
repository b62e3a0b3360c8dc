use vstd::prelude::*;

verus! {

/// Fractional quantities are held as `i64` counts of `1 / UNIT`; `UNIT` itself stands for one.
pub const UNIT: i64 = 1000000;

pub open spec fn clamp_i64(v: int) -> int {
    if v < i64::MIN {
        i64::MIN as int
    } else if v > i64::MAX {
        i64::MAX as int
    } else {
        v
    }
}

/// Division that rounds toward zero, as Rust's `/` does.
pub open spec fn div_trunc(a: int, d: int) -> int
    recommends
        d > 0,
{
    if a >= 0 {
        a / d
    } else {
        -((-a) / d)
    }
}

/// Saturating sum of two fixed-point values.
pub open spec fn fx_add(a: i64, b: i64) -> i64 {
    clamp_i64(a + b) as i64
}

/// Saturating product of two fixed-point values, rounded toward zero.
pub open spec fn fx_mul(a: i64, b: i64) -> i64 {
    clamp_i64(div_trunc(a * b, UNIT as int)) as i64
}

pub fn add_fx(a: i64, b: i64) -> (r: i64)
    ensures
        r == fx_add(a, b),
{
    let s = a as i128 + b as i128;
    if s < i64::MIN as i128 {
        i64::MIN
    } else if s > i64::MAX as i128 {
        i64::MAX
    } else {
        s as i64
    }
}

pub fn mul_fx(a: i64, b: i64) -> (r: i64)
    ensures
        r == fx_mul(a, b),
{
    let ai = a as i128;
    let bi = b as i128;
    proof {
        let (x, y) = (a as int, b as int);
        assert(-0x4000_0000_0000_0000_0000_0000_0000_0000 <= x * y <= 0x4000_0000_0000_0000_0000_0000_0000_0000)
            by (nonlinear_arith)
            requires -0x8000_0000_0000_0000 <= x <= 0x7fff_ffff_ffff_ffff,
                -0x8000_0000_0000_0000 <= y <= 0x7fff_ffff_ffff_ffff;
    }
    let p = ai * bi;
    let u = UNIT as i128;
    let q: i128 = if p >= 0 { p / u } else { -((-p) / u) };
    if q < i64::MIN as i128 {
        i64::MIN
    } else if q > i64::MAX as i128 {
        i64::MAX
    } else {
        q as i64
    }
}

} // verus!
