//! Lengths and the arithmetic the layout is built on.
//!
//! Absolute lengths are whole numbers of layout units. Sums and products
//! saturate at the ends of the representable range instead of wrapping, and
//! scaling by a fraction rounds toward zero.

use vstd::prelude::*;

verus! {

/// An absolute length in layout units.
pub type Abs = i64;

/// A font-relative length in thousandths of an em.
pub type Em = u32;

/// How many `Em` steps make one em.
pub const EM_STEPS: u32 = 1000;

/// The nearest representable length to the exact value `x`.
pub open spec fn clamp(x: int) -> Abs {
    if x > i64::MAX {
        i64::MAX
    } else if x < i64::MIN {
        i64::MIN
    } else {
        x as i64
    }
}

/// The quotient of `p` by a positive `d`, rounded toward zero.
pub open spec fn toward_zero(p: int, d: int) -> int {
    if p >= 0 {
        p / d
    } else {
        -((-p) / d)
    }
}

/// `a` multiplied by the fraction `num / den`.
pub open spec fn scaled(a: Abs, num: u32, den: u32) -> Abs {
    clamp(toward_zero(a * num, den as int))
}

/// Half of `a`.
pub open spec fn halved(a: Abs) -> Abs {
    clamp(toward_zero(a as int, 2))
}

/// The larger of two lengths.
pub open spec fn larger_of(a: Abs, b: Abs) -> Abs {
    if a >= b {
        a
    } else {
        b
    }
}

fn narrow(x: i128) -> (r: Abs)
    ensures
        r == clamp(x as int),
{
    if x > i64::MAX as i128 {
        i64::MAX
    } else if x < i64::MIN as i128 {
        i64::MIN
    } else {
        x as i64
    }
}

/// Saturating sum of two lengths.
pub fn plus(a: Abs, b: Abs) -> (r: Abs)
    ensures
        r == clamp(a + b),
{
    narrow(a as i128 + b as i128)
}

/// Saturating difference of two lengths.
pub fn minus(a: Abs, b: Abs) -> (r: Abs)
    ensures
        r == clamp(a - b),
{
    narrow(a as i128 - b as i128)
}

/// The larger of two lengths.
pub fn larger(a: Abs, b: Abs) -> (r: Abs)
    ensures
        r == larger_of(a, b),
{
    if a >= b {
        a
    } else {
        b
    }
}

/// Half of a length, rounded toward zero.
pub fn half(a: Abs) -> (r: Abs)
    ensures
        r == halved(a),
{
    a / 2
}

/// A length multiplied by `num / den`, rounded toward zero and saturated.
pub fn scale(a: Abs, num: u32, den: u32) -> (r: Abs)
    requires
        den > 0,
    ensures
        r == scaled(a, num, den),
{
    assert(-0x8000_0000_0000_0000_0000_0000 <= a * num <= 0x8000_0000_0000_0000_0000_0000)
        by (nonlinear_arith)
        requires
            -0x8000_0000_0000_0000 <= a <= 0x8000_0000_0000_0000,
            0 <= num <= 0x1_0000_0000,
    ;
    let p: i128 = (a as i128) * (num as i128);
    let q: i128 = p / (den as i128);
    proof {
        lemma_toward_zero_bounds(p as int, den as int);
    }
    narrow(q)
}

/// A length repeated `n` times, saturated.
pub fn times(a: Abs, n: usize) -> (r: Abs)
    ensures
        r == clamp(a * n),
{
    let wide: i128 = a as i128;
    let count: i128 = n as i128;
    match wide.checked_mul(count) {
        Some(p) => narrow(p),
        None => {
            assert(a > 0 ==> a * n >= 0) by (nonlinear_arith)
                requires
                    n >= 0,
            ;
            assert(a <= 0 ==> a * n <= 0) by (nonlinear_arith)
                requires
                    n >= 0,
            ;
            if a > 0 {
                i64::MAX
            } else {
                i64::MIN
            }
        },
    }
}

/// `em` at the font size `size`.
pub fn em_at(em: Em, size: Abs) -> (r: Abs)
    ensures
        r == scaled(size, em, EM_STEPS),
{
    scale(size, em, EM_STEPS)
}

/// Rounding toward zero never grows a value.
pub proof fn lemma_toward_zero_bounds(p: int, d: int)
    requires
        d > 0,
    ensures
        p >= 0 ==> 0 <= toward_zero(p, d) <= p,
        p <= 0 ==> p <= toward_zero(p, d) <= 0,
{
    if p >= 0 {
        vstd::arithmetic::div_mod::lemma_fundamental_div_mod(p, d);
        vstd::arithmetic::div_mod::lemma_div_pos_is_pos(p, d);
        assert(d * (p / d) >= p / d) by (nonlinear_arith)
            requires
                d >= 1,
                p / d >= 0,
        ;
    } else {
        vstd::arithmetic::div_mod::lemma_fundamental_div_mod(-p, d);
        vstd::arithmetic::div_mod::lemma_div_pos_is_pos(-p, d);
        assert(d * ((-p) / d) >= (-p) / d) by (nonlinear_arith)
            requires
                d >= 1,
                (-p) / d >= 0,
        ;
    }
}

/// Scaling a length that is not negative gives one that is not negative.
pub proof fn lemma_scaled_nonnegative(a: Abs, num: u32, den: u32)
    requires
        a >= 0,
        den > 0,
    ensures
        scaled(a, num, den) >= 0,
{
    assert(a * num >= 0) by (nonlinear_arith)
        requires
            a >= 0,
            num >= 0,
    ;
    lemma_toward_zero_bounds(a * num, den as int);
}

/// Scaling is monotone in the length.
pub proof fn lemma_scaled_monotone(a: Abs, b: Abs, num: u32, den: u32)
    requires
        0 <= a <= b,
        den > 0,
    ensures
        scaled(a, num, den) <= scaled(b, num, den),
{
    assert(0 <= a * num <= b * num) by (nonlinear_arith)
        requires
            0 <= a <= b,
            num >= 0,
    ;
    vstd::arithmetic::div_mod::lemma_div_is_ordered(a * num, b * num, den as int);
}

} // verus!
