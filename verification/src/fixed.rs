//! Q16.16 fixed point.
//!
//! Every number the renderer carries through a frame is one of these, so
//! that the host and the 6502 target do the same arithmetic in the same
//! order.  Bit 16 is the ones place: [`ONE`] is `0x0001_0000`.
use vstd::prelude::*;

verus! {

/// A Q16.16 fixed-point number.
pub type Fx = i32;

/// Number of fractional bits.
pub const FRAC: u32 = 16;
/// 1.0
pub const ONE: Fx = 65536;
/// 0.5
pub const HALF: Fx = 32768;
/// The largest representable value, used as "no hit".
pub const FX_MAX: Fx = 2147483647;

/// Division rounding towards zero, as Rust's integer `/` does.
pub open spec fn trunc_div(x: int, y: int) -> int {
    if y == 0 {
        0
    } else {
        let q: int = vstd::math::abs(x) as int / vstd::math::abs(y) as int;
        if (x < 0) == (y < 0) { q } else { -q }
    }
}

/// The Q16.16 product of two values, before narrowing to 32 bits.
pub open spec fn mul_wide(a: int, b: int) -> int {
    (a * b) / 65536
}

/// The Q16.16 quotient, `FX_MAX` for a zero divisor.
pub open spec fn div_of(a: int, b: int) -> i32 {
    if b == 0 {
        FX_MAX
    } else {
        trunc_div(a * 65536, b) as i32
    }
}

/// `from_int` as a value: the shift wraps at 32 bits.
pub open spec fn from_int_of(i: int) -> i32 {
    (i * 65536) as i32
}

/// The value of [`mul`].
pub open spec fn fx_mul(a: Fx, b: Fx) -> Fx {
    mul_wide(a as int, b as int) as i32
}

/// The value of [`div`].
pub open spec fn fx_div(a: Fx, b: Fx) -> Fx {
    div_of(a as int, b as int)
}

/// The value of [`floor`]: rounding towards negative infinity.
pub open spec fn fx_floor(a: Fx) -> int {
    a as int / 65536
}

/// Whole number to fixed point.  The low sixteen bits of `i` become the
/// integer part; anything above them falls off, as a shift does.
pub fn from_int(i: i32) -> (r: Fx)
    ensures
        r == from_int_of(i as int),
        -32768 <= i < 32768 ==> r == i * 65536,
{
    assert((i << 16u32) == (i * 65536) as i32) by (bit_vector);
    i << 16u32
}

/// Fixed point to whole number, rounding towards negative infinity.
pub fn floor(a: Fx) -> (r: i32)
    ensures
        r == a as int / 65536,
{
    assert(((a >> 16u32) as int) * 65536 <= a < ((a >> 16u32) as int) * 65536 + 65536)
        by (bit_vector);
    a >> 16u32
}

/// The fractional part, always in `0..ONE` even for negatives.
pub fn frac(a: Fx) -> (r: Fx)
    ensures
        r == a as int % 65536,
        0 <= r < ONE,
{
    assert((a & 65535i32) as int == a as int - ((a >> 16u32) as int) * 65536) by (bit_vector);
    assert(((a >> 16u32) as int) * 65536 <= a < ((a >> 16u32) as int) * 65536 + 65536)
        by (bit_vector);
    a & 65535i32
}

/// `x >> 16` on a 64-bit value is division by 65536 rounding down.
pub proof fn lemma_shr16_i64(x: i64)
    ensures
        (x >> 16u64) as int == x as int / 65536,
{
    assert(((x >> 16u64) as int) * 65536 <= x < ((x >> 16u64) as int) * 65536 + 65536)
        by (bit_vector);
}

/// `a * b`, via a 64-bit intermediate so the product cannot overflow.
pub fn mul(a: Fx, b: Fx) -> (r: Fx)
    ensures
        r == mul_wide(a as int, b as int) as i32,
{
    proof {
        assert(-2147483648 * 2147483648 <= (a as int) * (b as int) <= 2147483648 * 2147483648)
            by (nonlinear_arith)
            requires
                -2147483648 <= a <= 2147483647,
                -2147483648 <= b <= 2147483647,
        ;
    }
    let p: i64 = (a as i64) * (b as i64);
    proof {
        lemma_shr16_i64(p);
    }
    #[verifier::truncate] ((p >> 16u64) as i32)
}

/// `a / b`.  Division by zero yields `FX_MAX` rather than trapping.
pub fn div(a: Fx, b: Fx) -> (r: Fx)
    ensures
        r == div_of(a as int, b as int),
{
    if b == 0 {
        FX_MAX
    } else {
        // Rust's `/` rounds towards zero; divide the magnitudes and put
        // the sign back, which is the same thing said explicitly.
        let n: i64 = (a as i64) * 65536;
        let d: i64 = b as i64;
        let un: i64 = if n < 0 { -n } else { n };
        let ud: i64 = if d < 0 { -d } else { d };
        let m: i64 = un / ud;
        let q: i64 = if (n < 0) == (d < 0) { m } else { -m };
        assert(q == trunc_div(n as int, d as int));
        #[verifier::truncate] (q as i32)
    }
}

/// `1 / a`, same zero rule as [`div`].
pub fn recip(a: Fx) -> (r: Fx)
    ensures
        r == div_of(ONE as int, a as int),
{
    div(ONE, a)
}

/// A fixed-point value from a ratio of whole numbers.
pub fn ratio(num: i32, den: i32) -> (r: Fx)
    ensures
        r == div_of(from_int_of(num as int) as int, from_int_of(den as int) as int),
{
    div(from_int(num), from_int(den))
}

/// Absolute value.  `i32::MIN` has none, and negating it overflows.
pub fn abs(a: Fx) -> (r: Fx)
    requires
        a != i32::MIN,
    ensures
        r == vstd::math::abs(a as int),
{
    if a < 0 {
        -a
    } else {
        a
    }
}

/// The value of [`lerp`]: `a` at `t == 0`, `b` at `t == ONE`.
pub open spec fn lerp_of(a: int, b: int, t: int) -> int {
    a + mul_wide(b - a, t) as i32
}

/// Linear interpolation: `a` at `t == 0`, `b` at `t == ONE`.
pub fn lerp(a: Fx, b: Fx, t: Fx) -> (r: Fx)
    requires
        i32::MIN <= b - a <= i32::MAX,
        i32::MIN <= lerp_of(a as int, b as int, t as int) <= i32::MAX,
    ensures
        r == lerp_of(a as int, b as int, t as int),
{
    a + self::mul(b - a, t)
}

/// The value of [`clamp`].
pub open spec fn clamp_of(a: int, lo: int, hi: int) -> int {
    if a < lo {
        lo
    } else if a > hi {
        hi
    } else {
        a
    }
}

/// Clamp into `lo..=hi`.
pub fn clamp(a: Fx, lo: Fx, hi: Fx) -> (r: Fx)
    ensures
        r == clamp_of(a as int, lo as int, hi as int),
        lo <= hi ==> lo <= r <= hi,
{
    if a < lo {
        lo
    } else if a > hi {
        hi
    } else {
        a
    }
}

/// Whole numbers round-trip: the floor of `from_int(i)` is `i`, for every
/// `i` the integer part can hold.
pub proof fn lemma_floor_from_int(i: i32)
    requires
        -32768 <= i < 32768,
    ensures
        from_int_of(i as int) as int / 65536 == i,
{
    assert(from_int_of(i as int) == i * 65536);
}

/// The fractional part and the floor put a value back together, and the
/// fraction is never negative.
pub proof fn lemma_floor_frac(a: Fx)
    ensures
        (a as int / 65536) * 65536 + a as int % 65536 == a,
        0 <= a as int % 65536 < ONE,
{
}

/// A product of two bounded values is bounded, and fits in 32 bits.
pub proof fn lemma_mul_bound(a: Fx, b: Fx, ma: int, mb: int)
    requires
        -ma <= a <= ma,
        -mb <= b <= mb,
        0 <= ma,
        0 <= mb,
        ma * mb <= 0x7fff_ffff * 65536,
    ensures
        -(ma * mb / 65536) - 1 <= mul_wide(a as int, b as int) <= ma * mb / 65536,
        fx_mul(a, b) == mul_wide(a as int, b as int),
{
    let p = a as int * b as int;
    assert(-(ma * mb) <= p <= ma * mb) by (nonlinear_arith)
        requires
            -ma <= a <= ma,
            -mb <= b <= mb,
            0 <= ma,
            0 <= mb,
            p == a as int * b as int,
    ;
}

/// A product with a value in `0..=ONE` lies between zero and the other
/// factor.
pub proof fn lemma_mul_fraction(a: Fx, t: Fx)
    requires
        0 <= t <= ONE,
    ensures
        a >= 0 ==> 0 <= fx_mul(a, t) <= a,
        a < 0 ==> a - 1 <= fx_mul(a, t) <= 0,
        fx_mul(a, t) == mul_wide(a as int, t as int),
{
    let p = a as int * t as int;
    if a >= 0 {
        assert(0 <= p <= a as int * 65536) by (nonlinear_arith)
            requires
                0 <= a,
                0 <= t <= 65536,
                p == a as int * t as int,
        ;
    } else {
        assert(a as int * 65536 <= p <= 0) by (nonlinear_arith)
            requires
                a < 0,
                0 <= t <= 65536,
                p == a as int * t as int,
        ;
    }
}

/// A quotient by a positive divisor at least `d` of a value no bigger
/// than `m` in size is no bigger than `m * ONE / d`, and fits.
pub proof fn lemma_div_bound(a: Fx, b: Fx, m: int, d: int)
    requires
        -m <= a <= m,
        0 < d <= b,
        0 <= m,
        m * 65536 / d <= 0x7fff_ffff,
    ensures
        -(m * 65536 / d) <= fx_div(a, b) <= m * 65536 / d,
        fx_div(a, b) == trunc_div(a as int * 65536, b as int),
{
    let n = a as int * 65536;
    let q = vstd::math::abs(n) as int / (b as int);
    assert(vstd::math::abs(n) <= m * 65536);
    assert(q <= m * 65536 / d) by (nonlinear_arith)
        requires
            q == vstd::math::abs(n) as int / (b as int),
            vstd::math::abs(n) <= m * 65536,
            0 < d <= b,
            0 <= m,
    ;
}

/// A quotient of a value that is not negative by a positive divisor is
/// not negative, and rounds down.
pub proof fn lemma_div_nonneg(a: Fx, b: Fx)
    requires
        0 <= a,
        0 < b,
    ensures
        trunc_div(a as int * 65536, b as int) == (a as int * 65536) / (b as int),
        0 <= (a as int * 65536) / (b as int),
{
    let n = a as int * 65536;
    assert(0 <= n / (b as int)) by (nonlinear_arith)
        requires
            0 <= n,
            0 < b,
    ;
}

/// A product of two values that are not negative is not negative.
pub proof fn lemma_mul_nonneg(a: int, b: int)
    requires
        0 <= a,
        0 <= b,
    ensures
        0 <= mul_wide(a, b),
{
    assert(0 <= a * b) by (nonlinear_arith)
        requires
            0 <= a,
            0 <= b,
    ;
}

/// A product of a value that is not positive and one that is not negative
/// is not positive.
pub proof fn lemma_mul_nonpos(a: int, b: int)
    requires
        a <= 0,
        0 <= b,
    ensures
        mul_wide(a, b) <= 0,
{
    assert(a * b <= 0) by (nonlinear_arith)
        requires
            a <= 0,
            0 <= b,
    ;
}

/// Interpolating with a fraction in `0..=ONE` lands between the two ends.
pub proof fn lemma_lerp_between(a: int, b: int, t: int)
    requires
        0 <= t <= ONE,
        -0x3fff_ffff <= a <= 0x3fff_ffff,
        -0x3fff_ffff <= b <= 0x3fff_ffff,
    ensures
        (if a <= b { a } else { b }) <= lerp_of(a, b, t) <= (if a >= b { a } else { b }),
{
    let d = b - a;
    let q = (d * t) / 65536;
    if d >= 0 {
        assert(0 <= q <= d) by (nonlinear_arith)
            requires
                q == (d * t) / 65536,
                0 <= t <= 65536,
                d >= 0,
        ;
    } else {
        assert(d <= q <= 0) by (nonlinear_arith)
            requires
                q == (d * t) / 65536,
                0 <= t <= 65536,
                d < 0,
        ;
    }
    assert(mul_wide(d, t) as i32 == q);
}

} // verus!
