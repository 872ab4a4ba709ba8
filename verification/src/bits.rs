//! IEEE-754 bit patterns.
//!
//! The editor's model keeps every floating-point quantity (opacity, DPI,
//! bounds, adjustment parameters, pixel channels) as the bit pattern of the
//! value: `f32` values as `u32`, `f64` values as `u64`. The library moves these
//! values around unchanged; the few places where it must decide something about
//! a value (clamping an opacity, encoding an integer size) are written here
//! against the IEEE-754 layout.
use vstd::prelude::*;

verus! {

/// Bit pattern of an `f32` value.
pub type F32Bits = u32;

/// Bit pattern of an `f64` value.
pub type F64Bits = u64;

/// `0.0_f32`.
pub const F32_ZERO: F32Bits = 0x0000_0000;

/// `1.0_f32`.
pub const F32_ONE: F32Bits = 0x3f80_0000;

/// `72.0_f32`, the default document resolution.
pub const F32_SEVENTY_TWO: F32Bits = 0x4290_0000;

/// `0.0_f64`.
pub const F64_ZERO: F64Bits = 0;

/// Sign bit of an `f32`.
pub const F32_SIGN: u32 = 0x8000_0000;

/// Bit pattern of `f32` positive infinity.
pub const F32_INFINITY: u32 = 0x7f80_0000;

/// The bits of an `f32` without its sign bit.
pub open spec fn f32_magnitude(b: u32) -> int {
    if b >= F32_SIGN { b - F32_SIGN } else { b as int }
}

/// Whether the `f32` with these bits is a NaN.
pub open spec fn f32_is_nan(b: u32) -> bool {
    f32_magnitude(b) > F32_INFINITY
}

/// What `f32::clamp(x, 0.0, 1.0)` returns, on bit patterns.
///
/// A NaN stays as it is; a value below zero (negative zero excepted, which
/// compares equal to zero) becomes `0.0`; a value above one becomes `1.0`.
/// Non-negative floats are ordered as their bit patterns.
pub open spec fn f32_clamp_unit_spec(b: u32) -> u32 {
    if f32_is_nan(b) {
        b
    } else if b > F32_SIGN {
        F32_ZERO
    } else if b == F32_SIGN {
        b
    } else if b > F32_ONE {
        F32_ONE
    } else {
        b
    }
}

/// Clamp an `f32` (given by its bits) to the unit interval, as
/// `f32::clamp(x, 0.0, 1.0)` does.
pub fn f32_clamp_unit(b: F32Bits) -> (r: F32Bits)
    ensures
        r == f32_clamp_unit_spec(b),
{
    let mag: u32 = if b >= F32_SIGN { b - F32_SIGN } else { b };
    if mag > F32_INFINITY {
        b
    } else if b > F32_SIGN {
        F32_ZERO
    } else if b == F32_SIGN {
        b
    } else if b > F32_ONE {
        F32_ONE
    } else {
        b
    }
}

/// Clamping keeps what it returns: a number clamped to the unit interval is
/// `+0.0`, `-0.0` or between them and `1.0`, and clamping it again changes nothing.
pub proof fn law_clamp_unit(b: u32)
    ensures
        !f32_is_nan(b) ==> f32_clamp_unit_spec(b) <= F32_ONE || f32_clamp_unit_spec(b) == F32_SIGN,
        f32_is_nan(b) ==> f32_clamp_unit_spec(b) == b,
        f32_clamp_unit_spec(f32_clamp_unit_spec(b)) == f32_clamp_unit_spec(b),
{
}

/// Two to the power `e`.
pub open spec fn two_pow(e: nat) -> nat
    decreases e,
{
    if e == 0 {
        1
    } else {
        2 * two_pow((e - 1) as nat)
    }
}

/// Position of the highest set bit of `n` (zero for `n <= 1`).
pub open spec fn high_bit(n: nat) -> nat
    decreases n,
{
    if n <= 1 {
        0
    } else {
        1 + high_bit(n / 2)
    }
}

/// The `f64` encoding of the non-negative integer `n` (exact for `n < 2^53`):
/// sign 0, biased exponent `1023 + e` and mantissa `(n - 2^e) * 2^(52 - e)`,
/// where `e` is the position of the highest set bit of `n`.
pub open spec fn f64_bits_of_nat(n: nat) -> int {
    if n == 0 {
        0
    } else {
        let e = high_bit(n);
        (1023 + e) * two_pow(52) + (n - two_pow(e)) * two_pow((52 - e) as nat)
    }
}

proof fn lemma_two_pow_adds(a: nat, b: nat)
    ensures
        two_pow(a) * two_pow(b) == two_pow(a + b),
    decreases a,
{
    if a > 0 {
        lemma_two_pow_adds((a - 1) as nat, b);
        let x = two_pow((a - 1) as nat);
        let y = two_pow(b);
        assert(two_pow(a) == 2 * x);
        assert(two_pow(a + b) == 2 * two_pow((a - 1 + b) as nat));
        assert((2 * x) * y == 2 * (x * y)) by (nonlinear_arith);
    } else {
        assert(two_pow(a) == 1);
    }
}

proof fn lemma_two_pow_positive(a: nat)
    ensures
        two_pow(a) >= 1,
    decreases a,
{
    if a > 0 {
        lemma_two_pow_positive((a - 1) as nat);
    }
}

proof fn lemma_high_bit_bounds(n: nat)
    requires
        n >= 1,
    ensures
        two_pow(high_bit(n)) <= n < 2 * two_pow(high_bit(n)),
    decreases n,
{
    if n > 1 {
        lemma_high_bit_bounds(n / 2);
    }
}

proof fn lemma_high_bit_small(n: nat)
    requires
        1 <= n < 0x1_0000_0000,
    ensures
        high_bit(n) <= 31,
{
    lemma_high_bit_bounds(n);
    if high_bit(n) > 31 {
        lemma_two_pow_monotone(32, high_bit(n));
        lemma_two_pow_32();
    }
}

proof fn lemma_two_pow_monotone(a: nat, b: nat)
    requires
        a <= b,
    ensures
        two_pow(a) <= two_pow(b),
    decreases b,
{
    if b > a {
        lemma_two_pow_monotone(a, (b - 1) as nat);
        lemma_two_pow_positive((b - 1) as nat);
    }
}

proof fn lemma_two_pow_32()
    ensures
        two_pow(32) == 0x1_0000_0000,
        two_pow(52) == 0x10_0000_0000_0000,
{
    reveal_with_fuel(two_pow, 53);
}

/// The `f64` bit pattern of `n as f64`.
pub fn f64_bits_from_u32(n: u32) -> (r: F64Bits)
    ensures
        r == f64_bits_of_nat(n as nat),
{
    if n == 0 {
        return 0;
    }
    let mut m: u32 = n;
    let mut e: u64 = 0;
    let mut p: u64 = 1;
    proof {
        lemma_high_bit_small(n as nat);
    }
    while m > 1
        invariant
            1 <= m <= n,
            high_bit(n as nat) == e + high_bit(m as nat),
            p == two_pow(e as nat),
            high_bit(n as nat) <= 31,
        decreases m,
    {
        m = m / 2;
        e = e + 1;
        proof {
            lemma_two_pow_monotone(e as nat, 31);
            lemma_two_pow_32();
            lemma_two_pow_monotone(31, 32);
        }
        p = p * 2;
    }
    assert(e == high_bit(n as nat));
    proof {
        lemma_high_bit_bounds(n as nat);
    }
    let mut q: u64 = 1;
    let mut k: u64 = 0;
    while k < 52 - e
        invariant
            e <= 31,
            k <= 52 - e,
            q == two_pow(k as nat),
        decreases 52 - e - k,
    {
        proof {
            lemma_two_pow_monotone(k as nat, 52);
            lemma_two_pow_32();
        }
        q = q * 2;
        k = k + 1;
    }
    proof {
        lemma_two_pow_adds(e as nat, (52 - e) as nat);
        lemma_two_pow_positive(k as nat);
        lemma_two_pow_32();
        assert((n - p) * q < p * q) by (nonlinear_arith)
            requires
                n < 2 * p,
                q >= 1,
                p <= n;
    }
    (1023 + e) * 0x10_0000_0000_0000 + (n as u64 - p) * q
}

} // verus!
