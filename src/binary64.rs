//! Exact conversions between points of the circle and IEEE-754 binary64
//! numbers, given by their bit patterns.
//!
//! A finite binary64 number is `s * 2^e` for an integer significand `s` and
//! an integer exponent `e`, so it is the dyadic rational `n / 2^d` for some
//! integer `n` and natural `d`. Every conversion here is stated over that
//! rational and is exact: a real goes to the grid point at or below it,
//! after reduction modulo `1`.

use vstd::prelude::*;
use vstd::arithmetic::div_mod::*;
use vstd::arithmetic::power2::*;
use crate::torus::{modulus, Torus};

verus! {

/// Why a conversion or a sampler could not produce a point.
#[derive(Clone, Copy, Debug, PartialEq, Eq, Structural)]
pub enum TorusError {
    /// The real given is infinite or not a number.
    InvalidInput,
    /// A distribution parameter is out of its domain.
    InvalidParameter,
}

/// `2^52`: one past the largest fraction field.
pub open spec fn fraction_range() -> int {
    0x10_0000_0000_0000
}

/// The sign bit of a binary64 pattern.
pub open spec fn sign_bit(bits: u64) -> bool {
    bits >= 0x8000_0000_0000_0000
}

/// The 11-bit biased exponent field of a binary64 pattern.
pub open spec fn exponent_field(bits: u64) -> int {
    (bits as int / fraction_range()) % 0x800
}

/// The 52-bit fraction field of a binary64 pattern.
pub open spec fn fraction_field(bits: u64) -> int {
    bits as int % fraction_range()
}

/// Whether the pattern is a finite number (not an infinity or a NaN).
pub open spec fn is_finite(bits: u64) -> bool {
    exponent_field(bits) != 0x7ff
}

/// The magnitude of the significand as an integer, with the hidden bit of a
/// normal number made explicit.
pub open spec fn significand(bits: u64) -> int {
    if exponent_field(bits) == 0 {
        fraction_field(bits)
    } else {
        fraction_field(bits) + fraction_range()
    }
}

/// The power of two that scales the significand.
pub open spec fn scale(bits: u64) -> int {
    if exponent_field(bits) == 0 {
        -1074
    } else {
        exponent_field(bits) - 1075
    }
}

/// The significand with the sign applied: a finite pattern stands for
/// `signed_significand(bits) * 2^scale(bits)`.
pub open spec fn signed_significand(bits: u64) -> int {
    if sign_bit(bits) {
        -significand(bits)
    } else {
        significand(bits)
    }
}

/// `floor(n * 2^k)`, for an integer `n` and any integer `k`.
pub open spec fn scaled_floor(n: int, k: int) -> int {
    if k >= 0 {
        n * pow2(k as nat)
    } else {
        n / (pow2((-k) as nat) as int)
    }
}

/// The numerator of `n * 2^e` written as `num / 2^den`.
pub open spec fn dyadic_num(n: int, e: int) -> int {
    if e >= 0 {
        n * pow2(e as nat)
    } else {
        n
    }
}

/// The exponent of the denominator of `n * 2^e` written as `num / 2^den`.
pub open spec fn dyadic_den(e: int) -> nat {
    if e >= 0 {
        0
    } else {
        (-e) as nat
    }
}

/// The numerator of the value of a finite pattern, as `num / 2^den`.
pub open spec fn real_num(bits: u64) -> int {
    dyadic_num(signed_significand(bits), scale(bits))
}

/// The exponent of the denominator of the value of a finite pattern.
pub open spec fn real_den(bits: u64) -> nat {
    dyadic_den(scale(bits))
}

/// The raw value of the grid point at or below `(n / 2^d) mod 1`:
/// `floor(n * 2^32 / 2^d) mod 2^32`.
pub open spec fn encode_dyadic(n: int, d: nat) -> int {
    (n * modulus()) / (pow2(d) as int) % modulus()
}

/// The raw value of the grid point at or below `(a * n / 2^d) mod 1`, where
/// `a` is a raw value: `floor(a * n / 2^d) mod 2^32`.
pub open spec fn scale_dyadic(a: int, n: int, d: nat) -> int {
    (a * n) / (pow2(d) as int) % modulus()
}

/// The raw value of the grid point at or below the finite real that `bits`
/// stands for, reduced modulo `1`.
pub open spec fn encode_real(bits: u64) -> int {
    encode_dyadic(real_num(bits), real_den(bits))
}

/// Whether the finite pattern `bits` stands for exactly `n / 2^d`.
pub open spec fn represents(bits: u64, n: int, d: nat) -> bool {
    real_num(bits) * pow2(d) == n * pow2(real_den(bits))
}

/// A common factor cancels under floor division.
proof fn lemma_div_cancel(n: int, c: int, d: int)
    requires
        c > 0,
        d > 0,
    ensures
        (n * c) / (c * d) == n / d,
{
    lemma_fundamental_div_mod(n, d);
    let q = n / d;
    let r = n % d;
    assert(n * c == q * (c * d) + r * c && 0 <= r * c < c * d) by (nonlinear_arith)
        requires
            n == d * q + r,
            0 <= r < d,
            c > 0,
    ;
    lemma_fundamental_div_mod_converse(n * c, c * d, q, r * c);
}

/// `2^32` as a power of two.
proof fn lemma_modulus_pow2()
    ensures
        pow2(32) == modulus(),
{
    lemma2_to64();
}

/// Encoding a dyadic rational is a floor of the value scaled by `2^32`.
proof fn lemma_encode_scaled(n: int, e: int)
    ensures
        encode_dyadic(dyadic_num(n, e), dyadic_den(e)) == scaled_floor(n, e + 32) % modulus(),
{
    lemma_modulus_pow2();
    if e >= 0 {
        lemma_pow2_adds(e as nat, 32);
        lemma2_to64();
        assert(dyadic_num(n, e) * modulus() == n * pow2((e + 32) as nat)) by (nonlinear_arith)
            requires
                dyadic_num(n, e) == n * pow2(e as nat),
                pow2((e + 32) as nat) == pow2(e as nat) * pow2(32),
                pow2(32) == modulus(),
        ;
    } else if e >= -32 {
        let d = (-e) as nat;
        let k = (e + 32) as nat;
        lemma_pow2_adds(d, k);
        assert(n * modulus() == pow2(d) * (n * pow2(k))) by (nonlinear_arith)
            requires
                pow2(d + k) == pow2(d) * pow2(k),
                d + k == 32,
                pow2(32) == modulus(),
        ;
        lemma_pow2_pos(d);
        lemma_div_multiples_vanish(n * pow2(k), pow2(d) as int);
    } else {
        let k = (-e - 32) as nat;
        lemma_pow2_adds(32, k);
        lemma_pow2_pos(k);
        lemma_div_cancel(n, modulus(), pow2(k) as int);
    }
}

/// Scaling a raw value by a dyadic rational is a floor of a product.
proof fn lemma_scale_scaled(a: int, n: int, e: int)
    ensures
        scale_dyadic(a, dyadic_num(n, e), dyadic_den(e)) == scaled_floor(a * n, e) % modulus(),
{
    if e >= 0 {
        lemma2_to64();
        assert(a * (n * pow2(e as nat)) == (a * n) * pow2(e as nat)) by (nonlinear_arith);
    }
}

/// The remainder of a negated value, written with a non-negative operand.
proof fn lemma_neg_mod(x: int, n: int)
    requires
        n > 0,
    ensures
        (-x) % n == (n - x % n) % n,
{
    lemma_fundamental_div_mod(x, n);
    let q = x / n;
    let r = x % n;
    assert(-x == n * (-q - 1) + (n - r)) by (nonlinear_arith)
        requires
            x == n * q + r,
    ;
    lemma_mod_multiples_vanish(-q - 1, n - r, n);
}

/// Floor division of a negated natural number.
proof fn lemma_neg_div(x: int, d: int)
    requires
        x >= 0,
        d > 0,
    ensures
        (-x) / d == (if x % d == 0 { -(x / d) } else { -(x / d) - 1 }),
{
    lemma_fundamental_div_mod(x, d);
    let q = x / d;
    let r = x % d;
    if r == 0 {
        assert(-x == (-q) * d + 0) by (nonlinear_arith)
            requires
                x == d * q + r,
                r == 0,
        ;
        lemma_fundamental_div_mod_converse(-x, d, -q, 0);
    } else {
        assert(-x == (-q - 1) * d + (d - r)) by (nonlinear_arith)
            requires
                x == d * q + r,
        ;
        lemma_fundamental_div_mod_converse(-x, d, -q - 1, d - r);
    }
}

/// `2^e` as a machine integer.
fn pow2_u128(e: u32) -> (r: u128)
    requires
        e < 128,
    ensures
        r == pow2(e as nat),
{
    let mut r: u128 = 1;
    let mut i: u32 = 0;
    proof {
        lemma2_to64();
        lemma2_to64_rest();
        lemma_pow2_adds(64, 64);
    }
    while i < e
        invariant
            i <= e < 128,
            r == pow2(i as nat),
            pow2(128) == 0x1_0000_0000_0000_0000 * 0x1_0000_0000_0000_0000,
        decreases e - i,
    {
        proof {
            lemma_pow2_unfold((i + 1) as nat);
            if i + 1 < 128 {
                lemma_pow2_strictly_increases((i + 1) as nat, 128);
            }
        }
        r = r * 2;
        i = i + 1;
    }
    r
}

/// Decoding a point to the real it stands for and encoding that real again
/// gives back the same point: any pattern whose value is exactly
/// `t.inner / 2^32`, such as the one `to_real_bits` returns, encodes to `t`.
pub proof fn lemma_round_trip(t: Torus, bits: u64)
    requires
        represents(bits, t@, 32),
    ensures
        encode_real(bits) == t@,
{
    let n = real_num(bits);
    let d = real_den(bits);
    lemma_modulus_pow2();
    lemma_pow2_pos(d);
    assert(n * modulus() == pow2(d) * t@) by (nonlinear_arith)
        requires
            n * pow2(32) == t@ * pow2(d),
            pow2(32) == modulus(),
    ;
    lemma_div_multiples_vanish(t@, pow2(d) as int);
    lemma_small_mod(t@ as nat, modulus() as nat);
}

/// Encoding is periodic with period `1`: the reals `n / 2^d` and
/// `n / 2^d + j` give the same point, for every integer `j`.
pub proof fn lemma_periodic(n: int, d: nat, j: int)
    ensures
        encode_dyadic(n + j * pow2(d), d) == encode_dyadic(n, d),
{
    let m = modulus();
    lemma_pow2_pos(d);
    assert((n + j * pow2(d)) * m == n * m + (j * m) * pow2(d)) by (nonlinear_arith);
    lemma_hoist_over_denominator(n * m, j * m, pow2(d));
    let q = (n * m) / (pow2(d) as int);
    assert(q + j * m == m * j + q) by (nonlinear_arith);
    lemma_mod_multiples_vanish(j, q, m);
}

/// `floor(n * 2^k) mod 2^32` for `n = -m` or `n = m`.
fn floor_scaled_mod(negative: bool, m: u128, k: i32) -> (r: u32)
    requires
        m < 0x1_0000_0000_0000_0000_0000_0000,
        k > -0x1000_0000,
    ensures
        r as int == scaled_floor(if negative { -(m as int) } else { m as int }, k as int)
            % modulus(),
{
    let ghost n: int = if negative { -(m as int) } else { m as int };
    proof {
        lemma_modulus_pow2();
    }
    if k >= 32 {
        proof {
            let kk = k as nat;
            let rest = (kk - 32) as nat;
            lemma_pow2_adds(32, rest);
            assert(n * pow2(kk) == (n * pow2(rest)) * modulus()) by (nonlinear_arith)
                requires
                    pow2(kk) == pow2(32) * pow2(rest),
                    pow2(32) == modulus(),
                    kk == 32 + rest,
            ;
            lemma_mod_multiples_basic(n * pow2(rest), modulus());
        }
        0
    } else if k >= 0 {
        let low_range = pow2_u128((32 - k) as u32);
        let step = pow2_u128(k as u32);
        proof {
            lemma_pow2_pos((32 - k) as nat);
            lemma_pow2_pos(k as nat);
        }
        let low = m % low_range;
        proof {
            lemma_pow2_adds(k as nat, (32 - k) as nat);
            assert(step * low < modulus()) by (nonlinear_arith)
                requires
                    low < low_range,
                    step * low_range == modulus(),
                    step > 0,
            ;
            lemma_mod_breakdown(m * step, step as int, low_range as int);
            lemma_div_multiples_vanish(m as int, step as int);
            lemma_mod_multiples_basic(m as int, step as int);
            assert((m * step) / (step as int) == m) by (nonlinear_arith)
                requires
                    (step * m) / (step as int) == m,
            ;
            assert((m * step) % modulus() == step * low);
        }
        let mag = step * low;
        assert(mag == (m * step) % modulus());
        if negative {
            proof {
                lemma_neg_mod(m * step, modulus());
                assert(n * pow2(k as nat) == -(m * step)) by (nonlinear_arith)
                    requires
                        n == -(m as int),
                        step == pow2(k as nat),
                ;
            }
            if mag == 0 {
                0
            } else {
                (0x1_0000_0000u128 - mag) as u32
            }
        } else {
            mag as u32
        }
    } else {
        let shift: u32 = (0 - k) as u32;
        proof {
            lemma2_to64_rest();
            lemma_pow2_adds(64, 32);
            lemma_pow2_pos(shift as nat);
        }
        let quotient: u128;
        let exact: bool;
        if shift >= 96 {
            proof {
                if shift > 96 {
                    lemma_pow2_strictly_increases(96, shift as nat);
                }
                lemma_basic_div(m as int, pow2(shift as nat) as int);
                lemma_small_mod(m as nat, pow2(shift as nat));
            }
            quotient = 0;
            exact = m == 0;
        } else {
            let d = pow2_u128(shift);
            quotient = m / d;
            exact = m % d == 0;
        }
        assert(quotient == m as int / (pow2(shift as nat) as int));
        assert(exact == (m as int % (pow2(shift as nat) as int) == 0));
        if negative {
            let c: u128 = if exact { quotient } else { quotient + 1 };
            proof {
                lemma_neg_div(m as int, pow2(shift as nat) as int);
                lemma_neg_mod(c as int, modulus());
            }
            let low = c % 0x1_0000_0000;
            if low == 0 {
                0
            } else {
                (0x1_0000_0000u128 - low) as u32
            }
        } else {
            (quotient % 0x1_0000_0000) as u32
        }
    }
}

/// The sign, significand and scale of a finite pattern, as machine values.
fn decode(bits: u64) -> (r: (bool, u64, i32))
    requires
        is_finite(bits),
    ensures
        r.0 == sign_bit(bits),
        r.1 as int == significand(bits),
        r.2 as int == scale(bits),
        r.1 < 2 * fraction_range(),
{
    let exponent: u64 = (bits / 0x10_0000_0000_0000) % 0x800;
    let fraction: u64 = bits % 0x10_0000_0000_0000;
    let negative = bits >= 0x8000_0000_0000_0000;
    if exponent == 0 {
        (negative, fraction, -1074)
    } else {
        (negative, fraction + 0x10_0000_0000_0000, exponent as i32 - 1075)
    }
}

impl Torus {
    /// The grid point at or below `x mod 1`, for the binary64 number `x`
    /// whose bit pattern is `bits` (the pattern that `f64::to_bits` gives).
    ///
    /// The reduction is Euclidean, so a negative `x` lands in `[0, 1)` too,
    /// and it is exact: no rounding happens before the final truncation.
    /// An infinity or a NaN is refused.
    pub fn from_real_bits(bits: u64) -> (r: Result<Torus, TorusError>)
        ensures
            r is Ok <==> is_finite(bits),
            r is Ok ==> r->Ok_0@ == encode_real(bits),
            r is Err ==> r->Err_0 == TorusError::InvalidInput,
    {
        if (bits / 0x10_0000_0000_0000) % 0x800 == 0x7ff {
            return Err(TorusError::InvalidInput);
        }
        let (negative, m, e) = decode(bits);
        proof {
            lemma_encode_scaled(signed_significand(bits), scale(bits));
        }
        Ok(Torus { inner: floor_scaled_mod(negative, m as u128, e + 32) })
    }

    /// The bit pattern of the binary64 number `inner / 2^32`, which is exact
    /// and lies in `[0, 1)` (read it back with `f64::from_bits`).
    pub fn to_real_bits(&self) -> (r: u64)
        ensures
            is_finite(r),
            !sign_bit(r),
            represents(r, self@, 32),
    {
        if self.inner == 0 {
            proof {
                lemma2_to64();
                assert(represents(0, 0, 32));
            }
            return 0;
        }
        let mut m: u64 = self.inner as u64;
        let mut shift: u64 = 0;
        proof {
            lemma2_to64();
        }
        while m < 0x10_0000_0000_0000
            invariant
                0 < m < 2 * fraction_range(),
                shift <= 52,
                m == self@ * pow2(shift as nat),
                pow2(shift as nat) <= m,
            decreases 52 - shift,
        {
            proof {
                lemma_pow2_unfold((shift + 1) as nat);
                assert(self@ * pow2((shift + 1) as nat) == 2 * m) by (nonlinear_arith)
                    requires
                        pow2((shift + 1) as nat) == 2 * pow2(shift as nat),
                        m == self@ * pow2(shift as nat),
                ;
                if shift >= 52 {
                    if shift > 52 {
                        lemma_pow2_strictly_increases(52, shift as nat);
                    }
                    lemma2_to64_rest();
                }
            }
            m = m * 2;
            shift = shift + 1;
        }
        let r: u64 = (1043 - shift) * 0x10_0000_0000_0000 + (m - 0x10_0000_0000_0000);
        proof {
            let e = 1043 - shift;
            assert(r as int / fraction_range() == e);
            assert(exponent_field(r) == e);
            assert(fraction_field(r) == m - fraction_range());
            assert(scale(r) == -32 - shift);
            lemma_pow2_adds(32, shift as nat);
            assert(m * pow2(32) == self@ * pow2((32 + shift) as nat)) by (nonlinear_arith)
                requires
                    m == self@ * pow2(shift as nat),
                    pow2((32 + shift) as nat) == pow2(32) * pow2(shift as nat),
            ;
        }
        r
    }

    /// Multiplication of the raw value by a real: the grid point
    /// `floor(inner * x) mod 2^32`, for the binary64 number `x` whose bit
    /// pattern is `bits`. The product is exact before the truncation.
    /// An infinity or a NaN is refused.
    pub fn mul_real_bits(&self, bits: u64) -> (r: Result<Torus, TorusError>)
        ensures
            r is Ok <==> is_finite(bits),
            r is Ok ==> r->Ok_0@ == scale_dyadic(self@, real_num(bits), real_den(bits)),
            r is Err ==> r->Err_0 == TorusError::InvalidInput,
    {
        if (bits / 0x10_0000_0000_0000) % 0x800 == 0x7ff {
            return Err(TorusError::InvalidInput);
        }
        let (negative, m, e) = decode(bits);
        assert((self.inner as int) * (m as int) < 0x1_0000_0000_0000_0000_0000_0000)
            by (nonlinear_arith)
            requires
                self.inner < 0x1_0000_0000,
                m < 0x20_0000_0000_0000,
        ;
        let product: u128 = self.inner as u128 * m as u128;
        proof {
            lemma_scale_scaled(self@, signed_significand(bits), scale(bits));
            assert(self@ * signed_significand(bits) == (if negative {
                -(product as int)
            } else {
                product as int
            })) by (nonlinear_arith)
                requires
                    product == self@ * m,
                    signed_significand(bits) == (if negative {
                        -(m as int)
                    } else {
                        m as int
                    }),
            ;
        }
        Ok(Torus { inner: floor_scaled_mod(negative, product, e) })
    }
}

} // verus!
