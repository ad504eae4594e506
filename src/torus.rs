use vstd::prelude::*;
use vstd::arithmetic::div_mod::*;

verus! {

/// The number of grid points on the circle: `2^32`.
pub open spec fn modulus() -> int {
    0x1_0000_0000
}

/// Half of the circle: the raw value of `0.5`.
pub open spec fn half() -> int {
    0x8000_0000
}

/// A point of the circle `R/Z`, held as `inner / 2^32`.
///
/// Every bit pattern is a valid value, so the type carries no invariant.
#[derive(Clone, Copy, Debug, PartialEq, Eq, Structural)]
pub struct Torus {
    pub inner: u32,
}

impl View for Torus {
    type V = int;

    /// The number of grid steps from zero, in `[0, 2^32)`.
    open spec fn view(&self) -> int {
        self.inner as int
    }
}

impl Torus {
    /// Builds the point `inner / 2^32` from its raw encoding.
    pub fn new(inner: u32) -> (r: Torus)
        ensures
            r.inner == inner,
    {
        Torus { inner }
    }

    /// `+1` on the half circle `[0, 0.5)`, `-1` on `[0.5, 1)`.
    pub fn sign(&self) -> (r: i32)
        ensures
            r == (if self@ < half() { 1i32 } else { -1i32 }),
    {
        if self.inner < 0x8000_0000 {
            1
        } else {
            -1
        }
    }

    /// The point `0`, neutral for addition.
    pub fn zero() -> (r: Torus)
        ensures
            r@ == 0,
    {
        Torus { inner: 0 }
    }

    /// Whether this is the point `0`.
    pub fn is_zero(&self) -> (r: bool)
        ensures
            r == (self@ == 0),
    {
        self.inner == 0
    }
}

/// The point `(a + b) mod 1`, as a raw value.
pub open spec fn add_raw(a: int, b: int) -> int {
    (a + b) % modulus()
}

/// The point `(a - b) mod 1`, as a raw value.
pub open spec fn sub_raw(a: int, b: int) -> int {
    (a - b) % modulus()
}

/// The point `-a mod 1`, as a raw value.
pub open spec fn neg_raw(a: int) -> int {
    (-a) % modulus()
}

/// The point `k * a mod 1`, as a raw value.
pub open spec fn scale_raw(a: int, k: int) -> int {
    (a * k) % modulus()
}

/// Addition is commutative.
pub proof fn lemma_add_commutative(a: Torus, b: Torus)
    ensures
        add_raw(a@, b@) == add_raw(b@, a@),
{
}

/// Addition is associative.
pub proof fn lemma_add_associative(a: Torus, b: Torus, c: Torus)
    ensures
        add_raw(add_raw(a@, b@), c@) == add_raw(a@, add_raw(b@, c@)),
{
    lemma_add_mod_noop(a@ + b@, c@, modulus());
    lemma_add_mod_noop(a@, b@ + c@, modulus());
    lemma_mod_twice(a@ + b@, modulus());
    lemma_mod_twice(b@ + c@, modulus());
    lemma_add_mod_noop(a@, b@, modulus());
    lemma_add_mod_noop(b@, c@, modulus());
    lemma_small_mod(a@ as nat, modulus() as nat);
    lemma_small_mod(c@ as nat, modulus() as nat);
}

/// `0` is neutral for addition.
pub proof fn lemma_add_zero(a: Torus)
    ensures
        add_raw(a@, 0) == a@,
{
}

/// Every point added to its negation gives `0`.
pub proof fn lemma_add_neg(t: Torus)
    ensures
        add_raw(t@, neg_raw(t@)) == 0,
{
}

/// Subtraction is addition of the negation.
pub proof fn lemma_sub_is_add_neg(a: Torus, b: Torus)
    ensures
        sub_raw(a@, b@) == add_raw(a@, neg_raw(b@)),
{
}

/// Multiplying by `k + 1` adds one more copy of the point: multiplication by
/// an integer is repeated addition.
pub proof fn lemma_mul_step(a: Torus, k: int)
    ensures
        scale_raw(a@, k + 1) == add_raw(scale_raw(a@, k), a@),
{
    assert(a@ * (k + 1) == a@ * k + a@) by (nonlinear_arith);
    lemma_add_mod_noop(a@ * k, a@, modulus());
    lemma_small_mod(a@ as nat, modulus() as nat);
    lemma_mod_twice(a@ * k, modulus());
}

impl vstd::std_specs::ops::AddSpecImpl for Torus {
    open spec fn obeys_add_spec() -> bool {
        true
    }

    open spec fn add_req(self, rhs: Torus) -> bool {
        true
    }

    open spec fn add_spec(self, rhs: Torus) -> Torus {
        Torus { inner: add_raw(self@, rhs@) as u32 }
    }
}

impl std::ops::Add for Torus {
    type Output = Torus;

    /// Addition on the circle: the raw values add modulo `2^32`.
    fn add(self, other: Torus) -> (r: Torus)
        ensures
            r@ == add_raw(self@, other@),
    {
        Torus { inner: self.inner.wrapping_add(other.inner) }
    }
}

impl vstd::std_specs::ops::SubSpecImpl for Torus {
    open spec fn obeys_sub_spec() -> bool {
        true
    }

    open spec fn sub_req(self, rhs: Torus) -> bool {
        true
    }

    open spec fn sub_spec(self, rhs: Torus) -> Torus {
        Torus { inner: sub_raw(self@, rhs@) as u32 }
    }
}

impl std::ops::Sub for Torus {
    type Output = Torus;

    /// Subtraction on the circle: the raw values subtract modulo `2^32`.
    fn sub(self, other: Torus) -> (r: Torus)
        ensures
            r@ == sub_raw(self@, other@),
    {
        Torus { inner: self.inner.wrapping_sub(other.inner) }
    }
}

impl vstd::std_specs::ops::NegSpecImpl for Torus {
    open spec fn obeys_neg_spec() -> bool {
        true
    }

    open spec fn neg_req(self) -> bool {
        true
    }

    open spec fn neg_spec(self) -> Torus {
        Torus { inner: neg_raw(self@) as u32 }
    }
}

impl std::ops::Neg for Torus {
    type Output = Torus;

    /// The additive inverse: `2^32 - inner`, and `0` for `0`.
    fn neg(self) -> (r: Torus)
        ensures
            r@ == neg_raw(self@),
    {
        Torus { inner: 0u32.wrapping_sub(self.inner) }
    }
}

impl vstd::std_specs::ops::MulSpecImpl<i32> for Torus {
    open spec fn obeys_mul_spec() -> bool {
        true
    }

    open spec fn mul_req(self, rhs: i32) -> bool {
        true
    }

    open spec fn mul_spec(self, rhs: i32) -> Torus {
        Torus { inner: scale_raw(self@, rhs as int) as u32 }
    }
}

impl std::ops::Mul<i32> for Torus {
    type Output = Torus;

    /// Multiplication by an integer, which may be negative: the raw value
    /// times `k`, modulo `2^32`.
    fn mul(self, k: i32) -> (r: Torus)
        ensures
            r@ == scale_raw(self@, k as int),
    {
        let factor: u32 = if k >= 0 {
            k as u32
        } else {
            (0x1_0000_0000i64 + k as i64) as u32
        };
        proof {
            assert(factor as int == (k as int) % modulus());
            lemma_mul_mod_noop_right(self@, k as int, modulus());
        }
        Torus { inner: self.inner.wrapping_mul(factor) }
    }
}

impl vstd::std_specs::ops::MulSpecImpl<Torus> for i32 {
    open spec fn obeys_mul_spec() -> bool {
        true
    }

    open spec fn mul_req(self, rhs: Torus) -> bool {
        true
    }

    open spec fn mul_spec(self, rhs: Torus) -> Torus {
        Torus { inner: scale_raw(rhs@, self as int) as u32 }
    }
}

impl std::ops::Mul<Torus> for i32 {
    type Output = Torus;

    /// `k * t`, the same point as `t * k`.
    fn mul(self, t: Torus) -> (r: Torus)
        ensures
            r@ == scale_raw(t@, self as int),
    {
        t * self
    }
}

impl std::ops::AddAssign for Torus {
    /// `t += u` sets `t` to `t + u`.
    fn add_assign(&mut self, other: Torus)
        ensures
            final(self)@ == add_raw(old(self)@, other@),
    {
        *self = *self + other;
    }
}

impl std::ops::SubAssign for Torus {
    /// `t -= u` sets `t` to `t - u`.
    fn sub_assign(&mut self, other: Torus)
        ensures
            final(self)@ == sub_raw(old(self)@, other@),
    {
        *self = *self - other;
    }
}

impl std::ops::MulAssign<i32> for Torus {
    /// `t *= k` sets `t` to `t * k`.
    fn mul_assign(&mut self, k: i32)
        ensures
            final(self)@ == scale_raw(old(self)@, k as int),
    {
        *self = *self * k;
    }
}

} // verus!
