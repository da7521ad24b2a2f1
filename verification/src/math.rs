//! Vectors in the plane and the rounding division that positions rest on.
//!
//! Lengths are whole numbers of micrometres, so every sum and difference
//! of lengths is exact.

use vstd::prelude::*;
use vstd::arithmetic::div_mod::lemma_fundamental_div_mod;
use vstd::arithmetic::div_mod::lemma_mod_bound;
use vstd::arithmetic::div_mod::lemma_fundamental_div_mod_converse;

verus! {

/// Number of length units in one metre.
pub const UNITS_PER_METER: i64 = 1_000_000;

/// A displacement in the plane, in micrometres.
#[derive(Clone, Copy, Debug, PartialEq, Eq, Structural)]
pub struct V2 {
    pub x: i64,
    pub y: i64,
}

impl V2 {
    /// The vector with the given components.
    pub fn new(x: i64, y: i64) -> (v: V2)
        ensures
            v == (V2 { x, y }),
    {
        V2 { x, y }
    }

    /// The vector of no displacement.
    pub fn zero() -> (v: V2)
        ensures
            v == (V2 { x: 0, y: 0 }),
    {
        V2 { x: 0, y: 0 }
    }
}

impl Default for V2 {
    fn default() -> (v: V2)
        ensures
            v == (V2 { x: 0, y: 0 }),
    {
        V2 { x: 0, y: 0 }
    }
}

impl vstd::std_specs::ops::AddSpecImpl<V2> for V2 {
    open spec fn obeys_add_spec() -> bool {
        true
    }

    open spec fn add_req(self, rhs: V2) -> bool {
        &&& i64::MIN <= self.x + rhs.x <= i64::MAX
        &&& i64::MIN <= self.y + rhs.y <= i64::MAX
    }

    open spec fn add_spec(self, rhs: V2) -> V2 {
        V2 { x: (self.x + rhs.x) as i64, y: (self.y + rhs.y) as i64 }
    }
}

impl core::ops::Add<V2> for V2 {
    type Output = V2;

    fn add(self, rhs: V2) -> V2 {
        V2 { x: self.x + rhs.x, y: self.y + rhs.y }
    }
}

impl vstd::std_specs::ops::SubSpecImpl<V2> for V2 {
    open spec fn obeys_sub_spec() -> bool {
        true
    }

    open spec fn sub_req(self, rhs: V2) -> bool {
        &&& i64::MIN <= self.x - rhs.x <= i64::MAX
        &&& i64::MIN <= self.y - rhs.y <= i64::MAX
    }

    open spec fn sub_spec(self, rhs: V2) -> V2 {
        V2 { x: (self.x - rhs.x) as i64, y: (self.y - rhs.y) as i64 }
    }
}

impl core::ops::Sub<V2> for V2 {
    type Output = V2;

    fn sub(self, rhs: V2) -> V2 {
        V2 { x: self.x - rhs.x, y: self.y - rhs.y }
    }
}

impl vstd::std_specs::ops::NegSpecImpl for V2 {
    open spec fn obeys_neg_spec() -> bool {
        true
    }

    open spec fn neg_req(self) -> bool {
        self.x != i64::MIN && self.y != i64::MIN
    }

    open spec fn neg_spec(self) -> V2 {
        V2 { x: (-self.x) as i64, y: (-self.y) as i64 }
    }
}

impl core::ops::Neg for V2 {
    type Output = V2;

    fn neg(self) -> V2 {
        V2 { x: -self.x, y: -self.y }
    }
}

impl vstd::std_specs::ops::MulSpecImpl<i64> for V2 {
    open spec fn obeys_mul_spec() -> bool {
        true
    }

    open spec fn mul_req(self, rhs: i64) -> bool {
        &&& i64::MIN <= self.x * rhs <= i64::MAX
        &&& i64::MIN <= self.y * rhs <= i64::MAX
    }

    open spec fn mul_spec(self, rhs: i64) -> V2 {
        V2 { x: (self.x * rhs) as i64, y: (self.y * rhs) as i64 }
    }
}

impl core::ops::Mul<i64> for V2 {
    type Output = V2;

    fn mul(self, rhs: i64) -> V2 {
        V2 { x: self.x * rhs, y: self.y * rhs }
    }
}

impl vstd::std_specs::ops::MulSpecImpl<V2> for i64 {
    open spec fn obeys_mul_spec() -> bool {
        true
    }

    open spec fn mul_req(self, rhs: V2) -> bool {
        &&& i64::MIN <= rhs.x * self <= i64::MAX
        &&& i64::MIN <= rhs.y * self <= i64::MAX
    }

    open spec fn mul_spec(self, rhs: V2) -> V2 {
        V2 { x: (rhs.x * self) as i64, y: (rhs.y * self) as i64 }
    }
}

impl core::ops::Mul<V2> for i64 {
    type Output = V2;

    fn mul(self, rhs: V2) -> V2 {
        rhs * self
    }
}

impl vstd::std_specs::ops::MulSpecImpl<V2> for V2 {
    open spec fn obeys_mul_spec() -> bool {
        true
    }

    open spec fn mul_req(self, rhs: V2) -> bool {
        &&& i64::MIN <= self.x * rhs.x <= i64::MAX
        &&& i64::MIN <= self.y * rhs.y <= i64::MAX
        &&& i64::MIN <= self.x * rhs.x + self.y * rhs.y <= i64::MAX
    }

    open spec fn mul_spec(self, rhs: V2) -> i64 {
        (self.x * rhs.x + self.y * rhs.y) as i64
    }
}

impl core::ops::Mul<V2> for V2 {
    type Output = i64;

    fn mul(self, rhs: V2) -> i64 {
        self.x * rhs.x + self.y * rhs.y
    }
}

/// `n / d` rounded to the nearest whole number, a half rounded away from
/// zero.
pub open spec fn round_div(n: int, d: int) -> int
    recommends
        d > 0,
{
    if n >= 0 {
        (2 * n + d) / (2 * d)
    } else {
        -((d - 2 * n) / (2 * d))
    }
}

/// Whether `q` is `n / d` rounded to the nearest whole number, a half
/// rounded away from zero: `q * d` is within half of `d` of `n`, and where
/// it is exactly half of `d` away, it lies on the far side from zero.
pub open spec fn is_rounded_quotient(n: int, d: int, q: int) -> bool {
    let r = n - q * d;
    &&& -d <= 2 * r <= d
    &&& 2 * r == d ==> n < 0
    &&& 2 * r == -d ==> n > 0
}

/// Division with remainder by a positive number.
pub proof fn lemma_div_mod(x: int, m: int)
    requires
        m > 0,
    ensures
        x == (x / m) * m + x % m,
        0 <= x % m < m,
{
    lemma_fundamental_div_mod(x, m);
    lemma_mod_bound(x, m);
    assert(m * (x / m) == (x / m) * m) by (nonlinear_arith);
}

/// `round_div` is the rounded quotient.
pub proof fn lemma_round_div(n: int, d: int)
    requires
        d > 0,
    ensures
        is_rounded_quotient(n, d, round_div(n, d)),
{
    if n >= 0 {
        let x = 2 * n + d;
        lemma_div_mod(x, 2 * d);
        let q = x / (2 * d);
        assert(q * (2 * d) == 2 * (q * d)) by (nonlinear_arith);
        if n == 0 {
            vstd::arithmetic::div_mod::lemma_basic_div(x, 2 * d);
            assert(0 * d == 0) by (nonlinear_arith);
        }
    } else {
        let x = d - 2 * n;
        lemma_div_mod(x, 2 * d);
        let p = x / (2 * d);
        assert(p * (2 * d) == 2 * (p * d)) by (nonlinear_arith);
        assert((-p) * d == -(p * d)) by (nonlinear_arith);
    }
}

/// There is only one rounded quotient.
pub proof fn lemma_rounded_quotient_unique(n: int, d: int, q1: int, q2: int)
    requires
        d > 0,
        is_rounded_quotient(n, d, q1),
        is_rounded_quotient(n, d, q2),
    ensures
        q1 == q2,
{
    let r1 = n - q1 * d;
    let r2 = n - q2 * d;
    assert(r1 - r2 == (q2 - q1) * d) by (nonlinear_arith)
        requires
            r1 == n - q1 * d,
            r2 == n - q2 * d,
    ;
    if q2 - q1 >= 1 {
        assert((q2 - q1) * d >= d) by (nonlinear_arith)
            requires
                q2 - q1 >= 1,
                d > 0,
        ;
    } else if q2 - q1 <= -1 {
        assert((q2 - q1) * d <= -d) by (nonlinear_arith)
            requires
                q2 - q1 <= -1,
                d > 0,
        ;
    }
}

/// A numerator within half of `d` of zero, and not exactly half of `d`
/// away from it, rounds to zero.
pub proof fn lemma_round_div_small(n: int, d: int)
    requires
        d > 0,
        -d < 2 * n < d,
    ensures
        round_div(n, d) == 0,
{
    lemma_round_div(n, d);
    assert(is_rounded_quotient(n, d, 0)) by {
        assert(0 * d == 0) by (nonlinear_arith);
    }
    lemma_rounded_quotient_unique(n, d, round_div(n, d), 0);
}

/// The whole number in `0 .. m` that differs from `x` by a multiple of `m`.
pub open spec fn wrap(x: int, m: int) -> int
    recommends
        m > 0,
{
    x % m
}

/// `n / d` rounded to the nearest whole number, a half rounded away from
/// zero.
pub fn rounded_quotient(n: i128, d: i128) -> (q: i128)
    requires
        0 < d <= 0x1_0000_0000,
        -0x1_0000_0000_0000_0000_0000 <= n <= 0x1_0000_0000_0000_0000_0000,
    ensures
        q == round_div(n as int, d as int),
        -0x2_0000_0000_0000_0000_0000 <= q <= 0x2_0000_0000_0000_0000_0000,
{
    proof {
        lemma_round_div(n as int, d as int);
        let q = round_div(n as int, d as int);
        if q > 0 {
            assert(q * d >= q) by (nonlinear_arith)
                requires
                    q > 0,
                    d >= 1,
            ;
        }
        if q < 0 {
            assert(q * d <= q) by (nonlinear_arith)
                requires
                    q < 0,
                    d >= 1,
            ;
        }
    }
    if n >= 0 {
        (2 * n + d) / (2 * d)
    } else {
        -((d - 2 * n) / (2 * d))
    }
}

/// `x` wrapped into `0 .. 2^32`.
pub fn wrap_u32(x: i128) -> (w: u32)
    requires
        -0x1_0000_0000_0000_0000_0000_0000 <= x <= 0x1_0000_0000_0000_0000_0000_0000,
    ensures
        w == wrap(x as int, 0x1_0000_0000),
{
    let m: i128 = 0x1_0000_0000;
    if x >= 0 {
        let r: i128 = x % m;
        r as u32
    } else {
        let y: i128 = -x;
        let k: i128 = y / m;
        let r: i128 = y % m;
        proof {
            lemma_div_mod(y as int, m as int);
        }
        if r == 0 {
            proof {
                assert(x == (-k) * m + 0) by (nonlinear_arith)
                    requires
                        -x == k * m + 0,
                ;
                lemma_fundamental_div_mod_converse(x as int, m as int, -k, 0);
            }
            0
        } else {
            proof {
                assert(x == (-k - 1) * m + (m - r)) by (nonlinear_arith)
                    requires
                        -x == k * m + r,
                ;
                lemma_fundamental_div_mod_converse(x as int, m as int, -k - 1, m - r);
            }
            (m - r) as u32
        }
    }
}

} // verus!
