//! Numeric vectors of fixed dimension with component-wise arithmetic,
//! dot product, magnitude, normalization and distance, over exact 64-bit
//! integer scalars.

use vstd::prelude::*;

pub mod geometry;
pub mod utils;

verus! {

use vstd::arithmetic::div_mod::{
    lemma_div_pos_is_pos,
    lemma_div_nonincreasing,
    lemma_div_is_ordered,
    lemma_div_is_ordered_by_denominator,
};

/// An ordered tuple of numeric components. The dimension is fixed at
/// construction: every operation either preserves it or requires operands
/// of matching dimension.
pub struct Vector {
    pub coords: Vec<i64>,
}

impl View for Vector {
    type V = Seq<i64>;

    open spec fn view(&self) -> Seq<i64> {
        self.coords@
    }
}

/// The dot product of the first `n` components of `a` and `b`.
pub open spec fn dot_upto(a: Seq<i64>, b: Seq<i64>, n: int) -> int
    decreases n,
{
    if n <= 0 {
        0
    } else {
        dot_upto(a, b, n - 1) + a[n - 1] * b[n - 1]
    }
}

/// The dot product of two equal-dimension vectors.
pub open spec fn spec_dot(a: Seq<i64>, b: Seq<i64>) -> int {
    dot_upto(a, b, a.len() as int)
}

/// The integer square root: the greatest `r` with `r * r <= n` (0 for
/// negative `n`, where no square root exists).
pub open spec fn spec_isqrt(n: int) -> int
    decreases n,
{
    if n <= 0 {
        0
    } else {
        let r = spec_isqrt(n - 1);
        if (r + 1) * (r + 1) <= n {
            r + 1
        } else {
            r
        }
    }
}

/// The integer square root is nonnegative, and `n` lies between its square
/// and the next square.
pub proof fn lemma_isqrt_bounds(n: int)
    requires
        n >= 0,
    ensures
        spec_isqrt(n) >= 0,
        spec_isqrt(n) * spec_isqrt(n) <= n,
        n < (spec_isqrt(n) + 1) * (spec_isqrt(n) + 1),
    decreases n,
{
    if n > 0 {
        lemma_isqrt_bounds(n - 1);
        let r = spec_isqrt(n - 1);
        if (r + 1) * (r + 1) <= n {
            assert(n - 1 < (r + 1) * (r + 1));
            assert((r + 2) * (r + 2) > (r + 1) * (r + 1)) by (nonlinear_arith)
                requires
                    r >= 0,
            ;
        }
    }
}

/// Any nonnegative `s` whose square brackets `n` is `spec_isqrt(n)`.
pub proof fn lemma_isqrt_unique(n: int, s: int)
    requires
        n >= 0,
        s >= 0,
        s * s <= n,
        n < (s + 1) * (s + 1),
    ensures
        s == spec_isqrt(n),
{
    lemma_isqrt_bounds(n);
    let r = spec_isqrt(n);
    if s < r {
        assert((s + 1) * (s + 1) <= r * r) by (nonlinear_arith)
            requires
                0 <= s,
                s + 1 <= r,
        ;
    }
    if r < s {
        assert((r + 1) * (r + 1) <= s * s) by (nonlinear_arith)
            requires
                0 <= r,
                r + 1 <= s,
        ;
    }
}

/// The integer square root of a 64-bit value, by bisection.
fn isqrt64(n: u64) -> (r: u64)
    ensures
        r == spec_isqrt(n as int),
{
    let mut lo: u64 = 0;
    let mut hi: u64 = 0x1_0000_0000;
    while lo + 1 < hi
        invariant
            lo < hi,
            hi <= 0x1_0000_0000,
            lo * lo <= n,
            n < hi * hi,
        decreases hi - lo,
    {
        let mid = lo + (hi - lo) / 2;
        assert(lo < mid < hi);
        assert(mid * mid <= 0xffff_ffffu64 * 0xffff_ffffu64) by (nonlinear_arith)
            requires
                0 <= mid <= 0xffff_ffffu64,
        ;
        let sq = mid * mid;
        if sq <= n {
            lo = mid;
        } else {
            hi = mid;
        }
    }
    proof {
        assert(hi == lo + 1);
        lemma_isqrt_unique(n as int, lo as int);
    }
    lo
}

/// A scalar capability: taking a square root. Magnitude, normalization and
/// distance are only available for scalar kinds that implement it.
pub trait Root: Sized {
    /// When a root can be taken of `self`.
    spec fn root_pre(&self) -> bool;

    /// The value `root` returns.
    spec fn root_val(&self) -> Self;

    /// The square root of `self`.
    fn root(&self) -> (r: Self)
        requires
            self.root_pre(),
        ensures
            r == self.root_val(),
    ;
}

impl Root for i64 {
    open spec fn root_pre(&self) -> bool {
        *self >= 0
    }

    open spec fn root_val(&self) -> i64 {
        spec_isqrt(*self as int) as i64
    }

    /// The integer square root: exact where `self` is a perfect square,
    /// rounded down otherwise.
    fn root(&self) -> (r: i64) {
        let r = isqrt64(*self as u64);
        proof {
            lemma_isqrt_bounds(*self as int);
            assert(spec_isqrt(*self as int) <= 0xffff_ffff) by {
                if spec_isqrt(*self as int) > 0xffff_ffff {
                    assert(spec_isqrt(*self as int) * spec_isqrt(*self as int)
                        > 0xffff_ffffint * 0xffff_ffffint) by (nonlinear_arith)
                        requires
                            spec_isqrt(*self as int) > 0xffff_ffff,
                    ;
                }
            }
        }
        r as i64
    }
}

impl Vector {
    /// Builds a vector from its components, in index order.
    pub fn new(coords: Vec<i64>) -> (r: Vector)
        ensures
            r@ == coords@,
    {
        Vector { coords }
    }

    /// The dot product: the sum over all indices of the products of the
    /// components at that index.
    pub fn dot(&self, rhs: &Vector) -> (r: i64)
        requires
            self@.len() == rhs@.len(),
            forall|k: int|
                0 <= k < self@.len() ==> i64::MIN <= #[trigger] (self@[k] * rhs@[k]) <= i64::MAX,
            forall|n: int|
                0 <= n <= self@.len() ==> i64::MIN <= #[trigger] dot_upto(self@, rhs@, n)
                    <= i64::MAX,
        ensures
            r == spec_dot(self@, rhs@),
    {
        let mut result: i64 = 0;
        let n = self.coords.len();
        let mut i: usize = 0;
        while i < n
            invariant
                n == self@.len(),
                self@.len() == rhs@.len(),
                i <= n,
                result == dot_upto(self@, rhs@, i as int),
                forall|k: int|
                    0 <= k < self@.len() ==> i64::MIN <= #[trigger] (self@[k] * rhs@[k])
                        <= i64::MAX,
                forall|m: int|
                    0 <= m <= self@.len() ==> i64::MIN <= #[trigger] dot_upto(self@, rhs@, m)
                        <= i64::MAX,
            decreases n - i,
        {
            assert(dot_upto(self@, rhs@, i + 1) == dot_upto(self@, rhs@, i as int)
                + self@[i as int] * rhs@[i as int]);
            result = result + self.coords[i] * rhs.coords[i];
            i = i + 1;
        }
        result
    }

    /// Component-wise addition.
    pub fn add(&self, rhs: &Vector) -> (r: Vector)
        requires
            self@.len() == rhs@.len(),
            forall|k: int|
                0 <= k < self@.len() ==> i64::MIN <= #[trigger] (self@[k] + rhs@[k]) <= i64::MAX,
        ensures
            r@.len() == self@.len(),
            forall|k: int| 0 <= k < self@.len() ==> #[trigger] r@[k] == self@[k] + rhs@[k],
    {
        let mut coords: Vec<i64> = Vec::new();
        let n = self.coords.len();
        let mut i: usize = 0;
        while i < n
            invariant
                n == self@.len(),
                self@.len() == rhs@.len(),
                i <= n,
                coords@.len() == i,
                forall|k: int| 0 <= k < i ==> #[trigger] coords@[k] == self@[k] + rhs@[k],
                forall|k: int|
                    0 <= k < self@.len() ==> i64::MIN <= #[trigger] (self@[k] + rhs@[k])
                        <= i64::MAX,
            decreases n - i,
        {
            coords.push(self.coords[i] + rhs.coords[i]);
            i = i + 1;
        }
        Vector { coords }
    }

    /// Component-wise subtraction.
    pub fn sub(&self, rhs: &Vector) -> (r: Vector)
        requires
            self@.len() == rhs@.len(),
            forall|k: int|
                0 <= k < self@.len() ==> i64::MIN <= #[trigger] (self@[k] - rhs@[k]) <= i64::MAX,
        ensures
            r@.len() == self@.len(),
            forall|k: int| 0 <= k < self@.len() ==> #[trigger] r@[k] == self@[k] - rhs@[k],
    {
        let mut coords: Vec<i64> = Vec::new();
        let n = self.coords.len();
        let mut i: usize = 0;
        while i < n
            invariant
                n == self@.len(),
                self@.len() == rhs@.len(),
                i <= n,
                coords@.len() == i,
                forall|k: int| 0 <= k < i ==> #[trigger] coords@[k] == self@[k] - rhs@[k],
                forall|k: int|
                    0 <= k < self@.len() ==> i64::MIN <= #[trigger] (self@[k] - rhs@[k])
                        <= i64::MAX,
            decreases n - i,
        {
            coords.push(self.coords[i] - rhs.coords[i]);
            i = i + 1;
        }
        Vector { coords }
    }

    /// Component-wise multiplication.
    pub fn mul(&self, rhs: &Vector) -> (r: Vector)
        requires
            self@.len() == rhs@.len(),
            forall|k: int|
                0 <= k < self@.len() ==> i64::MIN <= #[trigger] (self@[k] * rhs@[k]) <= i64::MAX,
        ensures
            r@.len() == self@.len(),
            forall|k: int| 0 <= k < self@.len() ==> #[trigger] r@[k] == self@[k] * rhs@[k],
    {
        let mut coords: Vec<i64> = Vec::new();
        let n = self.coords.len();
        let mut i: usize = 0;
        while i < n
            invariant
                n == self@.len(),
                self@.len() == rhs@.len(),
                i <= n,
                coords@.len() == i,
                forall|k: int| 0 <= k < i ==> #[trigger] coords@[k] == self@[k] * rhs@[k],
                forall|k: int|
                    0 <= k < self@.len() ==> i64::MIN <= #[trigger] (self@[k] * rhs@[k])
                        <= i64::MAX,
            decreases n - i,
        {
            coords.push(self.coords[i] * rhs.coords[i]);
            i = i + 1;
        }
        Vector { coords }
    }

    /// Component-wise division, truncating toward zero. Division by a zero
    /// component is an arithmetic fault in the source scalar kind and is
    /// excluded here, as is the one quotient that cannot be represented.
    pub fn div(&self, rhs: &Vector) -> (r: Vector)
        requires
            self@.len() == rhs@.len(),
            forall|k: int| 0 <= k < self@.len() ==> #[trigger] rhs@[k] != 0,
            forall|k: int|
                0 <= k < self@.len() ==> !(#[trigger] self@[k] == i64::MIN && rhs@[k] == -1),
        ensures
            r@.len() == self@.len(),
            forall|k: int|
                0 <= k < self@.len() ==> #[trigger] r@[k] == div_trunc(
                    self@[k] as int,
                    rhs@[k] as int,
                ),
    {
        let mut coords: Vec<i64> = Vec::new();
        let n = self.coords.len();
        let mut i: usize = 0;
        while i < n
            invariant
                n == self@.len(),
                self@.len() == rhs@.len(),
                i <= n,
                coords@.len() == i,
                forall|k: int|
                    0 <= k < i ==> #[trigger] coords@[k] == div_trunc(
                        self@[k] as int,
                        rhs@[k] as int,
                    ),
                forall|k: int| 0 <= k < self@.len() ==> #[trigger] rhs@[k] != 0,
                forall|k: int|
                    0 <= k < self@.len() ==> !(#[trigger] self@[k] == i64::MIN && rhs@[k] == -1),
            decreases n - i,
        {
            proof {
                lemma_div_trunc_range(self@[i as int] as int, rhs@[i as int] as int);
            }
            let q = self.coords[i].checked_div(rhs.coords[i]).unwrap();
            coords.push(q);
            i = i + 1;
        }
        Vector { coords }
    }

    /// The magnitude: the square root of the sum of the squared components.
    pub fn magnitude(&self) -> (r: i64)
        requires
            forall|k: int| 0 <= k < self@.len() ==> #[trigger] (self@[k] * self@[k]) <= i64::MAX,
            forall|n: int|
                0 <= n <= self@.len() ==> #[trigger] dot_upto(self@, self@, n) <= i64::MAX,
        ensures
            r >= 0,
            r == spec_isqrt(spec_dot(self@, self@)),
    {
        let mut result: i64 = 0;
        let n = self.coords.len();
        let mut i: usize = 0;
        while i < n
            invariant
                n == self@.len(),
                i <= n,
                result == dot_upto(self@, self@, i as int),
                result >= 0,
                forall|k: int|
                    0 <= k < self@.len() ==> #[trigger] (self@[k] * self@[k]) <= i64::MAX,
                forall|m: int|
                    0 <= m <= self@.len() ==> #[trigger] dot_upto(self@, self@, m) <= i64::MAX,
            decreases n - i,
        {
            let c = self.coords[i];
            proof {
                assert(c * c >= 0) by (nonlinear_arith);
                lemma_sum_sq_nonneg(self@, i + 1);
                assert(dot_upto(self@, self@, i + 1) == dot_upto(self@, self@, i as int) + c * c);
            }
            result = result + c * c;
            i = i + 1;
        }
        proof {
            lemma_isqrt_le(result as int);
        }
        result.root()
    }

    /// The vector scaled to unit length: each component divided by the
    /// magnitude. A zero magnitude would divide by zero and is excluded.
    pub fn normalized(&self) -> (r: Vector)
        requires
            forall|k: int| 0 <= k < self@.len() ==> #[trigger] (self@[k] * self@[k]) <= i64::MAX,
            forall|n: int|
                0 <= n <= self@.len() ==> #[trigger] dot_upto(self@, self@, n) <= i64::MAX,
            spec_isqrt(spec_dot(self@, self@)) != 0,
        ensures
            r@.len() == self@.len(),
            forall|k: int|
                0 <= k < self@.len() ==> #[trigger] r@[k] == div_trunc(
                    self@[k] as int,
                    spec_isqrt(spec_dot(self@, self@)),
                ),
    {
        let mag = self.magnitude();
        let mut coords: Vec<i64> = Vec::new();
        let n = self.coords.len();
        let mut i: usize = 0;
        while i < n
            invariant
                n == self@.len(),
                i <= n,
                coords@.len() == i,
                mag == spec_isqrt(spec_dot(self@, self@)),
                mag > 0,
                forall|k: int|
                    0 <= k < i ==> #[trigger] coords@[k] == div_trunc(self@[k] as int, mag as int),
            decreases n - i,
        {
            proof {
                lemma_div_trunc_range(self@[i as int] as int, mag as int);
            }
            let q = self.coords[i].checked_div(mag).unwrap();
            coords.push(q);
            i = i + 1;
        }
        Vector { coords }
    }

    /// The distance between two vectors: the magnitude of their difference.
    pub fn distance(&self, rhs: &Vector) -> (r: i64)
        requires
            self@.len() == rhs@.len(),
            forall|k: int|
                0 <= k < self@.len() ==> i64::MIN <= #[trigger] (self@[k] - rhs@[k]) <= i64::MAX,
            forall|k: int|
                0 <= k < self@.len() ==> (#[trigger] (self@[k] - rhs@[k])) * (self@[k] - rhs@[k])
                    <= i64::MAX,
            forall|n: int|
                0 <= n <= self@.len() ==> #[trigger] dist_sq_upto(self@, rhs@, n) <= i64::MAX,
        ensures
            r >= 0,
            r == spec_isqrt(spec_dist_sq(self@, rhs@)),
            self@ == rhs@ ==> r == 0,
    {
        let diff = self.sub(rhs);
        proof {
            assert forall|n: int| 0 <= n <= diff@.len() implies #[trigger] dot_upto(
                diff@,
                diff@,
                n,
            ) <= i64::MAX by {
                lemma_dist_sq_as_dot(self@, rhs@, diff@, n);
            }
            assert forall|k: int| 0 <= k < diff@.len() implies #[trigger] (diff@[k] * diff@[k])
                <= i64::MAX by {
                assert(diff@[k] == self@[k] - rhs@[k]);
            }
            lemma_dist_sq_as_dot(self@, rhs@, diff@, diff@.len() as int);
            if self@ == rhs@ {
                lemma_dist_sq_self(self@, self@.len() as int);
            }
        }
        diff.magnitude()
    }
}

/// The squared distance between the first `n` components of `a` and `b`:
/// the sum of the squared component differences.
pub open spec fn dist_sq_upto(a: Seq<i64>, b: Seq<i64>, n: int) -> int
    decreases n,
{
    if n <= 0 {
        0
    } else {
        dist_sq_upto(a, b, n - 1) + (a[n - 1] - b[n - 1]) * (a[n - 1] - b[n - 1])
    }
}

/// The squared distance between two equal-dimension vectors.
pub open spec fn spec_dist_sq(a: Seq<i64>, b: Seq<i64>) -> int {
    dist_sq_upto(a, b, a.len() as int)
}

/// Truncating integer division, the quotient rounded toward zero: the
/// division the component-wise `div` and `normalized` perform.
pub open spec fn div_trunc(x: int, d: int) -> int {
    if x == 0 {
        0
    } else if x > 0 && d > 0 {
        x / d
    } else if x < 0 && d < 0 {
        (x * -1) / (d * -1)
    } else if x < 0 {
        ((x * -1) / d) * -1
    } else {
        (x / (d * -1)) * -1
    }
}

/// A sum of squares is nonnegative.
pub proof fn lemma_sum_sq_nonneg(a: Seq<i64>, n: int)
    ensures
        dot_upto(a, a, n) >= 0,
    decreases n,
{
    if n > 0 {
        lemma_sum_sq_nonneg(a, n - 1);
        assert(a[n - 1] * a[n - 1] >= 0) by (nonlinear_arith);
    }
}

/// The squared distance of a vector from itself is zero.
pub proof fn lemma_dist_sq_self(a: Seq<i64>, n: int)
    ensures
        dist_sq_upto(a, a, n) == 0,
    decreases n,
{
    if n > 0 {
        lemma_dist_sq_self(a, n - 1);
    }
}

/// The sum of squares of the difference vector `d` of `a` and `b` is the
/// squared distance between `a` and `b`.
proof fn lemma_dist_sq_as_dot(a: Seq<i64>, b: Seq<i64>, d: Seq<i64>, n: int)
    requires
        n <= d.len(),
        forall|k: int| 0 <= k < d.len() ==> d[k] == a[k] - b[k],
    ensures
        dot_upto(d, d, n) == dist_sq_upto(a, b, n),
    decreases n,
{
    if n > 0 {
        lemma_dist_sq_as_dot(a, b, d, n - 1);
    }
}

/// The integer square root does not exceed its argument.
proof fn lemma_isqrt_le(n: int)
    requires
        n >= 0,
    ensures
        0 <= spec_isqrt(n) <= n,
{
    lemma_isqrt_bounds(n);
    let r = spec_isqrt(n);
    if r > n {
        assert(r * r >= r) by (nonlinear_arith)
            requires
                r >= 1,
        ;
    }
}

/// Truncating division by a nonzero divisor shrinks the magnitude of any
/// 64-bit dividend back into 64-bit range, except for the lone overflowing
/// pair of the least value and divisor -1.
proof fn lemma_div_trunc_range(x: int, d: int)
    requires
        i64::MIN <= x <= i64::MAX,
        i64::MIN <= d <= i64::MAX,
        d != 0,
        !(x == i64::MIN && d == -1),
    ensures
        i64::MIN <= div_trunc(x, d) <= i64::MAX,
        x >= 0 && d > 0 ==> 0 <= div_trunc(x, d) <= x,
{
    if x != 0 {
        if x > 0 && d > 0 {
            lemma_div_pos_is_pos(x, d);
            lemma_div_nonincreasing(x, d);
        } else if x < 0 && d < 0 {
            lemma_div_pos_is_pos(-x, -d);
            if d == -1 {
                lemma_div_nonincreasing(-x, 1);
            } else {
                lemma_div_is_ordered_by_denominator(-x, 2, -d);
                lemma_div_is_ordered(-x, 0x8000_0000_0000_0000, 2);
                lemma_div_nonincreasing(-x, -d);
            }
        } else if x < 0 {
            lemma_div_pos_is_pos(-x, d);
            lemma_div_nonincreasing(-x, d);
        } else {
            lemma_div_pos_is_pos(x, -d);
            lemma_div_nonincreasing(x, -d);
        }
    }
}

/// The dot product does not depend on the order of its operands.
pub proof fn lemma_dot_symmetric(a: Seq<i64>, b: Seq<i64>)
    requires
        a.len() == b.len(),
    ensures
        spec_dot(a, b) == spec_dot(b, a),
{
    lemma_dot_upto_symmetric(a, b, a.len() as int);
}

proof fn lemma_dot_upto_symmetric(a: Seq<i64>, b: Seq<i64>, n: int)
    ensures
        dot_upto(a, b, n) == dot_upto(b, a, n),
    decreases n,
{
    if n > 0 {
        lemma_dot_upto_symmetric(a, b, n - 1);
    }
}

} // verus!
