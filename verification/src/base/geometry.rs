//! 2-D half-plane tests, polygons with cyclic vertex indexing and a
//! turning-sign self-intersection heuristic, and an indexed-face polyhedron.

use vstd::prelude::*;

verus! {

use crate::base::Vector;
use crate::base::utils::HeapArray;
use vstd::arithmetic::div_mod::{
    lemma_mod_division_less_than_divisor,
    lemma_fundamental_div_mod_converse_mod,
    lemma_mod_self_0,
    lemma_small_mod,
};

/// A line given by two endpoints; used to define a 2-D half-plane.
pub struct Line<T> {
    pub a: T,
    pub b: T,
}

impl<T> Line<T> {
    /// Builds the line through `a` and `b`, directed from `a` to `b`.
    pub fn new(a: T, b: T) -> (r: Line<T>)
        ensures
            r.a == a,
            r.b == b,
    {
        Line { a, b }
    }
}

/// The x-major lexicographic comparison of two 2-D points: 1 when `a` comes
/// after `b`, -1 when before, 0 when both components are equal.
pub open spec fn lex2(a: Seq<i64>, b: Seq<i64>) -> int {
    if a[0] > b[0] {
        1
    } else if a[0] < b[0] {
        -1
    } else if a[1] > b[1] {
        1
    } else if a[1] < b[1] {
        -1
    } else {
        0
    }
}

/// The 2-D cross product of the directed line `a` to `b` with the point `p`:
/// positive exactly when `p` lies strictly left of the line.
pub open spec fn cross2(p: Seq<i64>, a: Seq<i64>, b: Seq<i64>) -> int {
    (b[0] - a[0]) * (p[1] - a[1]) - (p[0] - a[0]) * (b[1] - a[1])
}

impl Vector {
    /// Compares two 2-D points lexicographically, x-major.
    pub fn xy_lexicographical_comp(&self, rhs: &Vector) -> (r: i8)
        requires
            self@.len() >= 2,
            rhs@.len() >= 2,
        ensures
            r == lex2(self@, rhs@),
    {
        if self.coords[0] > rhs.coords[0] {
            return 1;
        }
        if self.coords[0] < rhs.coords[0] {
            return -1;
        }
        if self.coords[1] > rhs.coords[1] {
            return 1;
        }
        if self.coords[1] < rhs.coords[1] {
            return -1;
        }
        0
    }

    /// Whether this 2-D point lies strictly to the left of the directed
    /// line from `rhs.a` to `rhs.b`: points exactly on the line are not.
    pub fn is_on_left_of(&self, rhs: &Line<Vector>) -> (r: bool)
        requires
            self@.len() >= 2,
            rhs.a@.len() >= 2,
            rhs.b@.len() >= 2,
            i64::MIN <= rhs.b@[0] - rhs.a@[0] <= i64::MAX,
            i64::MIN <= rhs.b@[1] - rhs.a@[1] <= i64::MAX,
            i64::MIN <= self@[0] - rhs.a@[0] <= i64::MAX,
            i64::MIN <= self@[1] - rhs.a@[1] <= i64::MAX,
            i64::MIN <= (rhs.b@[0] - rhs.a@[0]) * (self@[1] - rhs.a@[1]) <= i64::MAX,
            i64::MIN <= (self@[0] - rhs.a@[0]) * (rhs.b@[1] - rhs.a@[1]) <= i64::MAX,
            i64::MIN <= cross2(self@, rhs.a@, rhs.b@) <= i64::MAX,
        ensures
            r == (cross2(self@, rhs.a@, rhs.b@) > 0),
    {
        (rhs.b.coords[0] - rhs.a.coords[0]) * (self.coords[1] - rhs.a.coords[1]) - (self.coords[0]
            - rhs.a.coords[0]) * (rhs.b.coords[1] - rhs.a.coords[1]) > 0
    }
}

/// An ordered, fixed-size loop of vertices: vertex `i` connects to vertex
/// `i + 1`, and the last back to the first. Indexing is cyclic.
pub struct Polygon {
    pub vertices: Vec<Vector>,
}

impl View for Polygon {
    type V = Seq<Seq<i64>>;

    open spec fn view(&self) -> Seq<Seq<i64>> {
        self.vertices@.map_values(|v: Vector| v@)
    }
}

impl Polygon {
    /// Builds a polygon from its vertices, in loop order.
    pub fn new(vertices: Vec<Vector>) -> (r: Polygon)
        ensures
            r.vertices@ == vertices@,
    {
        Polygon { vertices }
    }

    /// The vertex named by `index` under cyclic wraparound: index
    /// arithmetic is taken modulo the vertex count, negative indices
    /// included.
    pub fn index(&self, index: i64) -> (r: &Vector)
        requires
            self@.len() >= 1,
            self@.len() <= i64::MAX,
        ensures
            *r == self.vertices@[index as int % self@.len() as int],
            r@ == self@[index as int % self@.len() as int],
    {
        let n = self.vertices.len() as i64;
        proof {
            lemma_mod_division_less_than_divisor(index as int, n as int);
        }
        let k = index.checked_rem_euclid(n).unwrap();
        &self.vertices[k as usize]
    }
}

/// Cyclic indexing wraps around: for a loop of `n` vertices, index `n`
/// names the same vertex as index 0, index -1 names the last vertex, and
/// an index already in range names itself.
pub proof fn lemma_cyclic_index(n: int)
    requires
        n >= 1,
    ensures
        n % n == 0,
        (-1int) % n == n - 1,
        forall|i: int| 0 <= i < n ==> #[trigger] (i % n) == i,
{
    lemma_mod_self_0(n);
    lemma_fundamental_div_mod_converse_mod(-1, n, -1, n - 1);
    assert forall|i: int| 0 <= i < n implies #[trigger] (i % n) == i by {
        lemma_small_mod(i as nat, n as nat);
    }
}

/// The largest coordinate magnitude the self-intersection scan accepts:
/// it keeps every turning indicator within the range of its accumulator.
pub const COORD_LIMIT: i64 = 0x8000_0000;

/// The dot product over the first `n` components of the edge vectors at
/// vertex `q`: the vector from `p` to `q` and the vector from `r` to `q`.
pub open spec fn edge_dot(p: Seq<i64>, q: Seq<i64>, r: Seq<i64>, n: int) -> int
    decreases n,
{
    if n <= 0 {
        0
    } else {
        edge_dot(p, q, r, n - 1) + (q[n - 1] - p[n - 1]) * (q[n - 1] - r[n - 1])
    }
}

/// The turning indicator at vertex `i`: the dot product of the edge
/// vectors from its two cyclic neighbours toward it. Its sign agrees with
/// the dot product of the normalized edge vectors, since normalization
/// scales by the positive edge lengths.
pub open spec fn turn_dot(vs: Seq<Seq<i64>>, i: int) -> int {
    edge_dot(
        vs[(i - 1) % vs.len() as int],
        vs[i],
        vs[(i + 1) % vs.len() as int],
        vs[i].len() as int,
    )
}

/// The tri-state sign of a turning indicator: 1 positive, -1 negative,
/// 0 for an exact-zero, indeterminate sample.
pub open spec fn sign(x: int) -> int {
    if x > 0 {
        1
    } else if x < 0 {
        -1
    } else {
        0
    }
}

/// The most recent nonzero turning sign among vertices before `i`,
/// or 0 when every one of them was indeterminate.
pub open spec fn prev_sign(vs: Seq<Seq<i64>>, i: int) -> int
    decreases i,
{
    if i <= 0 {
        0
    } else if sign(turn_dot(vs, i - 1)) != 0 {
        sign(turn_dot(vs, i - 1))
    } else {
        prev_sign(vs, i - 1)
    }
}

/// Whether some vertex before `i` has a nonzero turning sign that differs
/// from the last nonzero sign seen before it.
pub open spec fn sign_flip_within(vs: Seq<Seq<i64>>, i: int) -> bool
    decreases i,
{
    if i <= 0 {
        false
    } else {
        sign_flip_within(vs, i - 1) || (prev_sign(vs, i - 1) != 0 && sign(turn_dot(vs, i - 1))
            != 0 && sign(turn_dot(vs, i - 1)) != prev_sign(vs, i - 1))
    }
}

/// The turning-direction heuristic: a polygon of more than three vertices
/// is reported self-intersecting exactly when the sign of its turning
/// indicator flips somewhere around the loop; a triangle never is.
pub open spec fn spec_self_intersecting(vs: Seq<Seq<i64>>) -> bool {
    vs.len() > 3 && sign_flip_within(vs, vs.len() as int)
}

/// Every vertex has the dimension of the first.
pub open spec fn uniform_dim(vs: Seq<Seq<i64>>) -> bool {
    forall|i: int| 0 <= i < vs.len() ==> #[trigger] vs[i].len() == vs[0].len()
}

/// Every coordinate of every vertex is at most `bound` in magnitude.
pub open spec fn coords_bounded(vs: Seq<Seq<i64>>, bound: int) -> bool {
    forall|i: int, k: int|
        0 <= i < vs.len() && 0 <= k < vs[i].len() ==> -bound <= #[trigger] vs[i][k] <= bound
}

/// A sign flip found within a prefix of the scan stands within any longer
/// prefix.
proof fn lemma_flip_monotonic(vs: Seq<Seq<i64>>, i: int, j: int)
    requires
        i <= j,
        sign_flip_within(vs, i),
    ensures
        sign_flip_within(vs, j),
    decreases j - i,
{
    if i < j {
        lemma_flip_monotonic(vs, i, j - 1);
    }
}

/// The turning indicator at one vertex, from its two cyclic neighbours.
fn scalar_at_point(a: &Vector, b: &Vector, c: &Vector) -> (d: i128)
    requires
        a@.len() == b@.len(),
        c@.len() == b@.len(),
        b@.len() <= 0x1_0000_0000,
        forall|k: int| 0 <= k < a@.len() ==> -COORD_LIMIT <= #[trigger] a@[k] <= COORD_LIMIT,
        forall|k: int| 0 <= k < b@.len() ==> -COORD_LIMIT <= #[trigger] b@[k] <= COORD_LIMIT,
        forall|k: int| 0 <= k < c@.len() ==> -COORD_LIMIT <= #[trigger] c@[k] <= COORD_LIMIT,
    ensures
        d == edge_dot(a@, b@, c@, b@.len() as int),
{
    let mut acc: i128 = 0;
    let n = b.coords.len();
    let mut k: usize = 0;
    while k < n
        invariant
            n == b@.len(),
            a@.len() == b@.len(),
            c@.len() == b@.len(),
            n <= 0x1_0000_0000,
            k <= n,
            acc == edge_dot(a@, b@, c@, k as int),
            -(k as int) * 0x1_0000_0000_0000_0000 <= acc <= (k as int) * 0x1_0000_0000_0000_0000,
            forall|j: int| 0 <= j < a@.len() ==> -COORD_LIMIT <= #[trigger] a@[j] <= COORD_LIMIT,
            forall|j: int| 0 <= j < b@.len() ==> -COORD_LIMIT <= #[trigger] b@[j] <= COORD_LIMIT,
            forall|j: int| 0 <= j < c@.len() ==> -COORD_LIMIT <= #[trigger] c@[j] <= COORD_LIMIT,
        decreases n - k,
    {
        let da: i128 = b.coords[k] as i128 - a.coords[k] as i128;
        let dc: i128 = b.coords[k] as i128 - c.coords[k] as i128;
        proof {
            assert(-0x1_0000_0000_0000_0000 <= da * dc <= 0x1_0000_0000_0000_0000)
                by (nonlinear_arith)
                requires
                    -0x1_0000_0000 <= da <= 0x1_0000_0000,
                    -0x1_0000_0000 <= dc <= 0x1_0000_0000,
            ;
            assert(edge_dot(a@, b@, c@, k + 1) == edge_dot(a@, b@, c@, k as int) + (b@[k as int]
                - a@[k as int]) * (b@[k as int] - c@[k as int]));
        }
        acc = acc + da * dc;
        k = k + 1;
    }
    acc
}

impl Polygon {
    /// The turning-direction heuristic for self-intersection of a simple
    /// closed polygon: scan every vertex, take the sign of its turning
    /// indicator, skip exact-zero samples, and report self-intersection as
    /// soon as a nonzero sign differs from the last nonzero sign seen. A
    /// polygon of three or fewer vertices is never reported, whatever its
    /// geometry. The heuristic watches only the local bend at each vertex:
    /// it is approximate, not an edge-crossing test.
    pub fn self_intersecting(&self) -> (r: bool)
        requires
            self@.len() > 3 ==> uniform_dim(self@),
            self@.len() > 3 ==> self@[0].len() <= 0x1_0000_0000,
            self@.len() > 3 ==> coords_bounded(self@, COORD_LIMIT as int),
        ensures
            r == spec_self_intersecting(self@),
            self@.len() <= 3 ==> !r,
    {
        let n = self.vertices.len();
        if n <= 3 {
            return false;
        }
        let mut prev: i8 = 0;
        let mut i: usize = 0;
        while i < n
            invariant
                n == self@.len(),
                4 <= n,
                i <= n,
                uniform_dim(self@),
                self@[0].len() <= 0x1_0000_0000,
                coords_bounded(self@, COORD_LIMIT as int),
                prev as int == prev_sign(self@, i as int),
                !sign_flip_within(self@, i as int),
            decreases n - i,
        {
            let ip = if i == 0 {
                n - 1
            } else {
                i - 1
            };
            let inx = if i + 1 == n {
                0
            } else {
                i + 1
            };
            proof {
                lemma_cyclic_index(n as int);
                assert((i as int - 1) % n as int == ip as int);
                assert((i as int + 1) % n as int == inx as int);
                assert(self.vertices@[ip as int]@ == self@[ip as int]);
                assert(self.vertices@[i as int]@ == self@[i as int]);
                assert(self.vertices@[inx as int]@ == self@[inx as int]);
                assert(self@[ip as int].len() == self@[0].len());
                assert(self@[i as int].len() == self@[0].len());
                assert(self@[inx as int].len() == self@[0].len());
            }
            let d = scalar_at_point(&self.vertices[ip], &self.vertices[i], &self.vertices[inx]);
            let s: i8 = if d > 0 {
                1
            } else if d < 0 {
                -1
            } else {
                0
            };
            proof {
                assert(d == turn_dot(self@, i as int));
                assert(s as int == sign(turn_dot(self@, i as int)));
            }
            if prev != 0 && s != 0 && s != prev {
                proof {
                    assert(sign_flip_within(self@, i as int + 1));
                    lemma_flip_monotonic(self@, i as int + 1, n as int);
                }
                return true;
            }
            proof {
                assert(!sign_flip_within(self@, i as int + 1));
            }
            if s != 0 {
                prev = s;
            }
            i = i + 1;
        }
        false
    }
}

type PolyhedronFace = HeapArray<usize>;

/// A bare container for an indexed-face solid: vertices, plus faces given
/// as sequences of indices into the vertex list. Nothing is validated.
pub struct Polyhedron {
    pub vertices: Vec<Vector>,
    pub faces: Vec<PolyhedronFace>,
}

impl Polyhedron {
    /// Builds a polyhedron from vertices and faces, stored as given.
    pub fn new(vertices: Vec<Vector>, faces: Vec<PolyhedronFace>) -> (r: Polyhedron)
        ensures
            r.vertices@ == vertices@,
            r.faces@ == faces@,
    {
        Polyhedron { vertices, faces }
    }
}

} // verus!
