//! Grid points, paths, and the even-odd containment test.

use vstd::prelude::*;

verus! {

/// Number of grid steps in one distance unit.
pub const GRID_PER_UNIT: u32 = 100000;

/// A planar position in grid steps.
#[derive(Clone, Copy, Debug, PartialEq, Eq, Structural)]
pub struct Coords {
    pub x: i32,
    pub z: i32,
}

/// An ordered run of points joined by straight segments.
#[derive(Clone, Debug)]
pub struct ParallelLine {
    pub coords: Vec<Coords>,
}

impl View for ParallelLine {
    type V = Seq<Coords>;

    open spec fn view(&self) -> Seq<Coords> {
        self.coords@
    }
}

/// An ordered collection of paths.
#[derive(Clone, Debug)]
pub struct ParallelLines {
    pub parallel_lines: Vec<ParallelLine>,
}

/// The point sequences of a list of paths, in order.
pub open spec fn paths_of(lines: Seq<ParallelLine>) -> Seq<Seq<Coords>> {
    Seq::new(lines.len(), |i: int| lines[i]@)
}

impl View for ParallelLines {
    type V = Seq<Seq<Coords>>;

    open spec fn view(&self) -> Seq<Seq<Coords>> {
        paths_of(self.parallel_lines@)
    }
}

impl ParallelLine {
    /// A path with the same points.
    pub fn duplicate(&self) -> (copy: ParallelLine)
        ensures
            copy@ == self@,
    {
        let mut points: Vec<Coords> = Vec::new();
        let mut i: usize = 0;
        while i < self.coords.len()
            invariant
                i <= self.coords.len(),
                points@ == self.coords@.take(i as int),
            decreases self.coords.len() - i,
        {
            points.push(self.coords[i]);
            assert(self.coords@.take(i + 1) =~= self.coords@.take(i as int).push(self.coords@[i as int]));
            i += 1;
        }
        assert(self.coords@.take(i as int) =~= self.coords@);
        ParallelLine { coords: points }
    }
}

/// Appends copies of the paths of `more` to `lines`, in order.
pub fn append_lines(lines: &mut Vec<ParallelLine>, more: &Vec<ParallelLine>)
    ensures
        paths_of(final(lines)@) == paths_of(old(lines)@) + paths_of(more@),
{
    let mut i: usize = 0;
    assert(paths_of(lines@) =~= paths_of(old(lines)@) + paths_of(more@.take(0)));
    while i < more.len()
        invariant
            i <= more.len(),
            paths_of(lines@) == paths_of(old(lines)@) + paths_of(more@.take(i as int)),
        decreases more.len() - i,
    {
        let ghost before = paths_of(lines@);
        let copy = more[i].duplicate();
        lines.push(copy);
        assert(paths_of(lines@) =~= before.push(more@[i as int]@));
        assert(paths_of(more@.take(i + 1)) =~= paths_of(more@.take(i as int)).push(more@[i as int]@));
        assert(paths_of(lines@) =~= paths_of(old(lines)@) + paths_of(more@.take(i + 1)));
        i += 1;
    }
    assert(more@.take(i as int) =~= more@);
}

/// Number of distinct vertices of a boundary: a stored last point that
/// repeats the first one is not counted.
pub open spec fn ring_len(polygon: Seq<Coords>) -> int {
    if polygon.len() > 0 && polygon.first() == polygon.last() {
        polygon.len() - 1
    } else {
        polygon.len() as int
    }
}

/// Index of the vertex that follows vertex `i` on a ring of `n` vertices.
pub open spec fn ring_next(i: int, n: int) -> int {
    if i + 1 == n {
        0
    } else {
        i + 1
    }
}

/// Whether the ray from `p` towards growing x meets the edge from `a` to
/// `b`. The edge counts for `p.z` from its lower end (inclusive) up to its
/// upper end (exclusive); the comparison of `p.x` with the edge's x at
/// height `p.z` is exact, written without division.
pub open spec fn edge_crosses(p: Coords, a: Coords, b: Coords) -> bool {
    &&& (a.z > p.z) != (b.z > p.z)
    &&& if b.z > a.z {
        (p.x - a.x) * (b.z - a.z) < (b.x - a.x) * (p.z - a.z)
    } else {
        (p.x - a.x) * (b.z - a.z) > (b.x - a.x) * (p.z - a.z)
    }
}

/// Number of edges among the first `k` of the ring made of the first `n`
/// points of `polygon` that the ray from `p` meets.
pub open spec fn crossings(p: Coords, polygon: Seq<Coords>, n: int, k: int) -> nat
    decreases k,
{
    if k <= 0 {
        0
    } else {
        let rest = crossings(p, polygon, n, k - 1);
        if edge_crosses(p, polygon[k - 1], polygon[ring_next(k - 1, n)]) {
            rest + 1
        } else {
            rest
        }
    }
}

/// Even-odd containment: `p` is inside when the boundary has at least three
/// stored points and the ray from `p` meets an odd number of its edges.
pub open spec fn inside(p: Coords, polygon: Seq<Coords>) -> bool {
    polygon.len() >= 3 && crossings(p, polygon, ring_len(polygon), ring_len(polygon)) % 2 == 1
}

/// An edge meets the ray whichever of its ends is named first.
pub proof fn lemma_edge_crosses_symmetric(p: Coords, a: Coords, b: Coords)
    ensures
        edge_crosses(p, a, b) == edge_crosses(p, b, a),
{
    let px = p.x as int;
    let pz = p.z as int;
    let ax = a.x as int;
    let az = a.z as int;
    let bx = b.x as int;
    let bz = b.z as int;
    let forth = (px - ax) * (bz - az) - (bx - ax) * (pz - az);
    let back = (px - bx) * (az - bz) - (ax - bx) * (pz - bz);
    assert(forth == -back) by (nonlinear_arith)
        requires
            forth == (px - ax) * (bz - az) - (bx - ax) * (pz - az),
            back == (px - bx) * (az - bz) - (ax - bx) * (pz - bz),
    ;
}

/// The crossings counted on two rings agree as far as the rings' edges do.
pub proof fn lemma_crossings_agree(
    p: Coords,
    first: Seq<Coords>,
    n: int,
    second: Seq<Coords>,
    m: int,
    k: int,
)
    requires
        forall|i: int|
            0 <= i < k ==> #[trigger] first[i] == second[i] && first[ring_next(i, n)]
                == second[ring_next(i, m)],
    ensures
        crossings(p, first, n, k) == crossings(p, second, m, k),
    decreases k,
{
    if k > 0 {
        lemma_crossings_agree(p, first, n, second, m, k - 1);
        assert(first[k - 1] == second[k - 1]);
    }
}

/// A boundary that is stored with its first point repeated at its end
/// contains exactly the points that it contains without the repeat.
pub proof fn lemma_closing_point_ignored(p: Coords, polygon: Seq<Coords>)
    requires
        polygon.len() > 0,
    ensures
        inside(p, polygon.push(polygon.first())) == inside(p, polygon),
{
    let closed = polygon.push(polygon.first());
    let n = polygon.len() as int;
    assert(closed.first() == closed.last());
    assert(ring_len(closed) == n);
    if n == 2 {
        reveal_with_fuel(crossings, 3);
        lemma_edge_crosses_symmetric(p, closed[0], closed[1]);
        assert(crossings(p, closed, 2, 2) % 2 == 0);
    } else if n >= 3 {
        if polygon.first() == polygon.last() {
            assert(closed[n - 1] == closed[0]);
            assert(ring_next(n - 1, n) == 0);
            assert(!edge_crosses(p, closed[n - 1], closed[0]));
            assert(crossings(p, closed, n, n) == crossings(p, closed, n, n - 1));
            assert forall|i: int| 0 <= i < n - 1 implies #[trigger] closed[i] == polygon[i]
                && closed[ring_next(i, n)] == polygon[ring_next(i, n - 1)] by {
                if i + 1 == n - 1 {
                    assert(closed[n - 1] == polygon[0]);
                }
            }
            lemma_crossings_agree(p, closed, n, polygon, n - 1, n - 1);
        } else {
            assert forall|i: int| 0 <= i < n implies #[trigger] closed[i] == polygon[i]
                && closed[ring_next(i, n)] == polygon[ring_next(i, n)] by {}
            lemma_crossings_agree(p, closed, n, polygon, n, n);
        }
    }
}

/// Decides `edge_crosses` in machine arithmetic.
pub fn edge_is_crossed(p: Coords, a: Coords, b: Coords) -> (hit: bool)
    ensures
        hit == edge_crosses(p, a, b),
{
    if (a.z > p.z) == (b.z > p.z) {
        return false;
    }
    let px: i64 = p.x as i64 - a.x as i64;
    let pz: i64 = p.z as i64 - a.z as i64;
    let ex: i64 = b.x as i64 - a.x as i64;
    let ez: i64 = b.z as i64 - a.z as i64;
    assert(-0x1_0000_0000_0000_0000 <= px * ez <= 0x1_0000_0000_0000_0000) by (nonlinear_arith)
        requires
            -0x1_0000_0000 <= px <= 0x1_0000_0000,
            -0x1_0000_0000 <= ez <= 0x1_0000_0000,
    ;
    assert(-0x1_0000_0000_0000_0000 <= ex * pz <= 0x1_0000_0000_0000_0000) by (nonlinear_arith)
        requires
            -0x1_0000_0000 <= ex <= 0x1_0000_0000,
            -0x1_0000_0000 <= pz <= 0x1_0000_0000,
    ;
    let lhs: i128 = (px as i128) * (ez as i128);
    let rhs: i128 = (ex as i128) * (pz as i128);
    if ez > 0 {
        lhs < rhs
    } else {
        lhs > rhs
    }
}

/// Tells whether `coord` lies inside `polygon` by the even-odd rule.
pub fn point_in_polygon(coord: &Coords, polygon: &[Coords]) -> (found: bool)
    ensures
        found == inside(*coord, polygon@),
{
    if polygon.len() < 3 {
        return false;
    }
    let n: usize = if polygon[0] == polygon[polygon.len() - 1] {
        polygon.len() - 1
    } else {
        polygon.len()
    };
    let mut odd: bool = false;
    let mut i: usize = 0;
    while i < n
        invariant
            i <= n <= polygon.len(),
            n == ring_len(polygon@),
            odd == (crossings(*coord, polygon@, n as int, i as int) % 2 == 1),
        decreases n - i,
    {
        let j: usize = if i + 1 == n { 0 } else { i + 1 };
        if edge_is_crossed(*coord, polygon[i], polygon[j]) {
            odd = !odd;
        }
        i += 1;
    }
    odd
}

} // verus!
