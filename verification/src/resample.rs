//! Uniform spacing of a path's points along its length.
//!
//! Lengths are whole grid steps: a segment's length is the floor of the
//! square root of its squared extent, and a path's length is the sum of its
//! segments' lengths.

use vstd::prelude::*;
use vstd::arithmetic::div_mod::{
    lemma_add_mod_noop_right,
    lemma_div_by_multiple,
    lemma_div_is_ordered,
    lemma_div_multiples_vanish,
    lemma_div_pos_is_pos,
    lemma_fundamental_div_mod,
    lemma_hoist_over_denominator,
    lemma_mod_bound,
    lemma_mod_multiples_basic,
    lemma_small_mod,
};
use crate::geometry::Coords;

verus! {

/// The largest `r` with `r * r <= n`.
pub open spec fn floor_sqrt(n: nat) -> nat
    decreases n,
{
    if n == 0 {
        0
    } else {
        let r = floor_sqrt((n - 1) as nat);
        if (r + 1) * (r + 1) <= n {
            r + 1
        } else {
            r
        }
    }
}

/// `floor_sqrt(n)` squares to at most `n`, and its successor to more.
pub proof fn lemma_floor_sqrt_bounds(n: nat)
    ensures
        floor_sqrt(n) * floor_sqrt(n) <= n < (floor_sqrt(n) + 1) * (floor_sqrt(n) + 1),
    decreases n,
{
    let q = floor_sqrt(n);
    if n == 0 {
        assert(q * q <= n < (q + 1) * (q + 1)) by (nonlinear_arith)
            requires
                q == 0,
                n == 0,
        ;
    } else {
        lemma_floor_sqrt_bounds((n - 1) as nat);
        let r = floor_sqrt((n - 1) as nat);
        assert(q * q <= n < (q + 1) * (q + 1)) by (nonlinear_arith)
            requires
                r * r <= n - 1 < (r + 1) * (r + 1),
                q == (if (r + 1) * (r + 1) <= n { r + 1 } else { r }),
        ;
    }
}

/// Only one number squares to at most `n` while its successor squares to more.
pub proof fn lemma_floor_sqrt_unique(n: nat, r: nat)
    requires
        r * r <= n < (r + 1) * (r + 1),
    ensures
        r == floor_sqrt(n),
{
    lemma_floor_sqrt_bounds(n);
    let q = floor_sqrt(n);
    if r < q {
        assert((r + 1) * (r + 1) <= q * q) by (nonlinear_arith)
            requires
                r + 1 <= q,
        ;
    } else if q < r {
        assert((q + 1) * (q + 1) <= r * r) by (nonlinear_arith)
            requires
                q + 1 <= r,
        ;
    }
}

/// Computes the floor of the square root by bisection.
pub fn integer_sqrt(n: u128) -> (r: u64)
    ensures
        r == floor_sqrt(n as nat),
{
    let mut lo: u128 = 0;
    let mut hi: u128 = 0x1_0000_0000_0000_0000;
    while hi - lo > 1
        invariant
            lo < hi <= 0x1_0000_0000_0000_0000,
            lo * lo <= n < hi * hi,
        decreases hi - lo,
    {
        let mid: u128 = lo + (hi - lo) / 2;
        assert(mid * mid <= 0xFFFF_FFFF_FFFF_FFFF * 0xFFFF_FFFF_FFFF_FFFF) by (nonlinear_arith)
            requires
                0 <= mid <= 0xFFFF_FFFF_FFFF_FFFF,
        ;
        if mid * mid <= n {
            lo = mid;
        } else {
            hi = mid;
        }
    }
    proof {
        lemma_floor_sqrt_unique(n as nat, lo as nat);
    }
    lo as u64
}

/// Length of the segment from `a` to `b`, in whole grid steps.
pub open spec fn seg_len(a: Coords, b: Coords) -> int {
    floor_sqrt(((b.x - a.x) * (b.x - a.x) + (b.z - a.z) * (b.z - a.z)) as nat) as int
}

/// Length of the first `i` segments of `path`.
pub open spec fn path_len(path: Seq<Coords>, i: int) -> int
    decreases i,
{
    if i <= 0 {
        0
    } else {
        path_len(path, i - 1) + seg_len(path[i - 1], path[i])
    }
}

/// The coordinate reached after `d` of the `len` steps that lead from
/// `from` to `to`, rounded towards `from`.
pub open spec fn toward(from: int, to: int, d: int, len: int) -> int {
    if to >= from {
        from + ((to - from) * d) / len
    } else {
        from - ((from - to) * d) / len
    }
}

/// The grid point at distance `d` from `a` on the segment from `a` to `b`.
pub open spec fn point_at(a: Coords, b: Coords, d: int) -> Coords {
    Coords {
        x: toward(a.x as int, b.x as int, d, seg_len(a, b)) as i32,
        z: toward(a.z as int, b.z as int, d, seg_len(a, b)) as i32,
    }
}

/// The points laid on the segment from `a` to `b` when `carry` steps have
/// passed since the last multiple of `spacing`: one at each further
/// multiple that the segment reaches, its end included.
pub open spec fn segment_marks(a: Coords, b: Coords, carry: int, spacing: int) -> Seq<Coords> {
    Seq::new(
        ((seg_len(a, b) + carry) / spacing) as nat,
        |j: int| point_at(a, b, (j + 1) * spacing - carry),
    )
}

/// The points laid on the first `i` segments of `path`: one at every
/// positive multiple of `spacing` along the path's length.
pub open spec fn marks(path: Seq<Coords>, i: int, spacing: int) -> Seq<Coords>
    decreases i,
{
    if i <= 0 {
        Seq::empty()
    } else {
        marks(path, i - 1, spacing) + segment_marks(
            path[i - 1],
            path[i],
            path_len(path, i - 1) % spacing,
            spacing,
        )
    }
}

/// Number of multiples of `spacing` strictly between 0 and `total`.
pub open spec fn inner_multiples(total: int, spacing: int) -> int {
    if total > 0 && total % spacing == 0 {
        total / spacing - 1
    } else {
        total / spacing
    }
}

/// The path with uniform spacing: its first point, a point at every
/// multiple of `spacing` strictly inside its length, and its last point.
/// A path of fewer than two points gives no points.
pub open spec fn resampled(path: Seq<Coords>, spacing: int) -> Seq<Coords> {
    if path.len() < 2 {
        Seq::empty()
    } else {
        let segments = path.len() - 1;
        let all = marks(path, segments, spacing);
        let inner = if all.len() > 0 && path_len(path, segments) % spacing == 0 {
            all.drop_last()
        } else {
            all
        };
        seq![path.first()] + inner + seq![path.last()]
    }
}

/// The first `i` segments of a path carry as many points as whole
/// multiples of `spacing` fit into their length.
pub proof fn lemma_marks_count(path: Seq<Coords>, spacing: int, i: int)
    requires
        spacing > 0,
        0 <= i,
    ensures
        path_len(path, i) >= 0,
        marks(path, i, spacing).len() == path_len(path, i) / spacing,
    decreases i,
{
    if i > 0 {
        lemma_marks_count(path, spacing, i - 1);
        let before = path_len(path, i - 1);
        let len = seg_len(path[i - 1], path[i]);
        let carry = before % spacing;
        lemma_mod_bound(before, spacing);
        lemma_fundamental_div_mod(before, spacing);
        lemma_div_pos_is_pos(len + carry, spacing);
        lemma_hoist_over_denominator(len + carry, before / spacing, spacing as nat);
        assert(len + carry + (before / spacing) * spacing == before + len) by (nonlinear_arith)
            requires
                before == spacing * (before / spacing) + carry,
        ;
    } else {
        lemma_div_by_multiple(0, spacing);
        assert(0 * spacing == 0) by (nonlinear_arith);
    }
}

/// The length of a resampled path of two points or more follows from the
/// path's length alone: the two ends, and one point for every multiple of
/// `spacing` strictly inside the length.
pub proof fn lemma_resampled_count(path: Seq<Coords>, spacing: int)
    requires
        spacing > 0,
        path.len() >= 2,
    ensures
        resampled(path, spacing).len() == 2 + inner_multiples(
            path_len(path, path.len() - 1),
            spacing,
        ),
{
    let total = path_len(path, path.len() - 1);
    lemma_marks_count(path, spacing, path.len() - 1);
    lemma_fundamental_div_mod(total, spacing);
    if total / spacing == 0 {
        assert(spacing * (total / spacing) == 0) by (nonlinear_arith)
            requires
                total / spacing == 0,
        ;
    } else {
        assert(spacing * (total / spacing) >= spacing) by (nonlinear_arith)
            requires
                total / spacing >= 1,
                spacing > 0,
        ;
    }
}

/// Whether every segment of `path` is `spacing` long.
pub open spec fn evenly_spaced(path: Seq<Coords>, spacing: int) -> bool {
    forall|i: int| 0 <= i < path.len() - 1 ==> seg_len(#[trigger] path[i], path[i + 1]) == spacing
}

/// Walking no step of a segment stays at its start, and walking its whole
/// length arrives at its end.
pub proof fn lemma_point_at_ends(a: Coords, b: Coords)
    requires
        seg_len(a, b) > 0,
    ensures
        point_at(a, b, 0) == a,
        point_at(a, b, seg_len(a, b)) == b,
{
    let len = seg_len(a, b);
    if b.x >= a.x {
        lemma_div_by_multiple(b.x - a.x, len);
        lemma_div_by_multiple(0, len);
        assert((b.x - a.x) * 0 == 0 * len) by (nonlinear_arith);
    } else {
        lemma_div_by_multiple(a.x - b.x, len);
        lemma_div_by_multiple(0, len);
        assert((a.x - b.x) * 0 == 0 * len) by (nonlinear_arith);
    }
    if b.z >= a.z {
        lemma_div_by_multiple(b.z - a.z, len);
        lemma_div_by_multiple(0, len);
        assert((b.z - a.z) * 0 == 0 * len) by (nonlinear_arith);
    } else {
        lemma_div_by_multiple(a.z - b.z, len);
        lemma_div_by_multiple(0, len);
        assert((a.z - b.z) * 0 == 0 * len) by (nonlinear_arith);
    }
}

/// On a path whose segments are all `spacing` long, the points laid on the
/// first `i` segments are the path's own points after the first.
pub proof fn lemma_even_marks(path: Seq<Coords>, spacing: int, i: int)
    requires
        spacing > 0,
        0 <= i < path.len(),
        evenly_spaced(path, spacing),
    ensures
        path_len(path, i) == i * spacing,
        marks(path, i, spacing) == path.subrange(1, i + 1),
    decreases i,
{
    if i > 0 {
        lemma_even_marks(path, spacing, i - 1);
        let a = path[i - 1];
        let b = path[i];
        assert(seg_len(a, b) == spacing);
        lemma_mod_multiples_basic(i - 1, spacing);
        assert(i * spacing == (i - 1) * spacing + spacing) by (nonlinear_arith);
        lemma_div_by_multiple(1, spacing);
        assert(1 * spacing == spacing) by (nonlinear_arith);
        let due = segment_marks(a, b, 0, spacing);
        assert(due.len() == 1);
        lemma_point_at_ends(a, b);
        assert(due[0] == b);
        assert(marks(path, i, spacing) =~= path.subrange(1, i + 1));
    } else {
        assert(0 * spacing == 0) by (nonlinear_arith);
        assert(marks(path, i, spacing) =~= path.subrange(1, i + 1));
    }
}

/// A path whose segments are all `spacing` long is its own resampling at
/// that spacing.
pub proof fn lemma_evenly_spaced_path_is_kept(path: Seq<Coords>, spacing: int)
    requires
        spacing > 0,
        path.len() >= 2,
        evenly_spaced(path, spacing),
    ensures
        resampled(path, spacing) == path,
{
    let segments = path.len() - 1;
    lemma_even_marks(path, spacing, segments);
    lemma_mod_multiples_basic(segments, spacing);
    assert(resampled(path, spacing) =~= path);
}

/// A single segment that is `n` times `spacing` long is resampled to
/// `n + 1` points: the points at distance 0, `spacing`, twice `spacing`,
/// and so on up to the segment's length, the first and the last being the
/// segment's ends.
pub proof fn lemma_whole_segment_exact(a: Coords, b: Coords, spacing: int, n: int)
    requires
        spacing > 0,
        n >= 1,
        seg_len(a, b) == n * spacing,
    ensures
        resampled(seq![a, b], spacing) == Seq::new(
            (n + 1) as nat,
            |k: int| point_at(a, b, k * spacing),
        ),
        resampled(seq![a, b], spacing).first() == a,
        resampled(seq![a, b], spacing).last() == b,
{
    let path = seq![a, b];
    reveal_with_fuel(marks, 2);
    reveal_with_fuel(path_len, 2);
    assert(n * spacing >= spacing) by (nonlinear_arith)
        requires
            n >= 1,
            spacing > 0,
    ;
    lemma_small_mod(0, spacing as nat);
    lemma_div_by_multiple(n, spacing);
    lemma_mod_multiples_basic(n, spacing);
    lemma_point_at_ends(a, b);
    assert(path_len(path, 1) == n * spacing);
    let all = marks(path, 1, spacing);
    assert(all =~= segment_marks(a, b, 0, spacing));
    assert(all.len() == n);
    let wanted = Seq::new((n + 1) as nat, |k: int| point_at(a, b, k * spacing));
    assert(0 * spacing == 0) by (nonlinear_arith);
    assert forall|k: int| 0 <= k < n + 1 implies resampled(path, spacing)[k] == wanted[k] by {
        if 0 < k < n {
            assert(resampled(path, spacing)[k] == all[k - 1]);
            assert((k - 1 + 1) * spacing - 0 == k * spacing);
        }
    }
    assert(resampled(path, spacing) =~= wanted);
}

/// Computes `seg_len`.
pub fn segment_length(a: Coords, b: Coords) -> (len: u64)
    ensures
        len == seg_len(a, b),
        len <= 0x2_0000_0000,
{
    let dx: i64 = b.x as i64 - a.x as i64;
    let dz: i64 = b.z as i64 - a.z as i64;
    assert(0 <= dx * dx <= 0x1_0000_0000_0000_0000) by (nonlinear_arith)
        requires
            -0x1_0000_0000 <= dx <= 0x1_0000_0000,
    ;
    assert(0 <= dz * dz <= 0x1_0000_0000_0000_0000) by (nonlinear_arith)
        requires
            -0x1_0000_0000 <= dz <= 0x1_0000_0000,
    ;
    let square: i128 = (dx as i128) * (dx as i128) + (dz as i128) * (dz as i128);
    let len: u64 = integer_sqrt(square as u128);
    proof {
        lemma_floor_sqrt_bounds(square as nat);
        assert(len <= 0x2_0000_0000) by (nonlinear_arith)
            requires
                len * len <= square,
                square <= 0x2_0000_0000_0000_0000,
                len >= 0,
        ;
    }
    len
}

/// Computes `toward` for one coordinate.
fn coordinate_toward(from: i32, to: i32, d: u64, len: u64) -> (at: i32)
    requires
        0 < len,
        d <= len <= 0x2_0000_0000,
    ensures
        at == toward(from as int, to as int, d as int, len as int),
{
    let span: u64 = if to >= from {
        (to as i64 - from as i64) as u64
    } else {
        (from as i64 - to as i64) as u64
    };
    assert(span * d <= span * len <= 0x1_0000_0000 * 0x2_0000_0000) by (nonlinear_arith)
        requires
            0 <= span <= 0x1_0000_0000,
            0 <= d <= len <= 0x2_0000_0000,
    ;
    let shift: u128 = (span as u128 * d as u128) / (len as u128);
    proof {
        lemma_div_pos_is_pos(span * d, len as int);
        lemma_div_is_ordered(span * d, span * len, len as int);
        lemma_div_multiples_vanish(span as int, len as int);
        assert(span * len == len * span) by (nonlinear_arith);
        assert(0 <= shift <= span);
    }
    if to >= from {
        (from as i64 + shift as i64) as i32
    } else {
        (from as i64 - shift as i64) as i32
    }
}

/// Gives `coords` uniform spacing: the first point, a point at every
/// multiple of `spacing` along the path short of its end, and the last
/// point. What is left of a segment after its last point is carried into
/// the next segment; a segment of no length changes nothing. A path of
/// fewer than two points gives no points.
pub fn resample_line_to_equal_spacing(coords: &Vec<Coords>, spacing: u32) -> (out: Vec<Coords>)
    requires
        spacing > 0,
    ensures
        out@ == resampled(coords@, spacing as int),
        coords.len() < 2 ==> out.len() == 0,
        coords.len() >= 2 ==> out.len() >= 2 && out@.first() == coords@.first() && out@.last()
            == coords@.last(),
{
    let mut out: Vec<Coords> = Vec::new();
    if coords.len() < 2 {
        return out;
    }
    out.push(coords[0]);
    let segments: usize = coords.len() - 1;
    let step: u64 = spacing as u64;
    let mut carry: u64 = 0;
    let mut i: usize = 0;
    proof {
        lemma_small_mod(0, spacing as nat);
    }
    while i < segments
        invariant
            i <= segments,
            segments == coords.len() - 1,
            step == spacing,
            step > 0,
            carry == path_len(coords@, i as int) % (spacing as int),
            out@ == seq![coords@[0]] + marks(coords@, i as int, spacing as int),
        decreases segments - i,
    {
        let a: Coords = coords[i];
        let b: Coords = coords[i + 1];
        let len: u64 = segment_length(a, b);
        proof {
            lemma_mod_bound(path_len(coords@, i as int), spacing as int);
        }
        let total: u64 = len + carry;
        let count: u64 = total / step;
        proof {
            lemma_fundamental_div_mod(total as int, step as int);
            lemma_mod_bound(total as int, step as int);
            assert(count * step == step * count) by (nonlinear_arith);
        }
        let ghost before = out@;
        let ghost due = segment_marks(a, b, carry as int, spacing as int);
        let mut j: u64 = 0;
        while j < count
            invariant
                j <= count,
                count * step <= total,
                total == len + carry,
                carry < step,
                step == spacing,
                len == seg_len(a, b),
                len <= 0x2_0000_0000,
                due == segment_marks(a, b, carry as int, spacing as int),
                due.len() == count,
                out@ == before + due.take(j as int),
            decreases count - j,
        {
            assert(step <= (j + 1) * step <= count * step) by (nonlinear_arith)
                requires
                    0 <= j,
                    j + 1 <= count,
                    step >= 0,
            ;
            let d: u64 = (j + 1) * step - carry;
            let mark = Coords {
                x: coordinate_toward(a.x, b.x, d, len),
                z: coordinate_toward(a.z, b.z, d, len),
            };
            out.push(mark);
            proof {
                assert(mark == due[j as int]);
                assert(due.take(j + 1) =~= due.take(j as int).push(mark));
            }
            j += 1;
        }
        proof {
            assert(due.take(count as int) =~= due);
            lemma_add_mod_noop_right(len as int, path_len(coords@, i as int), spacing as int);
            assert(path_len(coords@, i + 1) == path_len(coords@, i as int) + len);
            assert(out@ =~= seq![coords@[0]] + marks(coords@, i + 1, spacing as int));
        }
        carry = total % step;
        i += 1;
    }
    if carry == 0 && out.len() > 1 {
        out.pop();
    }
    out.push(coords[segments]);
    proof {
        assert(out@ =~= resampled(coords@, spacing as int));
    }
    out
}

} // verus!
