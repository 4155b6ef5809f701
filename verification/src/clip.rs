//! Clipping paths to a boundary: each path is cut into its runs of
//! consecutive points that lie inside.

use vstd::prelude::*;
use crate::geometry::{inside, paths_of, point_in_polygon, Coords, ParallelLine, ParallelLines};

verus! {

/// A run that has ended: kept as one piece when it has at least two points.
pub open spec fn finished(run: Seq<Coords>) -> Seq<Seq<Coords>> {
    if run.len() >= 2 {
        seq![run]
    } else {
        Seq::empty()
    }
}

/// The pieces that the scan of `path` yields from point `i` on, when `run`
/// holds the points of the run that is open at `i`. A point inside the
/// boundary extends the run; a point outside ends it and is dropped.
pub open spec fn split_from(
    path: Seq<Coords>,
    polygon: Seq<Coords>,
    i: int,
    run: Seq<Coords>,
) -> Seq<Seq<Coords>>
    decreases path.len() - i,
{
    if i >= path.len() {
        finished(run)
    } else if inside(path[i], polygon) {
        split_from(path, polygon, i + 1, run.push(path[i]))
    } else {
        finished(run) + split_from(path, polygon, i + 1, Seq::empty())
    }
}

/// The pieces of one path.
pub open spec fn split_path(path: Seq<Coords>, polygon: Seq<Coords>) -> Seq<Seq<Coords>> {
    split_from(path, polygon, 0, Seq::empty())
}

/// The pieces of every path of `lines`, in the order of the paths.
pub open spec fn split_all(lines: Seq<Seq<Coords>>, polygon: Seq<Coords>) -> Seq<Seq<Coords>>
    decreases lines.len(),
{
    if lines.len() == 0 {
        Seq::empty()
    } else {
        split_all(lines.drop_last(), polygon) + split_path(lines.last(), polygon)
    }
}

/// A piece worth keeping: at least two points, each inside the boundary.
pub open spec fn kept_within(piece: Seq<Coords>, polygon: Seq<Coords>) -> bool {
    &&& piece.len() >= 2
    &&& forall|j: int| 0 <= j < piece.len() ==> inside(#[trigger] piece[j], polygon)
}

/// Every one of `pieces` is worth keeping.
pub open spec fn all_kept_within(pieces: Seq<Seq<Coords>>, polygon: Seq<Coords>) -> bool {
    forall|k: int| 0 <= k < pieces.len() ==> kept_within(#[trigger] pieces[k], polygon)
}

/// A scan that starts with a run of inside points yields only pieces of at
/// least two points, all inside the boundary.
pub proof fn lemma_split_from_kept_within(
    path: Seq<Coords>,
    polygon: Seq<Coords>,
    i: int,
    run: Seq<Coords>,
)
    requires
        0 <= i,
        forall|j: int| 0 <= j < run.len() ==> inside(#[trigger] run[j], polygon),
    ensures
        all_kept_within(split_from(path, polygon, i, run), polygon),
    decreases path.len() - i,
{
    if i >= path.len() {
    } else if inside(path[i], polygon) {
        lemma_split_from_kept_within(path, polygon, i + 1, run.push(path[i]));
    } else {
        lemma_split_from_kept_within(path, polygon, i + 1, Seq::empty());
    }
}

/// Clipping yields only pieces of at least two points, all inside the
/// boundary, whatever the paths and the boundary are.
pub proof fn lemma_split_all_kept_within(lines: Seq<Seq<Coords>>, polygon: Seq<Coords>)
    ensures
        all_kept_within(split_all(lines, polygon), polygon),
    decreases lines.len(),
{
    if lines.len() > 0 {
        lemma_split_all_kept_within(lines.drop_last(), polygon);
        lemma_split_from_kept_within(lines.last(), polygon, 0, Seq::empty());
    }
}

/// Whether the points of `path` from number `a` up to, not including,
/// number `b` are a run: all inside the boundary, with no inside point
/// next to them on either side.
pub open spec fn is_run(path: Seq<Coords>, polygon: Seq<Coords>, a: int, b: int) -> bool {
    &&& 0 <= a < b <= path.len()
    &&& forall|j: int| a <= j < b ==> inside(#[trigger] path[j], polygon)
    &&& (a == 0 || !inside(path[a - 1], polygon))
    &&& (b == path.len() || !inside(path[b], polygon))
}

/// Whether `piece` is a run of `path` of two points or more.
pub open spec fn is_long_run(path: Seq<Coords>, polygon: Seq<Coords>, piece: Seq<Coords>) -> bool {
    exists|a: int, b: int|
        #![trigger path.subrange(a, b)]
        is_run(path, polygon, a, b) && b - a >= 2 && piece == path.subrange(a, b)
}

/// The state of a scan that has reached point `i` with the run that began
/// at point `start` still open.
pub open spec fn scan_at(path: Seq<Coords>, polygon: Seq<Coords>, start: int, i: int) -> bool {
    &&& 0 <= start <= i <= path.len()
    &&& forall|j: int| start <= j < i ==> inside(#[trigger] path[j], polygon)
    &&& (start == 0 || !inside(path[start - 1], polygon))
}

/// Every piece that a scan yields is a run of two points or more.
pub proof fn lemma_scan_yields_runs(path: Seq<Coords>, polygon: Seq<Coords>, start: int, i: int)
    requires
        scan_at(path, polygon, start, i),
    ensures
        forall|k: int|
            0 <= k < split_from(path, polygon, i, path.subrange(start, i)).len() ==> is_long_run(
                path,
                polygon,
                #[trigger] split_from(path, polygon, i, path.subrange(start, i))[k],
            ),
    decreases path.len() - i,
{
    let run = path.subrange(start, i);
    let pieces = split_from(path, polygon, i, run);
    if run.len() >= 2 && (i >= path.len() || !inside(path[i], polygon)) {
        assert(is_run(path, polygon, start, i));
        assert(is_long_run(path, polygon, path.subrange(start, i)));
    }
    if i >= path.len() {
        assert forall|k: int| 0 <= k < pieces.len() implies is_long_run(
            path,
            polygon,
            #[trigger] pieces[k],
        ) by {
            assert(pieces[k] == run);
        }
    } else if inside(path[i], polygon) {
        assert(run.push(path[i]) =~= path.subrange(start, i + 1));
        lemma_scan_yields_runs(path, polygon, start, i + 1);
        let next = split_from(path, polygon, i + 1, path.subrange(start, i + 1));
        assert(pieces == next);
        assert forall|k: int| 0 <= k < pieces.len() implies is_long_run(
            path,
            polygon,
            #[trigger] pieces[k],
        ) by {
            assert(pieces[k] == next[k]);
        }
    } else {
        assert(Seq::<Coords>::empty() =~= path.subrange(i + 1, i + 1));
        lemma_scan_yields_runs(path, polygon, i + 1, i + 1);
        let rest = split_from(path, polygon, i + 1, path.subrange(i + 1, i + 1));
        assert forall|k: int| 0 <= k < pieces.len() implies is_long_run(
            path,
            polygon,
            #[trigger] pieces[k],
        ) by {
            if k >= finished(run).len() {
                assert(pieces[k] == rest[k - finished(run).len()]);
            } else {
                assert(pieces[k] == run);
            }
        }
    }
}

/// Every run of two points or more that begins at or after the open run
/// is among the pieces that the scan yields.
pub proof fn lemma_scan_yields_every_run(
    path: Seq<Coords>,
    polygon: Seq<Coords>,
    start: int,
    i: int,
    a: int,
    b: int,
)
    requires
        scan_at(path, polygon, start, i),
        is_run(path, polygon, a, b),
        b - a >= 2,
        start <= a,
    ensures
        split_from(path, polygon, i, path.subrange(start, i)).contains(path.subrange(a, b)),
    decreases path.len() - i,
{
    let run = path.subrange(start, i);
    let pieces = split_from(path, polygon, i, run);
    if i >= path.len() {
        if a > start {
            assert(inside(path[a - 1], polygon));
        }
        if b < i {
            assert(inside(path[b], polygon));
        }
        assert(pieces[0] == path.subrange(a, b));
    } else if inside(path[i], polygon) {
        assert(run.push(path[i]) =~= path.subrange(start, i + 1));
        lemma_scan_yields_every_run(path, polygon, start, i + 1, a, b);
    } else {
        assert(Seq::<Coords>::empty() =~= path.subrange(i + 1, i + 1));
        let rest = split_from(path, polygon, i + 1, path.subrange(i + 1, i + 1));
        if a <= i {
            assert(inside(path[a], polygon));
            if a > start {
                assert(inside(path[a - 1], polygon));
            }
            if b > i {
                assert(inside(path[i], polygon));
            }
            if b < i {
                assert(inside(path[b], polygon));
            }
            assert(pieces[0] == path.subrange(a, b));
        } else {
            lemma_scan_yields_every_run(path, polygon, i + 1, i + 1, a, b);
            let k = choose|k: int| 0 <= k < rest.len() && rest[k] == path.subrange(a, b);
            assert(pieces[finished(run).len() + k] == path.subrange(a, b));
        }
    }
}

/// The pieces of a path are its runs of two points or more: every piece
/// is such a run, and every such run is a piece.
pub proof fn lemma_pieces_are_the_long_runs(path: Seq<Coords>, polygon: Seq<Coords>)
    ensures
        forall|k: int|
            0 <= k < split_path(path, polygon).len() ==> is_long_run(
                path,
                polygon,
                #[trigger] split_path(path, polygon)[k],
            ),
        forall|a: int, b: int|
            is_run(path, polygon, a, b) && b - a >= 2 ==> split_path(path, polygon).contains(
                #[trigger] path.subrange(a, b),
            ),
{
    assert(Seq::<Coords>::empty() =~= path.subrange(0, 0));
    lemma_scan_yields_runs(path, polygon, 0, 0);
    assert forall|a: int, b: int| is_run(path, polygon, a, b) && b - a >= 2 implies split_path(
        path,
        polygon,
    ).contains(#[trigger] path.subrange(a, b)) by {
        lemma_scan_yields_every_run(path, polygon, 0, 0, a, b);
    }
}

/// Cuts every path of `parallel_lines` into its runs of consecutive points
/// inside `boundary_polygon`, and keeps the runs of two points or more.
pub fn split_lines_inside_polygon(
    parallel_lines: &ParallelLines,
    boundary_polygon: &[Coords],
) -> (pieces: Vec<ParallelLine>)
    ensures
        paths_of(pieces@) == split_all(parallel_lines@, boundary_polygon@),
        all_kept_within(paths_of(pieces@), boundary_polygon@),
{
    let mut pieces: Vec<ParallelLine> = Vec::new();
    let mut k: usize = 0;
    assert(paths_of(pieces@) =~= Seq::empty());
    assert(parallel_lines@.take(0) =~= Seq::empty());
    while k < parallel_lines.parallel_lines.len()
        invariant
            k <= parallel_lines.parallel_lines.len(),
            paths_of(pieces@) == split_all(parallel_lines@.take(k as int), boundary_polygon@),
        decreases parallel_lines.parallel_lines.len() - k,
    {
        let line: &ParallelLine = &parallel_lines.parallel_lines[k];
        let ghost done = paths_of(pieces@);
        let ghost path = line@;
        let mut run: Vec<Coords> = Vec::new();
        let mut i: usize = 0;
        assert(done + split_path(path, boundary_polygon@) =~= done + split_from(
            path,
            boundary_polygon@,
            0,
            run@,
        ));
        while i < line.coords.len()
            invariant
                i <= line.coords.len(),
                path == line@,
                paths_of(pieces@) + split_from(path, boundary_polygon@, i as int, run@) == done
                    + split_path(path, boundary_polygon@),
            decreases line.coords.len() - i,
        {
            let point: Coords = line.coords[i];
            let ghost before = paths_of(pieces@);
            let ghost open_run = run@;
            if point_in_polygon(&point, boundary_polygon) {
                run.push(point);
            } else {
                if run.len() >= 2 {
                    pieces.push(ParallelLine { coords: run });
                    assert(paths_of(pieces@) =~= before.push(open_run));
                }
                run = Vec::new();
                assert(paths_of(pieces@) + split_from(path, boundary_polygon@, i + 1, run@)
                    =~= before + (finished(open_run) + split_from(
                    path,
                    boundary_polygon@,
                    i + 1,
                    Seq::empty(),
                )));
            }
            i += 1;
        }
        let ghost before = paths_of(pieces@);
        let ghost last_run = run@;
        if run.len() >= 2 {
            pieces.push(ParallelLine { coords: run });
        }
        proof {
            assert(paths_of(pieces@) =~= before + finished(last_run));
            let upto = parallel_lines@.take(k + 1);
            assert(upto.drop_last() =~= parallel_lines@.take(k as int));
            assert(upto.last() == path);
        }
        k += 1;
    }
    proof {
        assert(parallel_lines@.take(k as int) =~= parallel_lines@);
        lemma_split_all_kept_within(parallel_lines@, boundary_polygon@);
    }
    pieces
}

} // verus!
