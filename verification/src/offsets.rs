//! Repeated parallel copies of a path. The offsetting of a path by a
//! distance is not done here: it is handed in as a function, and this
//! module decides which distances it is asked for and gathers what it gives.

use vstd::prelude::*;
use crate::geometry::{append_lines, paths_of, Coords, ParallelLine, ParallelLines};

verus! {

/// The signed distance of copy number `i`, counted from 0: the distance
/// taken `i + 1` times, towards `direction`.
pub open spec fn offset_step(distance: int, i: int, direction: int) -> int {
    distance * (i + 1) * direction
}

/// The signed distances of `num_lines` copies, nearest first.
pub open spec fn offset_steps(num_lines: int, distance: int, direction: int) -> Seq<i64> {
    Seq::new(num_lines as nat, |i: int| offset_step(distance, i, direction) as i64)
}

/// Lists the signed distance of each of `num_lines` parallel copies.
/// `direction` is 1 for one side of the path and -1 for the other.
pub fn offset_distances(num_lines: u16, distance: u32, direction: i32) -> (steps: Vec<i64>)
    requires
        direction == 1 || direction == -1,
    ensures
        steps@ == offset_steps(num_lines as int, distance as int, direction as int),
        forall|i: int|
            0 <= i < num_lines ==> #[trigger] steps@[i] == offset_step(
                distance as int,
                i,
                direction as int,
            ),
{
    let mut steps: Vec<i64> = Vec::new();
    let mut i: u16 = 0;
    while i < num_lines
        invariant
            i <= num_lines,
            direction == 1 || direction == -1,
            steps@.len() == i,
            forall|k: int|
                0 <= k < i ==> #[trigger] steps@[k] == offset_step(
                    distance as int,
                    k,
                    direction as int,
                ),
        decreases num_lines - i,
    {
        let multiple: i64 = i as i64 + 1;
        assert(0 <= distance * multiple <= 0xFFFF_FFFF * 0x1_0000) by (nonlinear_arith)
            requires
                0 <= distance <= 0xFFFF_FFFF,
                1 <= multiple <= 0x1_0000,
        ;
        let size: i64 = distance as i64 * multiple;
        let step: i64 = if direction == 1 {
            size
        } else {
            -size
        };
        assert(step == offset_step(distance as int, i as int, direction as int))
            by (nonlinear_arith)
            requires
                size == distance * multiple,
                multiple == i + 1,
                (direction == 1 && step == size) || (direction == -1 && step == -size),
        ;
        steps.push(step);
        i += 1;
    }
    assert(steps@ =~= offset_steps(num_lines as int, distance as int, direction as int));
    steps
}

/// The path lists of a list of sets, in order.
pub open spec fn groups_of(sets: Seq<ParallelLines>) -> Seq<Seq<Seq<Coords>>> {
    Seq::new(sets.len(), |i: int| sets[i]@)
}

/// All paths of all groups, group after group.
pub open spec fn gathered(groups: Seq<Seq<Seq<Coords>>>) -> Seq<Seq<Coords>>
    decreases groups.len(),
{
    if groups.len() == 0 {
        Seq::empty()
    } else {
        gathered(groups.drop_last()) + groups.last()
    }
}

/// Gathers the copies of a path into one set. `offset_results` holds, for
/// each offset distance in turn, the paths that offsetting by it gave: none,
/// one or several. The set holds them all, in that order.
pub fn gather_lines(offset_results: &Vec<ParallelLines>) -> (all: ParallelLines)
    ensures
        all@ == gathered(groups_of(offset_results@)),
{
    let mut lines: Vec<ParallelLine> = Vec::new();
    let mut i: usize = 0;
    assert(paths_of(lines@) =~= Seq::empty());
    assert(groups_of(offset_results@.take(0)) =~= Seq::empty());
    while i < offset_results.len()
        invariant
            i <= offset_results.len(),
            paths_of(lines@) == gathered(groups_of(offset_results@.take(i as int))),
        decreases offset_results.len() - i,
    {
        append_lines(&mut lines, &offset_results[i].parallel_lines);
        proof {
            let upto = groups_of(offset_results@.take(i + 1));
            assert(upto.drop_last() =~= groups_of(offset_results@.take(i as int)));
            assert(upto.last() == offset_results@[i as int]@);
        }
        i += 1;
    }
    assert(offset_results@.take(i as int) =~= offset_results@);
    ParallelLines { parallel_lines: lines }
}

/// Whether `results` holds, for each of `steps` in turn, a set that
/// `offset` can give for `coords` at that distance.
pub open spec fn offsets_by<F: Fn(&Vec<Coords>, i64) -> ParallelLines>(
    offset: &F,
    coords: &Vec<Coords>,
    steps: Seq<i64>,
    results: Seq<ParallelLines>,
) -> bool {
    &&& results.len() == steps.len()
    &&& forall|i: int|
        0 <= i < steps.len() ==> call_ensures(*offset, (coords, steps[i]), #[trigger] results[i])
}

/// Whether `copies` are paths that `offset` can give for `coords` at the
/// distances `steps`, gathered in the order of the distances.
pub open spec fn copies_by<F: Fn(&Vec<Coords>, i64) -> ParallelLines>(
    offset: &F,
    coords: &Vec<Coords>,
    steps: Seq<i64>,
    copies: Seq<Seq<Coords>>,
) -> bool {
    exists|results: Seq<ParallelLines>|
        #[trigger] offsets_by(offset, coords, steps, results) && copies == gathered(
            groups_of(results),
        )
}

/// Makes `num_lines` parallel copies of `coords`: asks `offset` for the
/// path at `distance`, at twice `distance`, and so on, towards `direction`
/// (1 for one side, -1 for the other), and gathers the paths that come
/// back, nearest first. An offset may give no path, or several.
pub fn generate_parallel_lines<F: Fn(&Vec<Coords>, i64) -> ParallelLines>(
    coords: &Vec<Coords>,
    num_lines: u16,
    distance: u32,
    direction: i32,
    offset: &F,
) -> (all: ParallelLines)
    requires
        direction == 1 || direction == -1,
        forall|d: i64| call_requires(*offset, (coords, d)),
    ensures
        copies_by(
            offset,
            coords,
            offset_steps(num_lines as int, distance as int, direction as int),
            all@,
        ),
{
    let steps = offset_distances(num_lines, distance, direction);
    let mut results: Vec<ParallelLines> = Vec::new();
    let mut i: usize = 0;
    while i < steps.len()
        invariant
            i <= steps.len(),
            forall|d: i64| call_requires(*offset, (coords, d)),
            offsets_by(offset, coords, steps@.take(i as int), results@),
        decreases steps.len() - i,
    {
        let found = offset(coords, steps[i]);
        results.push(found);
        i += 1;
    }
    assert(steps@.take(i as int) =~= steps@);
    gather_lines(&results)
}

} // verus!
