//! One regeneration of the pattern: the keyline is copied to either side,
//! the field boundary is moved inwards by the margin, and the copies and the
//! keyline are clipped to the moved boundary and given an even spacing.

use vstd::prelude::*;
use crate::clip::{all_kept_within, split_all, split_lines_inside_polygon};
use crate::geometry::{append_lines, paths_of, Coords, ParallelLine, ParallelLines, GRID_PER_UNIT};
use crate::offsets::{copies_by, generate_parallel_lines, offset_steps};
use crate::resample::{resample_line_to_equal_spacing, resampled};

verus! {

/// The widths and line counts of one regeneration, in distance units.
#[derive(Clone, Copy, Debug, PartialEq, Eq, Structural)]
pub struct Settings {
    pub headland_width: u16,
    pub strip_width: u16,
    pub keyline_width: u16,
    pub num_lines_right: u16,
    pub num_lines_left: u16,
}

impl Settings {
    /// Distance between neighbouring lines: a strip and a keyline.
    pub open spec fn line_distance(&self) -> int {
        self.strip_width + self.keyline_width
    }

    /// Width of the margin kept free inside the field boundary: the
    /// headland and half a keyline, rounded down.
    pub open spec fn margin(&self) -> int {
        self.headland_width + self.keyline_width / 2
    }

    /// Computes the distance between neighbouring lines.
    pub fn line_offset(&self) -> (distance: u32)
        ensures
            distance == self.line_distance(),
    {
        self.strip_width as u32 + self.keyline_width as u32
    }

    /// Computes the width of the margin inside the field boundary.
    pub fn boundary_margin(&self) -> (width: u32)
        ensures
            width == self.margin(),
    {
        self.headland_width as u32 + (self.keyline_width / 2) as u32
    }
}

/// Why a regeneration gave no pattern.
#[derive(Clone, Copy, Debug, PartialEq, Eq, Structural)]
pub enum CycleError {
    /// The input holds no keyline.
    MissingKeyline,
    /// Offsetting the field boundary gave no ring, or more than one.
    BoundaryRingCount,
}

/// Every path of `lines` with uniform spacing.
pub open spec fn resample_all(lines: Seq<Seq<Coords>>, spacing: int) -> Seq<Seq<Coords>> {
    Seq::new(lines.len(), |i: int| resampled(lines[i], spacing))
}

/// The paths that are clipped: the copies on the right, the copies on the
/// left, then the keyline itself.
pub open spec fn candidates(
    keyline: Seq<Coords>,
    right: Seq<Seq<Coords>>,
    left: Seq<Seq<Coords>>,
) -> Seq<Seq<Coords>> {
    right + left + seq![keyline]
}

/// The pattern: the candidates clipped to `ring`, each piece with a point
/// every distance unit.
pub open spec fn pattern(
    keyline: Seq<Coords>,
    right: Seq<Seq<Coords>>,
    left: Seq<Seq<Coords>>,
    ring: Seq<Coords>,
) -> Seq<Seq<Coords>> {
    resample_all(split_all(candidates(keyline, right, left), ring), GRID_PER_UNIT as int)
}

/// Gives every path of `pieces` a point every distance unit.
pub fn resample_lines(pieces: &Vec<ParallelLine>) -> (lines: Vec<ParallelLine>)
    ensures
        paths_of(lines@) == resample_all(paths_of(pieces@), GRID_PER_UNIT as int),
{
    let mut lines: Vec<ParallelLine> = Vec::new();
    let mut i: usize = 0;
    while i < pieces.len()
        invariant
            i <= pieces.len(),
            lines@.len() == i,
            forall|k: int|
                0 <= k < i ==> (#[trigger] lines@[k])@ == resampled(
                    pieces@[k]@,
                    GRID_PER_UNIT as int,
                ),
        decreases pieces.len() - i,
    {
        let coords = resample_line_to_equal_spacing(&pieces[i].coords, GRID_PER_UNIT);
        lines.push(ParallelLine { coords });
        i += 1;
    }
    assert(paths_of(lines@) =~= resample_all(paths_of(pieces@), GRID_PER_UNIT as int));
    lines
}

/// What a regeneration comes to once the offset paths are known: no
/// pattern without a keyline or with any number of boundary rings but one,
/// else the pattern of the first keyline within the one ring.
pub open spec fn pattern_outcome(
    keylines: Seq<Seq<Coords>>,
    right: Seq<Seq<Coords>>,
    left: Seq<Seq<Coords>>,
    rings: Seq<Seq<Coords>>,
) -> Result<Seq<Seq<Coords>>, CycleError> {
    if keylines.len() == 0 {
        Err(CycleError::MissingKeyline)
    } else if rings.len() != 1 {
        Err(CycleError::BoundaryRingCount)
    } else {
        Ok(pattern(keylines[0], right, left, rings[0]))
    }
}

/// An outcome with its lines as point sequences.
pub open spec fn seen(outcome: Result<ParallelLines, CycleError>) -> Result<
    Seq<Seq<Coords>>,
    CycleError,
> {
    match outcome {
        Ok(lines) => Ok(lines@),
        Err(e) => Err(e),
    }
}

/// Whether every line has two points or more.
pub open spec fn all_drawable(lines: Seq<Seq<Coords>>) -> bool {
    forall|k: int| 0 <= k < lines.len() ==> (#[trigger] lines[k]).len() >= 2
}

/// Builds the pattern from the offset paths: the keyline is the first of
/// `keylines`, `right` and `left` are its copies, and `boundary_rings` is
/// what offsetting the field boundary gave. The copies and the keyline are
/// clipped to the one ring and resampled; every line of the pattern has at
/// least two points.
pub fn assemble_pattern(
    keylines: &Vec<ParallelLine>,
    right: &ParallelLines,
    left: &ParallelLines,
    boundary_rings: &ParallelLines,
) -> (outcome: Result<ParallelLines, CycleError>)
    ensures
        seen(outcome) == pattern_outcome(paths_of(keylines@), right@, left@, boundary_rings@),
        outcome is Ok ==> all_drawable(outcome->Ok_0@),
{
    if keylines.len() == 0 {
        return Err(CycleError::MissingKeyline);
    }
    if boundary_rings.parallel_lines.len() != 1 {
        return Err(CycleError::BoundaryRingCount);
    }
    let mut combined: Vec<ParallelLine> = Vec::new();
    assert(paths_of(combined@) =~= Seq::empty());
    append_lines(&mut combined, &right.parallel_lines);
    append_lines(&mut combined, &left.parallel_lines);
    let ghost sides = paths_of(combined@);
    combined.push(keylines[0].duplicate());
    let all = ParallelLines { parallel_lines: combined };
    assert(all@ =~= candidates(keylines@[0]@, right@, left@)) by {
        assert(sides =~= right@ + left@);
        assert(all@ =~= sides.push(keylines@[0]@));
    }
    let pieces = split_lines_inside_polygon(
        &all,
        boundary_rings.parallel_lines[0].coords.as_slice(),
    );
    let lines = resample_lines(&pieces);
    let found = ParallelLines { parallel_lines: lines };
    assert(boundary_rings@[0] == boundary_rings.parallel_lines@[0].coords@);
    assert forall|k: int| 0 <= k < found@.len() implies (#[trigger] found@[k]).len() >= 2 by {
        let piece = paths_of(pieces@)[k];
        assert(all_kept_within(paths_of(pieces@), boundary_rings@[0]));
        assert(found@[k] == resampled(piece, GRID_PER_UNIT as int));
        assert(piece.len() >= 2);
    }
    Ok(found)
}

/// Whether `right`, `left` and `rings` are paths that `offset` can give
/// for a regeneration with `settings`: the copies of `keyline` on either
/// side, a line distance apart, and the field boundary moved by the margin.
pub open spec fn offsets_of<F: Fn(&Vec<Coords>, i64) -> ParallelLines>(
    offset: &F,
    keyline: &Vec<Coords>,
    boundary: &Vec<Coords>,
    settings: Settings,
    right: Seq<Seq<Coords>>,
    left: Seq<Seq<Coords>>,
    rings: Seq<Seq<Coords>>,
) -> bool {
    &&& copies_by(
        offset,
        keyline,
        offset_steps(settings.num_lines_right as int, settings.line_distance(), 1),
        right,
    )
    &&& copies_by(
        offset,
        keyline,
        offset_steps(settings.num_lines_left as int, settings.line_distance(), -1),
        left,
    )
    &&& copies_by(offset, boundary, offset_steps(1, settings.margin(), 1), rings)
}

/// Runs one regeneration. `offset` gives the paths that lie parallel to
/// a path at a signed distance. The first of `keylines` is copied to
/// either side as `settings` say, the field `boundary` is moved by the
/// margin, and the copies and the keyline are clipped to the moved boundary
/// and resampled. Without a keyline nothing is asked of `offset`.
pub fn process_keylines<F: Fn(&Vec<Coords>, i64) -> ParallelLines>(
    keylines: &Vec<ParallelLine>,
    boundary: &Vec<Coords>,
    settings: &Settings,
    offset: &F,
) -> (outcome: Result<ParallelLines, CycleError>)
    requires
        keylines.len() > 0 ==> forall|d: i64| call_requires(*offset, (&keylines@[0].coords, d)),
        forall|d: i64| call_requires(*offset, (boundary, d)),
    ensures
        keylines.len() == 0 ==> outcome == Err::<ParallelLines, CycleError>(
            CycleError::MissingKeyline,
        ),
        keylines.len() > 0 ==> exists|
            right: Seq<Seq<Coords>>,
            left: Seq<Seq<Coords>>,
            rings: Seq<Seq<Coords>>,
        |
            #[trigger] offsets_of(
                offset,
                &keylines@[0].coords,
                boundary,
                *settings,
                right,
                left,
                rings,
            ) && seen(outcome) == pattern_outcome(paths_of(keylines@), right, left, rings),
        outcome is Ok ==> all_drawable(outcome->Ok_0@),
{
    if keylines.len() == 0 {
        return Err(CycleError::MissingKeyline);
    }
    let keyline: &Vec<Coords> = &keylines[0].coords;
    let distance: u32 = settings.line_offset();
    let right = generate_parallel_lines(keyline, settings.num_lines_right, distance, 1, offset);
    let left = generate_parallel_lines(keyline, settings.num_lines_left, distance, -1, offset);
    let rings = generate_parallel_lines(boundary, 1, settings.boundary_margin(), 1, offset);
    let outcome = assemble_pattern(keylines, &right, &left, &rings);
    assert(offsets_of(offset, &keylines@[0].coords, boundary, *settings, right@, left@, rings@));
    outcome
}

} // verus!
