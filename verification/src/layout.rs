//! Bookkeeping for laying out blocks: which laid-out block is still current,
//! and how many source lines of a block the visible rows take.

use vstd::prelude::*;

verus! {

/// A document revision; every edit moves it on.
#[derive(Clone, Copy, Debug, PartialEq, Eq, Structural)]
pub struct Revision(pub u64);

/// A block's context computed at `candidate` may be used only while the
/// document is still at that revision.
pub fn block_context_revision_is_current(current: Revision, candidate: Revision) -> (r: bool)
    ensures
        r == (current == candidate),
{
    current == candidate
}

/// `visible_prefix` answers every line count up to `n`, the same way each
/// time, and never less for more lines.
pub open spec fn monotone_prefix<F: Fn(usize) -> usize>(visible_prefix: F, n: usize) -> bool {
    &&& forall|i: usize| i <= n ==> call_requires(visible_prefix, (i,))
    &&& forall|i: usize, j: usize, a: usize, b: usize|
        i <= j <= n && call_ensures(visible_prefix, (i,), a) && call_ensures(
            visible_prefix,
            (j,),
            b,
        ) ==> a <= b
}

/// `visible_prefix(i)` is known to be at least `rows`.
pub open spec fn reaches<F: Fn(usize) -> usize>(visible_prefix: F, i: usize, rows: usize) -> bool {
    forall|a: usize| call_ensures(visible_prefix, (i,), a) ==> a >= rows
}

/// The fewest physical lines of a block, out of `physical_line_count`, whose
/// visible rows (`visible_prefix` of a line count: how many rows that many
/// lines show) reach `visible_rows`, with `visible_rows` first capped at
/// what the whole block shows. Found by binary search, so collapsed lines
/// cost nothing.
pub fn invert_visible_line_prefix<F: Fn(usize) -> usize>(
    physical_line_count: usize,
    visible_rows: usize,
    visible_prefix: F,
) -> (r: usize)
    requires
        monotone_prefix(visible_prefix, physical_line_count),
    ensures
        r <= physical_line_count,
        forall|total: usize|
            call_ensures(visible_prefix, (physical_line_count,), total) ==> {
                let rows = if visible_rows < total {
                    visible_rows
                } else {
                    total
                };
                &&& rows == 0 ==> r == 0
                &&& rows > 0 ==> reaches(visible_prefix, r, rows)
                &&& rows > 0 && r > 0 ==> !reaches(visible_prefix, (r - 1) as usize, rows)
            },
{
    let total = visible_prefix(physical_line_count);
    let rows = if visible_rows < total {
        visible_rows
    } else {
        total
    };
    proof {
        assert forall|other: usize|
            call_ensures(visible_prefix, (physical_line_count,), other) implies other == total by {
            assert(other <= total && total <= other);
        }
    }
    if rows == 0 {
        return 0;
    }
    let ghost mut below: usize = 0;
    let mut low: usize = 0;
    let mut high: usize = physical_line_count;
    while low < high
        invariant
            monotone_prefix(visible_prefix, physical_line_count),
            call_ensures(visible_prefix, (physical_line_count,), total),
            0 < rows <= total,
            low <= high <= physical_line_count,
            reaches(visible_prefix, high, rows),
            forall|i: usize, a: usize|
                i < low && call_ensures(visible_prefix, (i,), a) ==> a < rows,
            low > 0 ==> call_ensures(visible_prefix, ((low - 1) as usize,), below) && below < rows,
        decreases high - low,
    {
        let middle = low + (high - low) / 2;
        let shown = visible_prefix(middle);
        if shown >= rows {
            high = middle;
        } else {
            low = middle + 1;
            proof {
                below = shown;
            }
        }
    }
    proof {
        assert forall|other: usize|
            call_ensures(visible_prefix, (physical_line_count,), other) implies other == total by {
            assert(other <= total && total <= other);
        }
    }
    low
}

/// Which side of a boundary a position belongs to.
#[derive(Clone, Copy, Debug, PartialEq, Eq, Structural)]
pub enum Bias {
    Before,
    After,
}

/// The side of a marker pair a hidden marker is on.
#[derive(Clone, Copy, Debug, PartialEq, Eq, Structural)]
pub enum MarkerEdge {
    Opening,
    Closing,
}

/// One segment of a presented line's source map: the visual range it
/// covers, whether it is hidden markup, and which marker edge it is, if
/// any.
#[derive(Clone, Copy, Debug, PartialEq, Eq, Structural)]
pub struct VisualSegment {
    pub visual_start: usize,
    pub visual_end: usize,
    pub hidden_markup: bool,
    pub marker_edge: Option<MarkerEdge>,
}

/// A hidden opening marker collapsed to the point `offset`.
pub open spec fn opening_marker_at(segment: VisualSegment, offset: usize) -> bool {
    &&& segment.visual_start == offset
    &&& segment.visual_end == offset
    &&& segment.hidden_markup
    &&& segment.marker_edge == Some(MarkerEdge::Opening)
}

/// Where a click exactly on a collapsed boundary of a presented line belongs.
/// On the leading edge of the clicked row's fragment (not at the start of
/// the line) it belongs to what the row opens with; on its trailing edge
/// (not at the end of the line) to what the row closes with. Otherwise a
/// hidden opening marker collapsed there draws it after the marker, and
/// anything else before.
pub fn collapsed_boundary_bias(
    visual_text_len: usize,
    segments: &Vec<VisualSegment>,
    visual_offset: usize,
    fragment: Option<&std::ops::Range<usize>>,
) -> (r: Bias)
    ensures
        r == (if fragment matches Some(f) && f.start == visual_offset && visual_offset > 0 {
            Bias::After
        } else if fragment matches Some(f) && f.end == visual_offset && visual_offset
            < visual_text_len {
            Bias::Before
        } else if exists|i: int|
            0 <= i < segments@.len() && opening_marker_at(#[trigger] segments@[i], visual_offset) {
            Bias::After
        } else {
            Bias::Before
        }),
{
    if let Some(fragment) = fragment {
        if fragment.start == visual_offset && visual_offset > 0 {
            return Bias::After;
        }
        if fragment.end == visual_offset && visual_offset < visual_text_len {
            return Bias::Before;
        }
    }
    let mut i: usize = 0;
    while i < segments.len()
        invariant
            i <= segments.len(),
            !(fragment matches Some(f) && f.start == visual_offset && visual_offset > 0),
            !(fragment matches Some(f) && f.end == visual_offset && visual_offset < visual_text_len),
            forall|j: int| 0 <= j < i ==> !opening_marker_at(#[trigger] segments@[j], visual_offset),
        decreases segments.len() - i,
    {
        let segment = segments[i];
        if segment.visual_start == visual_offset && segment.visual_end == visual_offset
            && segment.hidden_markup && segment.marker_edge == Some(MarkerEdge::Opening) {
            proof {
                assert(opening_marker_at(segments@[i as int], visual_offset));
            }
            return Bias::After;
        }
        i = i + 1;
    }
    Bias::Before
}

} // verus!
