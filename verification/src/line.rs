//! Line tracing between two grid coordinates.

use bresenham::Bresenham;
use vstd::prelude::*;

verus! {

/// A cell address on the integer grid: `(x, y)`, with `y` growing upward.
pub type Coord2D = (isize, isize);

/// Largest magnitude of a coordinate that the tracer accepts. Within it none
/// of the tracer's differences, sums and negations of coordinates can leave
/// an `isize`, and the longest path, of twice the limit and one cells, stays
/// well below what a `Vec` can hold, on 32-bit and 64-bit targets alike.
pub const COORD_LIMIT: isize = 0x100_0000;

/// Both components of `p` lie within `COORD_LIMIT` of the origin.
pub open spec fn in_range(p: Coord2D) -> bool {
    &&& -COORD_LIMIT <= p.0 <= COORD_LIMIT
    &&& -COORD_LIMIT <= p.1 <= COORD_LIMIT
}

/// Tells whether `p` may be handed to the tracer.
pub fn within_limit(p: Coord2D) -> (ok: bool)
    ensures
        ok == in_range(p),
{
    -COORD_LIMIT <= p.0 && p.0 <= COORD_LIMIT && -COORD_LIMIT <= p.1 && p.1 <= COORD_LIMIT
}

/// Two cells are neighbours: neither coordinate differs by more than one.
pub open spec fn adjacent(a: Coord2D, b: Coord2D) -> bool {
    &&& -1 <= a.0 - b.0 <= 1
    &&& -1 <= a.1 - b.1 <= 1
}

/// Every cell of `path` is a neighbour of the next: the path has no gaps.
pub open spec fn connected(path: Seq<Coord2D>) -> bool {
    forall|i: int| 0 <= i < path.len() - 1 ==> adjacent(#[trigger] path[i], path[i + 1])
}

/// The points that `bresenham::Bresenham::new(start, end)` yields, in order.
pub uninterp spec fn bresenham_path(start: (isize, isize), end: (isize, isize)) -> Seq<(isize, isize)>;

/// The cells of the segment from `start` to `end`, in drawing order: the
/// traced path followed by `end` itself.
pub open spec fn line_path(start: Coord2D, end: Coord2D) -> Seq<Coord2D> {
    bresenham_path(start, end).push(end)
}

/// The cells of the segment from `start` to `end`, as a set: the traced path
/// together with both endpoints.
pub open spec fn line_cells(start: Coord2D, end: Coord2D) -> Set<Coord2D> {
    bresenham_path(start, end).to_set().insert(start).insert(end)
}

/// Both endpoints of a segment are among its cells.
pub proof fn lemma_line_cells_endpoints(start: Coord2D, end: Coord2D)
    ensures
        line_cells(start, end).contains(start),
        line_cells(start, end).contains(end),
{
}

/// Collects the iterator `bresenham::Bresenham::new(start, end)`.
///
/// Trusted, not proved: the result is a function of the two arguments alone
/// (`bresenham_path`); as the crate documents, it begins with `start` and
/// leaves `end` out, so it is empty when the two coincide; and it is a line
/// without gaps, as each call of the iterator's `next` moves one coordinate by
/// one and the other by at most one, and stops one such step short of `end`.
/// The range demanded of the arguments keeps the crate's differences, sums
/// and negations of coordinates from overflowing.
#[verifier::external_body]
fn bresenham_steps(start: Coord2D, end: Coord2D) -> (steps: Vec<Coord2D>)
    requires
        in_range(start),
        in_range(end),
    ensures
        steps@ == bresenham_path(start, end),
        start == end ==> steps@.len() == 0,
        start != end ==> steps@.len() > 0 && steps@[0] == start,
        connected(steps@.push(end)),
{
    Bresenham::new(start, end).collect()
}

/// Traces the segment from `start` to `end` and returns its cells in drawing
/// order. Both endpoints are always part of the result, `start` first and
/// `end` last, and each cell is a neighbour of the next.
pub fn line_points(start: Coord2D, end: Coord2D) -> (points: Vec<Coord2D>)
    requires
        in_range(start),
        in_range(end),
    ensures
        points@ == line_path(start, end),
        points@.to_set() == line_cells(start, end),
        points@.first() == start,
        points@.last() == end,
        connected(points@),
        start == end ==> points@ == seq![start],
{
    let mut points = bresenham_steps(start, end);
    let ghost steps = points@;
    points.push(end);
    proof {
        steps.lemma_push_to_set_commute(end);
        if start != end {
            assert(steps.to_set().contains(steps[0]));
            assert(steps.to_set().insert(start) =~= steps.to_set());
        } else {
            assert(steps.to_set().insert(start).insert(end) =~= steps.to_set().insert(end));
        }
    }
    points
}

} // verus!
