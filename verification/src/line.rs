//! Straight lines between two cells.

use vstd::prelude::*;
use crate::grid::Point;

verus! {

/// The furthest from the origin, along either axis, that an end of a line may
/// lie.
pub const LINE_REACH: i32 = 0x10_0000;

/// Whether `p` lies within [`LINE_REACH`] of the origin.
pub open spec fn line_end(p: Point) -> bool {
    -LINE_REACH <= p.x <= LINE_REACH && -LINE_REACH <= p.y <= LINE_REACH
}

/// The points, as pairs of a column and a row, that
/// `line2d(LineAlg::Bresenham, ..)` of `bracket_lib` gives for the line from
/// `(x0, y0)` to `(x1, y1)`.
pub uninterp spec fn bresenham_points(x0: int, y0: int, x1: int, y1: int) -> Seq<(int, int)>;

/// Whether `points` is the line from `start` to `end`.
pub open spec fn is_line(points: Seq<Point>, start: Point, end: Point) -> bool {
    let line = bresenham_points(start.x as int, start.y as int, end.x as int, end.y as int);
    &&& points.len() == line.len()
    &&& forall|k: int|
        0 <= k < points.len() ==> (#[trigger] points[k]).x == line[k].0 && points[k].y == line[k].1
}

/// The line from `start` to `end`, as points.
pub open spec fn spec_line(start: Point, end: Point) -> Seq<Point> {
    let line = bresenham_points(start.x as int, start.y as int, end.x as int, end.y as int);
    Seq::new(line.len(), |k: int| Point { x: line[k].0 as i32, y: line[k].1 as i32 })
}

/// There is one line from a point to another.
pub proof fn lemma_line_is_one(points: Seq<Point>, start: Point, end: Point)
    requires
        is_line(points, start, end),
    ensures
        points == spec_line(start, end),
{
    assert forall|k: int| 0 <= k < points.len() implies points[k] == spec_line(start, end)[k] by {
        let _ = points[k];
    }
    assert(points =~= spec_line(start, end));
}

/// Calls `line2d` of `bracket_lib` with `LineAlg::Bresenham`. The outside
/// function walks Bresenham's line from `start` up to, but not onto, `end`,
/// and then appends `end`. The contract names the points, and claims of them
/// only that there is a last one and that it is `end`. It leaves out ends so
/// far apart that the line's arithmetic could overflow.
#[verifier::external_body]
pub(crate) fn line2d_bresenham(start: Point, end: Point) -> (points: Vec<Point>)
    requires
        line_end(start),
        line_end(end),
    ensures
        points@.len() == bresenham_points(
            start.x as int,
            start.y as int,
            end.x as int,
            end.y as int,
        ).len(),
        forall|k: int|
            0 <= k < points@.len() ==> (#[trigger] points@[k]).x == bresenham_points(
                start.x as int,
                start.y as int,
                end.x as int,
                end.y as int,
            )[k].0 && points@[k].y == bresenham_points(
                start.x as int,
                start.y as int,
                end.x as int,
                end.y as int,
            )[k].1,
        points@.len() >= 1,
        points@[points@.len() - 1] == end,
{
    bracket_lib::prelude::line2d(
        bracket_lib::prelude::LineAlg::Bresenham,
        bracket_lib::prelude::Point::new(start.x, start.y),
        bracket_lib::prelude::Point::new(end.x, end.y),
    ).into_iter().map(|p| Point { x: p.x, y: p.y }).collect()
}

} // verus!
