//! What holds of tidying outlines and of cutting outlines and lines to a rectangle.

use crate::coords;
use crate::renderer::polygon;
use crate::renderer::polygon::ClipEdge;
use crate::scene::{Bounds, Point};
use vstd::prelude::*;

verus! {

/// Whether a corner is the first of a run of points that coincide with it, which goes on from where
/// the corner stands to where the next one does, and does not coincide with the corner before.
pub open spec fn starts_run(
    points: Seq<Point>,
    same: spec_fn(Point, Point) -> bool,
    corners: Seq<Point>,
    at: Seq<int>,
    j: int,
) -> bool {
    let end = if j + 1 < at.len() {
        at[j + 1]
    } else {
        points.len() as int
    };
    &&& 0 <= at[j] < end <= points.len()
    &&& corners[j] == points[at[j]]
    &&& j == 0 ==> at[j] == 0
    &&& j > 0 ==> !same(corners[j], corners[j - 1])
    &&& forall|i: int| at[j] < i < end ==> same(#[trigger] points[i], corners[j])
}

/// Whether the corners are what is left of points of which those are dropped that coincide with the
/// last one kept. `at` tells where each corner stands among the points.
pub open spec fn keeps_first_of_runs(
    points: Seq<Point>,
    same: spec_fn(Point, Point) -> bool,
    corners: Seq<Point>,
    at: Seq<int>,
) -> bool {
    &&& at.len() == corners.len()
    &&& (points.len() > 0 <==> corners.len() > 0)
    &&& forall|j: int| 0 <= j < at.len() ==> #[trigger] starts_run(points, same, corners, at, j)
}

/// Whether these are the corners of a closed outline through the points: of points in a row that
/// coincide the first one, and not the last one where it coincides with the first.
pub open spec fn is_tidying(
    points: Seq<Point>,
    same: spec_fn(Point, Point) -> bool,
    corners: Seq<Point>,
) -> bool {
    exists|kept: Seq<Point>, at: Seq<int>| #[trigger]
        keeps_first_of_runs(points, same, kept, at) && corners == (if kept.len() >= 2 && same(
            kept[0],
            kept[kept.len() - 1],
        ) {
            kept.subrange(0, kept.len() - 1)
        } else {
            kept
        })
}

proof fn lemma_runs(points: Seq<Point>, same: spec_fn(Point, Point) -> bool) -> (at: Seq<int>)
    ensures
        keeps_first_of_runs(points, same, polygon::thinned(points, same), at),
    decreases points.len(),
{
    let corners = polygon::thinned(points, same);
    if points.len() == 0 {
        Seq::empty()
    } else {
        let head = points.drop_last();
        let last = points.last();
        let n = head.len() as int;
        let before = lemma_runs(head, same);
        let kept = polygon::thinned(head, same);
        let dropped = kept.len() > 0 && same(last, kept.last());
        let at = if dropped {
            before
        } else {
            before.push(n)
        };
        assert forall|j: int| 0 <= j < at.len() implies #[trigger] starts_run(
            points,
            same,
            corners,
            at,
            j,
        ) by {
            if j < before.len() {
                assert(starts_run(head, same, kept, before, j));
                assert(at[j] == before[j]);
                assert(corners[j] == kept[j]);
                let end = if j + 1 < at.len() {
                    at[j + 1]
                } else {
                    points.len() as int
                };
                assert forall|i: int| at[j] < i < end implies same(
                    #[trigger] points[i],
                    corners[j],
                ) by {
                    if i < n {
                        assert(head[i] == points[i]);
                    }
                }
            }
        }
        at
    }
}

/// Tidying keeps of points in a row that coincide the first one, in order, and drops the last one
/// where it coincides with the first.
pub proof fn law_tidying(points: Seq<Point>, same: spec_fn(Point, Point) -> bool)
    ensures
        is_tidying(points, same, polygon::tidied(points, same)),
{
    let at = lemma_runs(points, same);
    let kept = polygon::thinned(points, same);
    if kept.len() >= 2 {
        assert(kept.drop_last() =~= kept.subrange(0, kept.len() - 1));
    }
    assert(keeps_first_of_runs(points, same, kept, at));
}

/// Whether a point is a number away from a side of a rectangle towards its inside, or on the side.
pub open spec fn lies_on_inner_side(side: ClipEdge, bounds: Bounds, p: Point) -> bool {
    match side {
        ClipEdge::MinX => coords::at_most(bounds.min_x, p.x),
        ClipEdge::MaxX => coords::at_most(p.x, bounds.max_x),
        ClipEdge::MinY => coords::at_most(bounds.min_y, p.y),
        ClipEdge::MaxY => coords::at_most(p.y, bounds.max_y),
    }
}

/// The corner before, going round.
pub open spec fn corner_before(corners: Seq<Point>, i: int) -> Point {
    if i == 0 {
        corners[corners.len() - 1]
    } else {
        corners[i - 1]
    }
}

/// One where the condition holds, else nought.
pub open spec fn one_if(condition: bool) -> int {
    if condition {
        1
    } else {
        0
    }
}

/// Whether what one side of a rectangle leaves of the edge to a corner stands from `at` to before
/// `end`: the point where the edge crosses the side, for every edge that crosses it either way, and
/// the corner where it is on the inner side.
pub open spec fn part_stands_at(
    side: ClipEdge,
    bounds: Bounds,
    meet: spec_fn(ClipEdge, Bounds, Point, Point) -> Point,
    a: Point,
    b: Point,
    left: Seq<Point>,
    at: int,
    end: int,
) -> bool {
    let crosses = lies_on_inner_side(side, bounds, a) != lies_on_inner_side(side, bounds, b);
    let stays = lies_on_inner_side(side, bounds, b);
    &&& 0 <= at <= end <= left.len()
    &&& end == at + one_if(crosses) + one_if(stays)
    &&& crosses ==> left[at] == meet(side, bounds, a, b)
    &&& stays ==> left[end - 1] == b
}

/// Whether the outline is what one side of a rectangle leaves of another: the parts of its edges,
/// in the order of going round. `at` tells where the part of each edge starts.
pub open spec fn is_cut_along(
    side: ClipEdge,
    bounds: Bounds,
    meet: spec_fn(ClipEdge, Bounds, Point, Point) -> Point,
    corners: Seq<Point>,
    count: nat,
    left: Seq<Point>,
    at: Seq<int>,
) -> bool {
    &&& at.len() == count + 1
    &&& at[0] == 0
    &&& at[count as int] == left.len()
    &&& forall|i: int|
        0 <= i < count ==> #[trigger] part_stands_at(
            side,
            bounds,
            meet,
            corner_before(corners, i),
            corners[i],
            left,
            at[i],
            at[i + 1],
        )
}

/// Whether the outline is what one side of a rectangle leaves of another.
pub open spec fn is_cut(
    side: ClipEdge,
    bounds: Bounds,
    meet: spec_fn(ClipEdge, Bounds, Point, Point) -> Point,
    corners: Seq<Point>,
    left: Seq<Point>,
) -> bool {
    exists|at: Seq<int>| is_cut_along(side, bounds, meet, corners, corners.len(), left, at)
}

proof fn lemma_cut_corners_along(
    side: ClipEdge,
    bounds: Bounds,
    meet: spec_fn(ClipEdge, Bounds, Point, Point) -> Point,
    corners: Seq<Point>,
    count: nat,
) -> (at: Seq<int>)
    requires
        count <= corners.len(),
    ensures
        is_cut_along(
            side,
            bounds,
            meet,
            corners,
            count,
            polygon::cut_corners(side, bounds, meet, corners, count),
            at,
        ),
    decreases count,
{
    if count == 0 {
        seq![0int]
    } else {
        let before = lemma_cut_corners_along(side, bounds, meet, corners, (count - 1) as nat);
        let head = polygon::cut_corners(side, bounds, meet, corners, (count - 1) as nat);
        let left = polygon::cut_corners(side, bounds, meet, corners, count);
        let at = before.push(left.len() as int);
        assert forall|i: int| 0 <= i < count implies #[trigger] part_stands_at(
            side,
            bounds,
            meet,
            corner_before(corners, i),
            corners[i],
            left,
            at[i],
            at[i + 1],
        ) by {
            if i < count - 1 {
                assert(part_stands_at(
                    side,
                    bounds,
                    meet,
                    corner_before(corners, i),
                    corners[i],
                    head,
                    before[i],
                    before[i + 1],
                ));
            }
        }
        at
    }
}

/// Cutting an outline along one side of a rectangle leaves every corner on the inner side and the
/// crossing point of every edge that crosses the side, whichever way, in the order of going round.
pub proof fn law_cutting_keeps_every_crossing(
    side: ClipEdge,
    bounds: Bounds,
    meet: spec_fn(ClipEdge, Bounds, Point, Point) -> Point,
    corners: Seq<Point>,
)
    ensures
        is_cut(
            side,
            bounds,
            meet,
            corners,
            polygon::cut_corners(side, bounds, meet, corners, corners.len()),
        ),
{
    let at = lemma_cut_corners_along(side, bounds, meet, corners, corners.len());
    assert(is_cut_along(
        side,
        bounds,
        meet,
        corners,
        corners.len(),
        polygon::cut_corners(side, bounds, meet, corners, corners.len()),
        at,
    ));
}

/// Whether one point comes right after the other, going round.
pub open spec fn follow_round(outline: Seq<Point>, a: Point, b: Point) -> bool {
    exists|k: int|
        0 <= k < outline.len() && #[trigger] outline[k] == a && outline[if k + 1 == outline.len() {
            0
        } else {
            k + 1
        }] == b
}

/// The part of each edge on the inner side of a side is an edge of what is left: from its start, or
/// from where it comes in, to its end, or to where it goes out.
pub proof fn law_inner_part_of_an_edge_stays(
    side: ClipEdge,
    bounds: Bounds,
    meet: spec_fn(ClipEdge, Bounds, Point, Point) -> Point,
    corners: Seq<Point>,
    i: int,
)
    requires
        0 <= i < corners.len(),
    ensures
        ({
            let left = polygon::cut_corners(side, bounds, meet, corners, corners.len());
            let a = corner_before(corners, i);
            let b = corners[i];
            let a_in = lies_on_inner_side(side, bounds, a);
            let b_in = lies_on_inner_side(side, bounds, b);
            &&& a_in && b_in ==> follow_round(left, a, b)
            &&& a_in && !b_in ==> follow_round(left, a, meet(side, bounds, a, b))
            &&& !a_in && b_in ==> follow_round(left, meet(side, bounds, a, b), b)
        }),
{
    let left = polygon::cut_corners(side, bounds, meet, corners, corners.len());
    let at = lemma_cut_corners_along(side, bounds, meet, corners, corners.len());
    let n = corners.len() as int;
    let a = corner_before(corners, i);
    let b = corners[i];
    let a_in = lies_on_inner_side(side, bounds, a);
    let b_in = lies_on_inner_side(side, bounds, b);
    assert(part_stands_at(side, bounds, meet, a, b, left, at[i], at[i + 1]));
    if a_in {
        let h = if i == 0 {
            n - 1
        } else {
            i - 1
        };
        assert(part_stands_at(
            side,
            bounds,
            meet,
            corner_before(corners, h),
            corners[h],
            left,
            at[h],
            at[h + 1],
        ));
        let k = at[h + 1] - 1;
        assert(left[k] == a);
        if i == 0 {
            assert(k + 1 == left.len());
            assert(at[0] == 0);
        } else {
            assert(k + 1 == at[i]);
            assert(k + 1 < left.len());
        }
    } else if b_in {
        let k = at[i];
        assert(left[k] == meet(side, bounds, a, b));
        assert(left[k + 1] == b);
    }
}

/// Whether the outline is what a rectangle leaves of another: what is left along its left side of
/// that, along its right side of what is left then, and so on along the lower and the upper side.
pub open spec fn is_cut_to_rectangle(
    bounds: Bounds,
    meet: spec_fn(ClipEdge, Bounds, Point, Point) -> Point,
    corners: Seq<Point>,
    left: Seq<Point>,
) -> bool {
    exists|x: Seq<Point>, y: Seq<Point>, z: Seq<Point>|
        is_cut(ClipEdge::MinX, bounds, meet, corners, x) && #[trigger] is_cut(
            ClipEdge::MaxX,
            bounds,
            meet,
            x,
            y,
        ) && is_cut(ClipEdge::MinY, bounds, meet, y, z) && #[trigger] is_cut(
            ClipEdge::MaxY,
            bounds,
            meet,
            z,
            left,
        )
}

/// What is left of an outline in a rectangle: its tidied corners, if there are three at least, cut
/// along all four sides and tidied again.
pub proof fn law_cutting_to_a_rectangle(
    points: Seq<Point>,
    bounds: Bounds,
    same: spec_fn(Point, Point) -> bool,
    meet: spec_fn(ClipEdge, Bounds, Point, Point) -> Point,
)
    ensures
        ({
            let result = polygon::cut_polygon(points, bounds, same, meet);
            exists|corners: Seq<Point>| #[trigger]
                is_tidying(points, same, corners) && (if corners.len() < 3 {
                    result.len() == 0
                } else {
                    exists|left: Seq<Point>| #[trigger]
                        is_cut_to_rectangle(bounds, meet, corners, left) && is_tidying(
                            left,
                            same,
                            result,
                        )
                })
        }),
{
    let corners = polygon::tidied(points, same);
    law_tidying(points, same);
    let x = polygon::cut_corners(ClipEdge::MinX, bounds, meet, corners, corners.len());
    let y = polygon::cut_corners(ClipEdge::MaxX, bounds, meet, x, x.len());
    let z = polygon::cut_corners(ClipEdge::MinY, bounds, meet, y, y.len());
    let left = polygon::cut_corners(ClipEdge::MaxY, bounds, meet, z, z.len());
    law_cutting_keeps_every_crossing(ClipEdge::MinX, bounds, meet, corners);
    law_cutting_keeps_every_crossing(ClipEdge::MaxX, bounds, meet, x);
    law_cutting_keeps_every_crossing(ClipEdge::MinY, bounds, meet, y);
    law_cutting_keeps_every_crossing(ClipEdge::MaxY, bounds, meet, z);
    law_tidying(left, same);
    let result = polygon::cut_polygon(points, bounds, same, meet);
    assert(is_tidying(points, same, corners));
    if corners.len() >= 3 {
        assert(is_cut_to_rectangle(bounds, meet, corners, left));
        assert(is_tidying(left, same, result));
    }
}

/// Going round an outline, every corner is the start of one edge and the end of one: each edge ends
/// where the next one starts, and the last where the first starts.
pub proof fn law_edges_go_round(corners: Seq<Point>, i: int)
    requires
        corners.len() >= 2,
        0 <= i < corners.len(),
    ensures
        ({
            let edges = polygon::ring_edges(corners);
            &&& edges.len() == corners.len()
            &&& edges[i].0 == corners[i]
            &&& i + 1 < corners.len() ==> edges[i].1 == corners[i + 1]
            &&& i + 1 == corners.len() ==> edges[i].1 == corners[0]
        }),
{
}

/// One point alone has no edges.
pub proof fn law_no_edges(corners: Seq<Point>)
    requires
        corners.len() < 2,
    ensures
        polygon::ring_edges(corners).len() == 0,
        polygon::outline_lines(corners, true).len() == 0,
        polygon::outline_lines(corners, false).len() == 0,
{
}

/// The lines of an outline lead from each point to the next; a closed one of three points at least
/// comes back to the first.
pub proof fn law_lines_lead_on(points: Seq<Point>, closed: bool, i: int)
    requires
        points.len() >= 2,
    ensures
        ({
            let lines = polygon::outline_lines(points, closed);
            &&& lines.len() == points.len() - 1 + one_if(closed && points.len() >= 3)
            &&& 0 <= i < points.len() - 1 ==> lines[i].0 == points[i] && lines[i].1 == points[i + 1]
            &&& closed && points.len() >= 3 ==> lines.last().0 == points.last() && lines.last().1
                == points[0]
        }),
{
}

/// What is left of lines: of each the part that lies in the rectangle, in order, and nothing of one
/// that does not reach it. `at` tells where the part of each line stands.
pub open spec fn are_cut_lines(
    edges: Seq<(Point, Point)>,
    bounds: Bounds,
    cut: spec_fn(Bounds, Point, Point) -> Option<(Point, Point)>,
    left: Seq<(Point, Point)>,
    at: Seq<int>,
) -> bool {
    &&& at.len() == edges.len() + 1
    &&& at[0] == 0
    &&& at[edges.len() as int] == left.len()
    &&& forall|i: int|
        #![trigger edges[i]]
        0 <= i < edges.len() ==> {
            let part = cut(bounds, edges[i].0, edges[i].1);
            &&& 0 <= at[i] <= at[i + 1] <= left.len()
            &&& at[i + 1] == at[i] + one_if(part is Some)
            &&& part matches Some(line) ==> left[at[i]] == line
        }
}

/// Cutting lines keeps the part of each that lies in the rectangle, in order.
pub proof fn law_cutting_lines(
    edges: Seq<(Point, Point)>,
    bounds: Bounds,
    cut: spec_fn(Bounds, Point, Point) -> Option<(Point, Point)>,
)
    ensures
        exists|at: Seq<int>|
            are_cut_lines(edges, bounds, cut, polygon::cut_edges(edges, bounds, cut), at),
{
    let at = lemma_cut_lines(edges, bounds, cut);
    assert(are_cut_lines(edges, bounds, cut, polygon::cut_edges(edges, bounds, cut), at));
}

proof fn lemma_cut_lines(
    edges: Seq<(Point, Point)>,
    bounds: Bounds,
    cut: spec_fn(Bounds, Point, Point) -> Option<(Point, Point)>,
) -> (at: Seq<int>)
    ensures
        are_cut_lines(edges, bounds, cut, polygon::cut_edges(edges, bounds, cut), at),
    decreases edges.len(),
{
    if edges.len() == 0 {
        seq![0int]
    } else {
        let init = edges.drop_last();
        let before = lemma_cut_lines(init, bounds, cut);
        let head = polygon::cut_edges(init, bounds, cut);
        let left = polygon::cut_edges(edges, bounds, cut);
        let at = before.push(left.len() as int);
        assert forall|i: int|
            #![trigger edges[i]]
            0 <= i < edges.len() implies {
            let part = cut(bounds, edges[i].0, edges[i].1);
            &&& 0 <= at[i] <= at[i + 1] <= left.len()
            &&& at[i + 1] == at[i] + one_if(part is Some)
            &&& part matches Some(line) ==> left[at[i]] == line
        } by {
            assert(at[i] == before[i]);
            if i < init.len() {
                assert(init[i] == edges[i]);
                assert(at[i + 1] == before[i + 1]);
            }
        }
        at
    }
}

} // verus!
