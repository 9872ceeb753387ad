//! Outlines: tidying, cutting to a rectangle, splitting into triangles, thinning.
//!
//! Which points are taken, and in what order, is decided here. What takes arithmetic on
//! coordinates is asked of the caller: whether two points coincide, where an edge crosses a line,
//! which way a corner turns.

use crate::coords;
use crate::coords::key_at_most;
use crate::scene::{Bounds, Point};
use crate::seqs;
use vstd::prelude::*;

verus! {

/// Whether the function answers every pair of points, and as `same` says.
pub open spec fn decides_near<N: Fn(Point, Point) -> bool>(
    near: &N,
    same: spec_fn(Point, Point) -> bool,
) -> bool {
    &&& forall|a: Point, b: Point| #[trigger] near.requires((a, b))
    &&& forall|a: Point, b: Point, r: bool| #[trigger]
        near.ensures((a, b), r) ==> r == same(a, b)
}

/// The points without those that coincide with the last one kept.
pub open spec fn thinned(points: Seq<Point>, same: spec_fn(Point, Point) -> bool) -> Seq<Point>
    decreases points.len(),
{
    if points.len() == 0 {
        Seq::empty()
    } else {
        let kept = thinned(points.drop_last(), same);
        if kept.len() > 0 && same(points.last(), kept.last()) {
            kept
        } else {
            kept.push(points.last())
        }
    }
}

/// The corners of a closed outline: no corner coincides with the one before, the last not with
/// the first.
pub open spec fn tidied(points: Seq<Point>, same: spec_fn(Point, Point) -> bool) -> Seq<Point> {
    let kept = thinned(points, same);
    if kept.len() >= 2 && same(kept.first(), kept.last()) {
        kept.drop_last()
    } else {
        kept
    }
}

/// The corners of a closed outline: no corner coincides with the one before, the last not with
/// the first.
pub fn normalized_closed_points<N: Fn(Point, Point) -> bool>(points: &[Point], near: &N) -> (corners:
    Vec<Point>)
    requires
        forall|a: Point, b: Point| #[trigger] near.requires((a, b)),
    ensures
        corners@.len() <= points@.len(),
        forall|same: spec_fn(Point, Point) -> bool| #[trigger]
            decides_near(near, same) ==> corners@ == tidied(points@, same),
{
    let mut corners: Vec<Point> = Vec::new();
    let mut i: usize = 0;
    while i < points.len()
        invariant
            i <= points@.len(),
            forall|a: Point, b: Point| #[trigger] near.requires((a, b)),
            corners@.len() <= i,
            forall|same: spec_fn(Point, Point) -> bool| #[trigger]
                decides_near(near, same) ==> corners@ == thinned(points@.take(i as int), same),
        decreases points@.len() - i,
    {
        let point = points[i];
        let ghost before = corners@;
        let repeated = if corners.len() > 0 {
            near(point, corners[corners.len() - 1])
        } else {
            false
        };
        if !repeated {
            corners.push(point);
        }
        proof {
            let head = points@.take(i + 1);
            assert(head.drop_last() =~= points@.take(i as int));
            assert(head.last() == point);
            assert forall|same: spec_fn(Point, Point) -> bool| #[trigger]
                decides_near(near, same) implies corners@ == thinned(head, same) by {
                assert(before == thinned(points@.take(i as int), same));
                if before.len() > 0 {
                    assert(repeated == same(point, before.last()));
                }
            }
        }
        i += 1;
    }
    proof {
        assert(points@.take(points@.len() as int) =~= points@);
    }
    let ghost kept = corners@;
    if corners.len() >= 2 {
        let closes = near(corners[0], corners[corners.len() - 1]);
        if closes {
            corners.pop();
        }
        proof {
            assert forall|same: spec_fn(Point, Point) -> bool| #[trigger]
                decides_near(near, same) implies corners@ == tidied(points@, same) by {
                assert(kept == thinned(points@, same));
                assert(closes == same(kept.first(), kept.last()));
                assert(closes ==> corners@ =~= kept.drop_last());
            }
        }
    }
    corners
}

/// In a tidied outline no corner coincides with the one before it.
pub proof fn law_tidied_corners_differ(points: Seq<Point>, same: spec_fn(Point, Point) -> bool, i: int)
    requires
        0 < i < tidied(points, same).len(),
    ensures
        !same(tidied(points, same)[i], tidied(points, same)[i - 1]),
{
    lemma_thinned_neighbours(points, same, i);
}

proof fn lemma_thinned_neighbours(
    points: Seq<Point>,
    same: spec_fn(Point, Point) -> bool,
    i: int,
)
    requires
        0 < i < thinned(points, same).len(),
    ensures
        !same(thinned(points, same)[i], thinned(points, same)[i - 1]),
    decreases points.len(),
{
    if points.len() > 0 {
        let kept = thinned(points.drop_last(), same);
        if i < kept.len() {
            lemma_thinned_neighbours(points.drop_last(), same, i);
        }
    }
}

/// Every corner of a tidied outline is one of the points.
pub proof fn law_tidied_keeps_points(
    points: Seq<Point>,
    same: spec_fn(Point, Point) -> bool,
    corner: Point,
)
    requires
        tidied(points, same).contains(corner),
    ensures
        points.contains(corner),
{
    let kept = thinned(points, same);
    let at = choose|k: int| 0 <= k < tidied(points, same).len() && tidied(points, same)[k] == corner;
    assert(kept[at] == corner);
    assert(kept.contains(corner));
    lemma_thinned_contains(points, same, corner);
}

proof fn lemma_thinned_contains(
    points: Seq<Point>,
    same: spec_fn(Point, Point) -> bool,
    corner: Point,
)
    requires
        thinned(points, same).contains(corner),
    ensures
        points.contains(corner),
    decreases points.len(),
{
    if points.len() > 0 {
        let head = points.drop_last();
        let kept = thinned(head, same);
        seqs::lemma_push_contains(kept, points.last(), corner);
        if kept.contains(corner) {
            lemma_thinned_contains(head, same, corner);
            let k = choose|k: int| 0 <= k < head.len() && head[k] == corner;
            assert(points[k] == corner);
        } else {
            assert(points[points.len() - 1] == corner);
        }
    }
}

/// The edges of the closed outline through these corners.
pub open spec fn ring_edges(corners: Seq<Point>) -> Seq<(Point, Point)> {
    if corners.len() < 2 {
        Seq::empty()
    } else {
        Seq::new(
            corners.len(),
            |i: int| (corners[i], corners[if i + 1 == corners.len() { 0 } else { i + 1 }]),
        )
    }
}

/// The edges of a closed outline, which is tidied first.
pub fn closed_segments<N: Fn(Point, Point) -> bool>(points: &[Point], near: &N) -> (segments: Vec<
    (Point, Point),
>)
    requires
        forall|a: Point, b: Point| #[trigger] near.requires((a, b)),
    ensures
        forall|same: spec_fn(Point, Point) -> bool| #[trigger]
            decides_near(near, same) ==> segments@ == ring_edges(tidied(points@, same)),
{
    let corners = normalized_closed_points(points, near);
    let mut segments: Vec<(Point, Point)> = Vec::new();
    if corners.len() < 2 {
        assert(segments@ =~= ring_edges(corners@));
        return segments;
    }
    let mut i: usize = 0;
    while i < corners.len()
        invariant
            i <= corners@.len(),
            corners@.len() >= 2,
            segments@ == ring_edges(corners@).take(i as int),
        decreases corners@.len() - i,
    {
        let next: usize = if i + 1 == corners.len() {
            0
        } else {
            i + 1
        };
        segments.push((corners[i], corners[next]));
        assert(segments@ =~= ring_edges(corners@).take(i + 1));
        i += 1;
    }
    assert(segments@ =~= ring_edges(corners@));
    segments
}

/// The lines from each point to the next, and, of a closed outline with at least three points,
/// the one back to the first.
pub open spec fn outline_lines(points: Seq<Point>, closed: bool) -> Seq<(Point, Point)> {
    let steps = Seq::new(
        (if points.len() == 0 {
            0
        } else {
            points.len() - 1
        }) as nat,
        |i: int| (points[i], points[i + 1]),
    );
    if closed && points.len() >= 3 {
        steps.push((points.last(), points.first()))
    } else {
        steps
    }
}

/// The lines from each point to the next, and, of a closed outline with at least three points,
/// the one back to the first.
pub fn outline_segments(points: &[Point], closed: bool) -> (segments: Vec<(Point, Point)>)
    ensures
        segments@ == outline_lines(points@, closed),
{
    let mut segments: Vec<(Point, Point)> = Vec::new();
    let mut i: usize = 1;
    while i < points.len()
        invariant
            1 <= i,
            i <= points@.len() || i == 1,
            segments@.len() == i - 1,
            forall|k: int| 0 <= k < i - 1 ==> #[trigger] segments@[k] == (points@[k], points@[k + 1]),
        decreases points@.len() - i,
    {
        segments.push((points[i - 1], points[i]));
        i += 1;
    }
    if closed && points.len() >= 3 {
        segments.push((points[points.len() - 1], points[0]));
    }
    assert(segments@ =~= outline_lines(points@, closed));
    segments
}

/// Whether the function answers every edge, and as `cut` says.
pub open spec fn decides_clip<C: Fn(Bounds, Point, Point) -> Option<(Point, Point)>>(
    clip: &C,
    cut: spec_fn(Bounds, Point, Point) -> Option<(Point, Point)>,
) -> bool {
    &&& forall|r: Bounds, a: Point, b: Point| #[trigger] clip.requires((r, a, b))
    &&& forall|r: Bounds, a: Point, b: Point, left: Option<(Point, Point)>| #[trigger]
        clip.ensures((r, a, b), left) ==> left == cut(r, a, b)
}

/// What is left of each edge, in order, without those of which nothing is left.
pub open spec fn cut_edges(
    edges: Seq<(Point, Point)>,
    bounds: Bounds,
    cut: spec_fn(Bounds, Point, Point) -> Option<(Point, Point)>,
) -> Seq<(Point, Point)>
    decreases edges.len(),
{
    if edges.len() == 0 {
        Seq::empty()
    } else {
        let rest = cut_edges(edges.drop_last(), bounds, cut);
        match cut(bounds, edges.last().0, edges.last().1) {
            Some(left) => rest.push(left),
            None => rest,
        }
    }
}

/// What is left of each segment, in order, without those of which nothing is left.
pub fn clipped_segments<C: Fn(Bounds, Point, Point) -> Option<(Point, Point)>>(
    segments: &[(Point, Point)],
    bounds: Bounds,
    clip: &C,
) -> (left: Vec<(Point, Point)>)
    requires
        forall|r: Bounds, a: Point, b: Point| #[trigger] clip.requires((r, a, b)),
    ensures
        left@.len() <= segments@.len(),
        forall|cut: spec_fn(Bounds, Point, Point) -> Option<(Point, Point)>| #[trigger]
            decides_clip(clip, cut) ==> left@ == cut_edges(segments@, bounds, cut),
{
    let mut left: Vec<(Point, Point)> = Vec::new();
    let mut i: usize = 0;
    while i < segments.len()
        invariant
            i <= segments@.len(),
            left@.len() <= i,
            forall|r: Bounds, a: Point, b: Point| #[trigger] clip.requires((r, a, b)),
            forall|cut: spec_fn(Bounds, Point, Point) -> Option<(Point, Point)>| #[trigger]
                decides_clip(clip, cut) ==> left@ == cut_edges(segments@.take(i as int), bounds, cut),
        decreases segments@.len() - i,
    {
        let segment = segments[i];
        let ghost before = left@;
        let piece = clip(bounds, segment.0, segment.1);
        if let Some(found) = piece {
            left.push(found);
        }
        proof {
            let head = segments@.take(i + 1);
            assert(head.drop_last() =~= segments@.take(i as int));
            assert(head.last() == segment);
            assert forall|cut: spec_fn(Bounds, Point, Point) -> Option<(Point, Point)>| #[trigger]
                decides_clip(clip, cut) implies left@ == cut_edges(head, bounds, cut) by {
                assert(before == cut_edges(segments@.take(i as int), bounds, cut));
                assert(piece == cut(bounds, segment.0, segment.1));
            }
        }
        i += 1;
    }
    proof {
        assert(segments@.take(segments@.len() as int) =~= segments@);
    }
    left
}

/// The parts of the edges of a closed outline that lie in a rectangle.
pub fn clipped_closed_outline_segments<
    N: Fn(Point, Point) -> bool,
    C: Fn(Bounds, Point, Point) -> Option<(Point, Point)>,
>(points: &[Point], bounds: Bounds, near: &N, clip: &C) -> (left: Vec<(Point, Point)>)
    requires
        forall|a: Point, b: Point| #[trigger] near.requires((a, b)),
        forall|r: Bounds, a: Point, b: Point| #[trigger] clip.requires((r, a, b)),
    ensures
        forall|
            same: spec_fn(Point, Point) -> bool,
            cut: spec_fn(Bounds, Point, Point) -> Option<(Point, Point)>,
        | #[trigger]
            decides_near(near, same) && #[trigger] decides_clip(clip, cut) ==> left@ == cut_edges(
                ring_edges(tidied(points@, same)),
                bounds,
                cut,
            ),
{
    let segments = closed_segments(points, near);
    clipped_segments(&segments, bounds, clip)
}

/// A side of a rectangle.
#[derive(Debug, Clone, Copy, PartialEq, Eq, Structural)]
pub enum ClipEdge {
    MinX,
    MaxX,
    MinY,
    MaxY,
}

/// Whether the point lies on the inner side of a side of the rectangle, or on it.
pub open spec fn is_inside(edge: ClipEdge, bounds: Bounds, p: Point) -> bool {
    match edge {
        ClipEdge::MinX => coords::at_most(bounds.min_x, p.x),
        ClipEdge::MaxX => coords::at_most(p.x, bounds.max_x),
        ClipEdge::MinY => coords::at_most(bounds.min_y, p.y),
        ClipEdge::MaxY => coords::at_most(p.y, bounds.max_y),
    }
}

/// Whether the point lies on the inner side of a side of the rectangle, or on it.
pub fn inside_edge(edge: ClipEdge, bounds: Bounds, p: Point) -> (inside: bool)
    ensures
        inside == is_inside(edge, bounds, p),
{
    match edge {
        ClipEdge::MinX => key_at_most(bounds.min_x, p.x),
        ClipEdge::MaxX => key_at_most(p.x, bounds.max_x),
        ClipEdge::MinY => key_at_most(bounds.min_y, p.y),
        ClipEdge::MaxY => key_at_most(p.y, bounds.max_y),
    }
}

/// Whether the function answers every side and edge, and as `meet` says.
pub open spec fn decides_cross<X: Fn(ClipEdge, Bounds, Point, Point) -> Point>(
    cross: &X,
    meet: spec_fn(ClipEdge, Bounds, Point, Point) -> Point,
) -> bool {
    &&& forall|e: ClipEdge, r: Bounds, a: Point, b: Point| #[trigger] cross.requires((e, r, a, b))
    &&& forall|e: ClipEdge, r: Bounds, a: Point, b: Point, at: Point| #[trigger]
        cross.ensures((e, r, a, b), at) ==> at == meet(e, r, a, b)
}

/// What the edge from `previous` to `current` leaves on the inner side.
pub open spec fn edge_piece(
    edge: ClipEdge,
    bounds: Bounds,
    meet: spec_fn(ClipEdge, Bounds, Point, Point) -> Point,
    previous: Point,
    current: Point,
) -> Seq<Point> {
    match (is_inside(edge, bounds, previous), is_inside(edge, bounds, current)) {
        (true, true) => seq![current],
        (true, false) => seq![meet(edge, bounds, previous, current)],
        (false, true) => seq![meet(edge, bounds, previous, current), current],
        (false, false) => Seq::empty(),
    }
}

/// What the first `count` edges leave, the first of which comes from the last corner.
pub open spec fn cut_corners(
    edge: ClipEdge,
    bounds: Bounds,
    meet: spec_fn(ClipEdge, Bounds, Point, Point) -> Point,
    corners: Seq<Point>,
    count: nat,
) -> Seq<Point>
    decreases count,
{
    if count == 0 {
        Seq::empty()
    } else {
        let previous = if count == 1 {
            corners.last()
        } else {
            corners[count - 2]
        };
        cut_corners(edge, bounds, meet, corners, (count - 1) as nat) + edge_piece(
            edge,
            bounds,
            meet,
            previous,
            corners[count - 1],
        )
    }
}

/// What is left of a closed outline on the inner side of one side of a rectangle.
pub fn clip_polygon_against_edge<X: Fn(ClipEdge, Bounds, Point, Point) -> Point>(
    input: &[Point],
    edge: ClipEdge,
    bounds: Bounds,
    cross: &X,
) -> (output: Vec<Point>)
    requires
        forall|e: ClipEdge, r: Bounds, a: Point, b: Point| #[trigger] cross.requires((e, r, a, b)),
    ensures
        forall|meet: spec_fn(ClipEdge, Bounds, Point, Point) -> Point| #[trigger]
            decides_cross(cross, meet) ==> output@ == cut_corners(
                edge,
                bounds,
                meet,
                input@,
                input@.len(),
            ),
{
    let mut output: Vec<Point> = Vec::new();
    if input.len() == 0 {
        return output;
    }
    let mut previous = input[input.len() - 1];
    let mut previous_inside = inside_edge(edge, bounds, previous);
    let mut i: usize = 0;
    while i < input.len()
        invariant
            i <= input@.len(),
            input@.len() > 0,
            forall|e: ClipEdge, r: Bounds, a: Point, b: Point| #[trigger] cross.requires((e, r, a, b)),
            previous == (if i == 0 {
                input@.last()
            } else {
                input@[i - 1]
            }),
            previous_inside == is_inside(edge, bounds, previous),
            forall|meet: spec_fn(ClipEdge, Bounds, Point, Point) -> Point| #[trigger]
                decides_cross(cross, meet) ==> output@ == cut_corners(
                    edge,
                    bounds,
                    meet,
                    input@,
                    i as nat,
                ),
        decreases input@.len() - i,
    {
        let current = input[i];
        let current_inside = inside_edge(edge, bounds, current);
        let ghost before = output@;
        if previous_inside != current_inside {
            let crossing = cross(edge, bounds, previous, current);
            output.push(crossing);
            assert(cross.ensures((edge, bounds, previous, current), crossing));
        }
        if current_inside {
            output.push(current);
        }
        proof {
            assert forall|meet: spec_fn(ClipEdge, Bounds, Point, Point) -> Point| #[trigger]
                decides_cross(cross, meet) implies output@ == cut_corners(
                edge,
                bounds,
                meet,
                input@,
                (i + 1) as nat,
            ) by {
                assert(before == cut_corners(edge, bounds, meet, input@, i as nat));
                assert(output@ =~= before + edge_piece(edge, bounds, meet, previous, current));
            }
        }
        previous = current;
        previous_inside = current_inside;
        i += 1;
    }
    output
}

/// What is left of a closed outline in a rectangle: cut on the left, the right, the bottom and the
/// top, and tidied before and after. An outline with fewer than three corners leaves nothing.
pub open spec fn cut_polygon(
    points: Seq<Point>,
    bounds: Bounds,
    same: spec_fn(Point, Point) -> bool,
    meet: spec_fn(ClipEdge, Bounds, Point, Point) -> Point,
) -> Seq<Point> {
    let corners = tidied(points, same);
    if corners.len() < 3 {
        Seq::empty()
    } else {
        tidied(cut_sides(corners, bounds, meet), same)
    }
}

/// What the four sides of a rectangle leave of an outline.
pub open spec fn cut_sides(
    corners: Seq<Point>,
    bounds: Bounds,
    meet: spec_fn(ClipEdge, Bounds, Point, Point) -> Point,
) -> Seq<Point> {
    let left = cut_corners(ClipEdge::MinX, bounds, meet, corners, corners.len());
    let right = cut_corners(ClipEdge::MaxX, bounds, meet, left, left.len());
    let bottom = cut_corners(ClipEdge::MinY, bounds, meet, right, right.len());
    cut_corners(ClipEdge::MaxY, bounds, meet, bottom, bottom.len())
}

/// What is left of a closed outline in a rectangle.
pub fn clip_closed_polygon_to_bounds<
    N: Fn(Point, Point) -> bool,
    X: Fn(ClipEdge, Bounds, Point, Point) -> Point,
>(points: &[Point], bounds: Bounds, near: &N, cross: &X) -> (left: Vec<Point>)
    requires
        forall|a: Point, b: Point| #[trigger] near.requires((a, b)),
        forall|e: ClipEdge, r: Bounds, a: Point, b: Point| #[trigger] cross.requires((e, r, a, b)),
    ensures
        forall|
            same: spec_fn(Point, Point) -> bool,
            meet: spec_fn(ClipEdge, Bounds, Point, Point) -> Point,
        | #[trigger]
            decides_near(near, same) && #[trigger] decides_cross(cross, meet) ==> left@
                == cut_polygon(points@, bounds, same, meet),
{
    let corners = normalized_closed_points(points, near);
    if corners.len() < 3 {
        return Vec::new();
    }
    let after_left = clip_polygon_against_edge(&corners, ClipEdge::MinX, bounds, cross);
    let after_right = clip_polygon_against_edge(&after_left, ClipEdge::MaxX, bounds, cross);
    let after_bottom = clip_polygon_against_edge(&after_right, ClipEdge::MinY, bounds, cross);
    let after_top = clip_polygon_against_edge(&after_bottom, ClipEdge::MaxY, bounds, cross);
    normalized_closed_points(&after_top, near)
}

/// Whether crossing points lie on the side that is crossed, and between the ends of the edge.
pub open spec fn crosses_properly(
    bounds: Bounds,
    meet: spec_fn(ClipEdge, Bounds, Point, Point) -> Point,
) -> bool {
    &&& forall|e: ClipEdge, a: Point, b: Point| is_inside(e, bounds, #[trigger] meet(e, bounds, a, b))
    &&& forall|e: ClipEdge, other: ClipEdge, a: Point, b: Point|
        is_inside(other, bounds, a) && is_inside(other, bounds, b) ==> #[trigger] is_inside(
            other,
            bounds,
            meet(e, bounds, a, b),
        )
}

/// Whether all points lie on the inner side.
pub open spec fn all_inside(edge: ClipEdge, bounds: Bounds, points: Seq<Point>) -> bool {
    forall|i: int| 0 <= i < points.len() ==> is_inside(edge, bounds, #[trigger] points[i])
}

proof fn lemma_cut_corners_inside(
    edge: ClipEdge,
    bounds: Bounds,
    meet: spec_fn(ClipEdge, Bounds, Point, Point) -> Point,
    corners: Seq<Point>,
    count: nat,
    other: ClipEdge,
)
    requires
        crosses_properly(bounds, meet),
        count <= corners.len(),
        other == edge || all_inside(other, bounds, corners),
    ensures
        all_inside(other, bounds, cut_corners(edge, bounds, meet, corners, count)),
    decreases count,
{
    if count > 0 {
        lemma_cut_corners_inside(edge, bounds, meet, corners, (count - 1) as nat, other);
        let previous = if count == 1 {
            corners.last()
        } else {
            corners[count - 2]
        };
        let current = corners[count - 1];
        let head = cut_corners(edge, bounds, meet, corners, (count - 1) as nat);
        let piece = edge_piece(edge, bounds, meet, previous, current);
        assert forall|i: int| 0 <= i < (head + piece).len() implies is_inside(
            other,
            bounds,
            #[trigger] (head + piece)[i],
        ) by {
            if i < head.len() {
                assert((head + piece)[i] == head[i]);
            } else {
                assert((head + piece)[i] == piece[i - head.len()]);
                assert(is_inside(edge, bounds, meet(edge, bounds, previous, current)));
                if other != edge {
                    assert(is_inside(other, bounds, previous));
                    assert(is_inside(other, bounds, current));
                    assert(is_inside(other, bounds, meet(edge, bounds, previous, current)));
                }
            }
        }
    }
}

proof fn lemma_cut_corners_keeps(
    edge: ClipEdge,
    bounds: Bounds,
    meet: spec_fn(ClipEdge, Bounds, Point, Point) -> Point,
    corners: Seq<Point>,
    count: nat,
)
    requires
        count <= corners.len(),
        all_inside(edge, bounds, corners),
    ensures
        cut_corners(edge, bounds, meet, corners, count) == corners.take(count as int),
    decreases count,
{
    if count > 0 {
        lemma_cut_corners_keeps(edge, bounds, meet, corners, (count - 1) as nat);
        assert(corners.take(count as int) =~= corners.take(count - 1).push(corners[count - 1]));
        assert(is_inside(edge, bounds, corners.last()));
        assert(corners.take(count - 1) + seq![corners[count - 1]] =~= corners.take(count as int));
    } else {
        assert(corners.take(0) =~= Seq::<Point>::empty());
    }
}

/// What the sides of a rectangle leave of an outline lies in the rectangle, where the crossing
/// points lie on the side that is crossed and between the ends of the edge.
pub proof fn law_cut_outline_lies_inside(
    corners: Seq<Point>,
    bounds: Bounds,
    meet: spec_fn(ClipEdge, Bounds, Point, Point) -> Point,
    edge: ClipEdge,
)
    requires
        crosses_properly(bounds, meet),
    ensures
        all_inside(edge, bounds, cut_sides(corners, bounds, meet)),
{
    let left = cut_corners(ClipEdge::MinX, bounds, meet, corners, corners.len());
    let right = cut_corners(ClipEdge::MaxX, bounds, meet, left, left.len());
    let bottom = cut_corners(ClipEdge::MinY, bounds, meet, right, right.len());
    lemma_cut_corners_inside(ClipEdge::MinX, bounds, meet, corners, corners.len(), ClipEdge::MinX);
    lemma_cut_corners_inside(ClipEdge::MaxX, bounds, meet, left, left.len(), ClipEdge::MinX);
    lemma_cut_corners_inside(ClipEdge::MaxX, bounds, meet, left, left.len(), ClipEdge::MaxX);
    lemma_cut_corners_inside(ClipEdge::MinY, bounds, meet, right, right.len(), ClipEdge::MinX);
    lemma_cut_corners_inside(ClipEdge::MinY, bounds, meet, right, right.len(), ClipEdge::MaxX);
    lemma_cut_corners_inside(ClipEdge::MinY, bounds, meet, right, right.len(), ClipEdge::MinY);
    lemma_cut_corners_inside(ClipEdge::MaxY, bounds, meet, bottom, bottom.len(), edge);
}

/// An outline that lies in the rectangle is left as it is.
pub proof fn law_cutting_keeps_inner_outline(
    corners: Seq<Point>,
    bounds: Bounds,
    meet: spec_fn(ClipEdge, Bounds, Point, Point) -> Point,
)
    requires
        forall|edge: ClipEdge| #[trigger] all_inside(edge, bounds, corners),
    ensures
        cut_sides(corners, bounds, meet) == corners,
{
    assert(corners.take(corners.len() as int) =~= corners);
    assert(all_inside(ClipEdge::MinX, bounds, corners));
    assert(all_inside(ClipEdge::MaxX, bounds, corners));
    assert(all_inside(ClipEdge::MinY, bounds, corners));
    assert(all_inside(ClipEdge::MaxY, bounds, corners));
    lemma_cut_corners_keeps(ClipEdge::MinX, bounds, meet, corners, corners.len());
    lemma_cut_corners_keeps(ClipEdge::MaxX, bounds, meet, corners, corners.len());
    lemma_cut_corners_keeps(ClipEdge::MinY, bounds, meet, corners, corners.len());
    lemma_cut_corners_keeps(ClipEdge::MaxY, bounds, meet, corners, corners.len());
}

/// Which way an outline runs.
#[derive(Debug, Clone, Copy, PartialEq, Eq, Structural)]
pub enum Winding {
    CounterClockwise,
    Clockwise,
    /// The outline has no area.
    Flat,
}

/// Whether the functions answer every corner, and as `bulges` and `holds` say.
pub open spec fn decides_corners<
    B: Fn(usize, usize, usize) -> bool,
    H: Fn(usize, usize, usize, usize) -> bool,
>(
    convex: &B,
    inside: &H,
    bulges: spec_fn(usize, usize, usize) -> bool,
    holds: spec_fn(usize, usize, usize, usize) -> bool,
) -> bool {
    &&& forall|a: usize, b: usize, c: usize| #[trigger] convex.requires((a, b, c))
    &&& forall|p: usize, a: usize, b: usize, c: usize| #[trigger] inside.requires((p, a, b, c))
    &&& forall|a: usize, b: usize, c: usize, r: bool| #[trigger]
        convex.ensures((a, b, c), r) ==> r == bulges(a, b, c)
    &&& forall|p: usize, a: usize, b: usize, c: usize, r: bool| #[trigger]
        inside.ensures((p, a, b, c), r) ==> r == holds(p, a, b, c)
}

/// The corner before.
pub open spec fn corner_before(remaining: Seq<usize>, i: int) -> usize {
    if i == 0 {
        remaining[remaining.len() - 1]
    } else {
        remaining[i - 1]
    }
}

/// The corner after.
pub open spec fn corner_after(remaining: Seq<usize>, i: int) -> usize {
    if i + 1 == remaining.len() {
        remaining[0]
    } else {
        remaining[i + 1]
    }
}

/// Whether one of the first `count` corners, other than the three, lies in the triangle.
pub open spec fn obstructed(
    remaining: Seq<usize>,
    count: int,
    a: usize,
    b: usize,
    c: usize,
    holds: spec_fn(usize, usize, usize, usize) -> bool,
) -> bool {
    exists|k: int|
        0 <= k < count && #[trigger] remaining[k] != a && remaining[k] != b && remaining[k] != c
            && holds(remaining[k], a, b, c)
}

/// Whether the corner bulges and its triangle holds no other corner.
pub open spec fn is_ear(
    remaining: Seq<usize>,
    i: int,
    bulges: spec_fn(usize, usize, usize) -> bool,
    holds: spec_fn(usize, usize, usize, usize) -> bool,
) -> bool {
    let a = corner_before(remaining, i);
    let b = remaining[i];
    let c = corner_after(remaining, i);
    bulges(a, b, c) && !obstructed(remaining, remaining.len() as int, a, b, c, holds)
}

/// The first ear, or the number of corners where there is none.
pub open spec fn first_ear(
    remaining: Seq<usize>,
    bulges: spec_fn(usize, usize, usize) -> bool,
    holds: spec_fn(usize, usize, usize, usize) -> bool,
) -> int {
    seqs::least_from(0, remaining.len() as int, |i: int| is_ear(remaining, i, bulges, holds))
}

/// The triangles that are cut off, first ear first, until three corners are left.
pub open spec fn ears(
    remaining: Seq<usize>,
    bulges: spec_fn(usize, usize, usize) -> bool,
    holds: spec_fn(usize, usize, usize, usize) -> bool,
) -> Option<Seq<(usize, usize, usize)>>
    decreases remaining.len(),
{
    if remaining.len() <= 3 {
        if remaining.len() == 3 {
            Some(seq![(remaining[0], remaining[1], remaining[2])])
        } else {
            Some(Seq::empty())
        }
    } else {
        let i = first_ear(remaining, bulges, holds);
        if 0 <= i < remaining.len() {
            match ears(remaining.remove(i), bulges, holds) {
                Some(rest) => Some(
                    seq![
                        (corner_before(remaining, i), remaining[i], corner_after(remaining, i)),
                    ] + rest,
                ),
                None => None,
            }
        } else {
            None
        }
    }
}

/// The corners counted up, or down where the outline runs clockwise.
pub open spec fn running_order(count: nat, winding: Winding) -> Seq<usize> {
    Seq::new(
        count,
        |i: int|
            if winding is Clockwise {
                (count - 1 - i) as usize
            } else {
                i as usize
            },
    )
}

/// The triangles of an outline; none where it is flat, has fewer than three corners, or where at
/// some point no ear is left to cut.
pub open spec fn triangles_of(
    count: nat,
    winding: Winding,
    bulges: spec_fn(usize, usize, usize) -> bool,
    holds: spec_fn(usize, usize, usize, usize) -> bool,
) -> Option<Seq<(usize, usize, usize)>> {
    if count < 3 || winding is Flat {
        None
    } else {
        ears(running_order(count, winding), bulges, holds)
    }
}

/// Whether the corner is an ear.
fn check_ear<B: Fn(usize, usize, usize) -> bool, H: Fn(usize, usize, usize, usize) -> bool>(
    remaining: &Vec<usize>,
    i: usize,
    convex: &B,
    inside: &H,
) -> (ear: bool)
    requires
        i < remaining@.len(),
        remaining@.len() >= 3,
        forall|a: usize, b: usize, c: usize| #[trigger] convex.requires((a, b, c)),
        forall|p: usize, a: usize, b: usize, c: usize| #[trigger] inside.requires((p, a, b, c)),
    ensures
        forall|
            bulges: spec_fn(usize, usize, usize) -> bool,
            holds: spec_fn(usize, usize, usize, usize) -> bool,
        | #[trigger]
            decides_corners(convex, inside, bulges, holds) ==> ear == is_ear(
                remaining@,
                i as int,
                bulges,
                holds,
            ),
{
    let a: usize = if i == 0 {
        remaining[remaining.len() - 1]
    } else {
        remaining[i - 1]
    };
    let b: usize = remaining[i];
    let c: usize = if i == remaining.len() - 1 {
        remaining[0]
    } else {
        remaining[i + 1]
    };
    let bulging = convex(a, b, c);
    if !bulging {
        return false;
    }
    let mut k: usize = 0;
    while k < remaining.len()
        invariant
            k <= remaining@.len(),
            i < remaining@.len(),
            a == corner_before(remaining@, i as int),
            b == remaining@[i as int],
            c == corner_after(remaining@, i as int),
            bulging,
            convex.ensures((a, b, c), bulging),
            forall|p: usize, a: usize, b: usize, c: usize| #[trigger] inside.requires((p, a, b, c)),
            forall|
                bulges: spec_fn(usize, usize, usize) -> bool,
                holds: spec_fn(usize, usize, usize, usize) -> bool,
            | #[trigger]
                decides_corners(convex, inside, bulges, holds) ==> !obstructed(
                    remaining@,
                    k as int,
                    a,
                    b,
                    c,
                    holds,
                ),
        decreases remaining@.len() - k,
    {
        let corner: usize = remaining[k];
        if corner != a && corner != b && corner != c {
            let blocked = inside(corner, a, b, c);
            if blocked {
                proof {
                    assert forall|
                        bulges: spec_fn(usize, usize, usize) -> bool,
                        holds: spec_fn(usize, usize, usize, usize) -> bool,
                    | #[trigger] decides_corners(convex, inside, bulges, holds) implies !is_ear(
                        remaining@,
                        i as int,
                        bulges,
                        holds,
                    ) by {
                        assert(holds(remaining@[k as int], a, b, c));
                        assert(obstructed(
                            remaining@,
                            remaining@.len() as int,
                            a,
                            b,
                            c,
                            holds,
                        ));
                    }
                }
                return false;
            }
        }
        k += 1;
    }
    true
}

/// Splits an outline into triangles by cutting off ears; the corners are known by their numbers.
///
/// None where the outline is flat, has fewer than three corners, or where at some point no ear is
/// left to cut.
pub fn triangulate_polygon<
    B: Fn(usize, usize, usize) -> bool,
    H: Fn(usize, usize, usize, usize) -> bool,
>(count: usize, winding: Winding, convex: &B, inside: &H) -> (triangles: Option<
    Vec<(usize, usize, usize)>,
>)
    requires
        forall|a: usize, b: usize, c: usize| #[trigger] convex.requires((a, b, c)),
        forall|p: usize, a: usize, b: usize, c: usize| #[trigger] inside.requires((p, a, b, c)),
    ensures
        forall|
            bulges: spec_fn(usize, usize, usize) -> bool,
            holds: spec_fn(usize, usize, usize, usize) -> bool,
        | #[trigger]
            decides_corners(convex, inside, bulges, holds) ==> match triangles {
                Some(list) => triangles_of(count as nat, winding, bulges, holds) == Some(list@),
                None => triangles_of(count as nat, winding, bulges, holds) is None,
            },
        (count < 3 || winding is Flat) ==> triangles is None,
        triangles matches Some(list) ==> forall|k: int|
            0 <= k < list@.len() ==> (#[trigger] list@[k]).0 < count && list@[k].1 < count
                && list@[k].2 < count,
{
    if count < 3 || winding == Winding::Flat {
        return None;
    }
    let mut remaining: Vec<usize> = Vec::new();
    while remaining.len() < count
        invariant
            remaining@.len() <= count,
            forall|i: int|
                0 <= i < remaining@.len() ==> #[trigger] remaining@[i] == running_order(
                    count as nat,
                    winding,
                )[i],
        decreases count - remaining@.len(),
    {
        let i: usize = remaining.len();
        let next: usize = if winding == Winding::Clockwise {
            count - 1 - i
        } else {
            i
        };
        remaining.push(next);
    }
    assert(remaining@ =~= running_order(count as nat, winding));
    let mut triangles: Vec<(usize, usize, usize)> = Vec::new();
    let ghost start = remaining@;
    while remaining.len() > 3
        invariant
            count >= 3,
            !(winding is Flat),
            start == running_order(count as nat, winding),
            remaining@.len() >= 3,
            forall|k: int| 0 <= k < remaining@.len() ==> (#[trigger] remaining@[k]) < count,
            forall|k: int|
                0 <= k < triangles@.len() ==> (#[trigger] triangles@[k]).0 < count
                    && triangles@[k].1 < count && triangles@[k].2 < count,
            forall|a: usize, b: usize, c: usize| #[trigger] convex.requires((a, b, c)),
            forall|p: usize, a: usize, b: usize, c: usize| #[trigger] inside.requires((p, a, b, c)),
            forall|
                bulges: spec_fn(usize, usize, usize) -> bool,
                holds: spec_fn(usize, usize, usize, usize) -> bool,
            | #[trigger]
                decides_corners(convex, inside, bulges, holds) ==> ears(start, bulges, holds) == (
                match ears(remaining@, bulges, holds) {
                    Some(rest) => Some(triangles@ + rest),
                    None => None,
                }),
        decreases remaining@.len(),
    {
        let ghost shape = remaining@;
        let ghost earlier = triangles@;
        let mut i: usize = 0;
        let mut found = false;
        while i < remaining.len() && !found
            invariant
                i <= remaining@.len(),
                remaining@ == shape,
                remaining@.len() > 3,
                forall|k: int| 0 <= k < remaining@.len() ==> (#[trigger] remaining@[k]) < count,
                forall|a: usize, b: usize, c: usize| #[trigger] convex.requires((a, b, c)),
                forall|p: usize, a: usize, b: usize, c: usize| #[trigger]
                    inside.requires((p, a, b, c)),
                found ==> i < remaining@.len(),
                forall|
                    bulges: spec_fn(usize, usize, usize) -> bool,
                    holds: spec_fn(usize, usize, usize, usize) -> bool,
                | #[trigger]
                    decides_corners(convex, inside, bulges, holds) ==> (forall|k: int|
                        0 <= k < i ==> !#[trigger] is_ear(shape, k, bulges, holds)) && (found
                        ==> is_ear(shape, i as int, bulges, holds)),
            decreases remaining@.len() - i + (if found {
                0int
            } else {
                1int
            }),
        {
            if check_ear(&remaining, i, convex, inside) {
                found = true;
            } else {
                i += 1;
            }
        }
        if !found {
            proof {
                assert forall|
                    bulges: spec_fn(usize, usize, usize) -> bool,
                    holds: spec_fn(usize, usize, usize, usize) -> bool,
                | #[trigger] decides_corners(convex, inside, bulges, holds) implies triangles_of(
                    count as nat,
                    winding,
                    bulges,
                    holds,
                ) is None by {
                    let p = |i: int| is_ear(shape, i, bulges, holds);
                    seqs::lemma_least_from(0, shape.len() as int, p, shape.len() as int);
                    assert(first_ear(shape, bulges, holds) == shape.len());
                    assert(ears(shape, bulges, holds) is None);
                }
            }
            return None;
        }
        let before: usize = if i == 0 {
            remaining[remaining.len() - 1]
        } else {
            remaining[i - 1]
        };
        let after: usize = if i + 1 == remaining.len() {
            remaining[0]
        } else {
            remaining[i + 1]
        };
        triangles.push((before, remaining[i], after));
        let cut: usize = remaining.remove(i);
        proof {
            assert(remaining@ =~= shape.remove(i as int));
            assert forall|k: int| 0 <= k < remaining@.len() implies (#[trigger] remaining@[k])
                < count by {
                let at = if k < i {
                    k
                } else {
                    k + 1
                };
                assert(remaining@[k] == shape[at]);
            }
            assert forall|
                bulges: spec_fn(usize, usize, usize) -> bool,
                holds: spec_fn(usize, usize, usize, usize) -> bool,
            | #[trigger] decides_corners(convex, inside, bulges, holds) implies ears(
                start,
                bulges,
                holds,
            ) == (match ears(remaining@, bulges, holds) {
                Some(rest) => Some(triangles@ + rest),
                None => None,
            }) by {
                let p = |i: int| is_ear(shape, i, bulges, holds);
                seqs::lemma_least_from(0, shape.len() as int, p, i as int);
                assert(first_ear(shape, bulges, holds) == i);
                match ears(remaining@, bulges, holds) {
                    Some(rest) => {
                        assert(earlier + (seq![(before, cut, after)] + rest) =~= triangles@ + rest);
                    },
                    None => {},
                }
            }
        }
    }
    let ghost earlier = triangles@;
    triangles.push((remaining[0], remaining[1], remaining[2]));
    proof {
        assert(triangles@ =~= earlier + seq![(remaining@[0], remaining@[1], remaining@[2])]);
    }
    Some(triangles)
}

/// An outline of `count` corners that can be split makes `count - 2` triangles, each of three
/// different corners of the outline.
pub proof fn law_triangulation(
    count: nat,
    winding: Winding,
    bulges: spec_fn(usize, usize, usize) -> bool,
    holds: spec_fn(usize, usize, usize, usize) -> bool,
)
    requires
        count <= usize::MAX,
        triangles_of(count, winding, bulges, holds) is Some,
    ensures
        ({
            let triangles = triangles_of(count, winding, bulges, holds).unwrap();
            &&& triangles.len() == count - 2
            &&& forall|i: int|
                0 <= i < triangles.len() ==> {
                    let t = #[trigger] triangles[i];
                    t.0 < count && t.1 < count && t.2 < count && t.0 != t.1 && t.1 != t.2 && t.0
                        != t.2
                }
        }),
{
    let order = running_order(count, winding);
    assert(order.no_duplicates());
    assert forall|i: int| 0 <= i < order.len() implies (#[trigger] order[i]) < count by {}
    lemma_ears(order, bulges, holds, count);
}

proof fn lemma_ears(
    remaining: Seq<usize>,
    bulges: spec_fn(usize, usize, usize) -> bool,
    holds: spec_fn(usize, usize, usize, usize) -> bool,
    count: nat,
)
    requires
        remaining.len() >= 3,
        remaining.no_duplicates(),
        forall|i: int| 0 <= i < remaining.len() ==> (#[trigger] remaining[i]) < count,
        ears(remaining, bulges, holds) is Some,
    ensures
        ({
            let triangles = ears(remaining, bulges, holds).unwrap();
            &&& triangles.len() == remaining.len() - 2
            &&& forall|i: int|
                0 <= i < triangles.len() ==> {
                    let t = #[trigger] triangles[i];
                    t.0 < count && t.1 < count && t.2 < count && t.0 != t.1 && t.1 != t.2 && t.0
                        != t.2
                }
        }),
    decreases remaining.len(),
{
    if remaining.len() > 3 {
        let i = first_ear(remaining, bulges, holds);
        let shorter = remaining.remove(i);
        assert forall|k: int| 0 <= k < shorter.len() implies (#[trigger] shorter[k]) < count by {
            if k < i {
                assert(shorter[k] == remaining[k]);
            } else {
                assert(shorter[k] == remaining[k + 1]);
            }
        }
        assert(shorter.no_duplicates());
        lemma_ears(shorter, bulges, holds, count);
        let rest = ears(shorter, bulges, holds).unwrap();
        let triangles = ears(remaining, bulges, holds).unwrap();
        assert forall|k: int| 0 <= k < triangles.len() implies {
            let t = #[trigger] triangles[k];
            t.0 < count && t.1 < count && t.2 < count && t.0 != t.1 && t.1 != t.2 && t.0 != t.2
        } by {
            if k > 0 {
                assert(triangles[k] == rest[k - 1]);
            }
        }
    }
}

} // verus!
