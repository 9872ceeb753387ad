//! The lines and triangles that a shape is drawn with.
//!
//! Points are those of the screen, where the layout is enlarged but not shifted.

use crate::coords;
use crate::renderer::emission;
use crate::renderer::emission::{
    closed_shape_steps, coarse_closed_shape_points, coarse_open_polyline_points, is_tiny_shape,
    open_shape_step, prepared_fragment_steps, should_suppress_fill_for_small_closed_shape,
    should_use_coarse_closed_shape_lod, DrawStep, CLOSED_SHAPE_LOD_MAX_SCREEN_EXTENT,
    CLOSED_SHAPE_LOD_MIN_POINTS, SMALL_CLOSED_SHAPE_OUTLINE_ONLY_MAX_SCREEN_EXTENT,
    TINY_SHAPE_MARKER_MAX_SCREEN_EXTENT,
};
use crate::renderer::geometry::ClosedShapeDrawMode;
use crate::renderer::polygon;
use crate::renderer::polygon::{
    clip_closed_polygon_to_bounds, clipped_closed_outline_segments, clipped_segments,
    normalized_closed_points, outline_segments, triangulate_polygon, ClipEdge, Winding,
};
use crate::scene;
use crate::scene::{bounds_from_points, copy_points, Bounds, Point};
use vstd::prelude::*;

verus! {

/// One line or triangle on the screen.
#[derive(Debug, Clone, Copy, PartialEq, Eq, Structural)]
pub enum Primitive {
    /// A line as wide as the shape asks for.
    Line(Point, Point),
    /// A line of a mark, one wide.
    MarkLine(Point, Point),
    /// A hatched triangle.
    Area(Point, Point, Point),
}

/// The functions that compute on the screen.
///
/// `near`, `cross` and `clip` are those that polygons are cut with; `extent` is the greater of the
/// sides of a rectangle; `ring_target` and `ring_sample` thin out closed outlines, `line_target`
/// and `line_sample` open lines; `winding`, `convex` and `inside` are those that polygons are split
/// with; `mark` gives the corners of the mark for a closed shape, `mark_line` the ends of that for
/// an open one.
pub struct DrawMath<N, X, C, E, T, S, U, V, W, B, H, M, L> {
    pub near: N,
    pub cross: X,
    pub clip: C,
    pub extent: E,
    pub ring_target: T,
    pub ring_sample: S,
    pub line_target: U,
    pub line_sample: V,
    pub winding: W,
    pub convex: B,
    pub inside: H,
    pub mark: M,
    pub mark_line: L,
}

/// What the functions compute.
pub struct DrawRules {
    pub near: spec_fn(Point, Point) -> bool,
    pub cross: spec_fn(ClipEdge, Bounds, Point, Point) -> Point,
    pub clip: spec_fn(Bounds, Point, Point) -> Option<(Point, Point)>,
    pub extent: spec_fn(Bounds) -> i32,
    pub ring_target: spec_fn(Bounds) -> usize,
    pub ring_sample: spec_fn(usize, usize, usize) -> usize,
    pub line_target: spec_fn(Bounds) -> usize,
    pub line_sample: spec_fn(usize, usize, usize) -> usize,
    pub winding: spec_fn(Seq<Point>) -> Winding,
    pub convex: spec_fn(Seq<Point>, usize, usize, usize) -> bool,
    pub inside: spec_fn(Seq<Point>, usize, usize, usize, usize) -> bool,
    pub mark: spec_fn(Bounds) -> (Point, Point, Point, Point),
    pub mark_line: spec_fn(Bounds) -> (Point, Point),
}

/// Whether the functions can be asked about everything.
pub open spec fn can_draw<
    N: Fn(Point, Point) -> bool,
    X: Fn(ClipEdge, Bounds, Point, Point) -> Point,
    C: Fn(Bounds, Point, Point) -> Option<(Point, Point)>,
    E: Fn(Bounds) -> i32,
    T: Fn(Bounds) -> usize,
    S: Fn(usize, usize, usize) -> usize,
    U: Fn(Bounds) -> usize,
    V: Fn(usize, usize, usize) -> usize,
    W: Fn(&Vec<Point>) -> Winding,
    B: Fn(&Vec<Point>, usize, usize, usize) -> bool,
    H: Fn(&Vec<Point>, usize, usize, usize, usize) -> bool,
    M: Fn(Bounds) -> (Point, Point, Point, Point),
    L: Fn(Bounds) -> (Point, Point),
>(math: DrawMath<N, X, C, E, T, S, U, V, W, B, H, M, L>) -> bool {
    &&& forall|a: Point, b: Point| #[trigger] math.near.requires((a, b))
    &&& forall|e: ClipEdge, r: Bounds, a: Point, b: Point| #[trigger]
        math.cross.requires((e, r, a, b))
    &&& forall|r: Bounds, a: Point, b: Point| #[trigger] math.clip.requires((r, a, b))
    &&& forall|b: Bounds| #[trigger] math.extent.requires((b,))
    &&& forall|b: Bounds| #[trigger] math.ring_target.requires((b,))
    &&& forall|n: usize, t: usize, i: usize| #[trigger] math.ring_sample.requires((n, t, i))
    &&& forall|b: Bounds| #[trigger] math.line_target.requires((b,))
    &&& forall|n: usize, t: usize, i: usize| #[trigger] math.line_sample.requires((n, t, i))
    &&& forall|points: &Vec<Point>| #[trigger] math.winding.requires((points,))
    &&& forall|points: &Vec<Point>, a: usize, b: usize, c: usize| #[trigger]
        math.convex.requires((points, a, b, c))
    &&& forall|points: &Vec<Point>, p: usize, a: usize, b: usize, c: usize| #[trigger]
        math.inside.requires((points, p, a, b, c))
    &&& forall|b: Bounds| #[trigger] math.mark.requires((b,))
    &&& forall|b: Bounds| #[trigger] math.mark_line.requires((b,))
}

/// Whether the functions compute by these rules.
pub open spec fn draws_by<
    N: Fn(Point, Point) -> bool,
    X: Fn(ClipEdge, Bounds, Point, Point) -> Point,
    C: Fn(Bounds, Point, Point) -> Option<(Point, Point)>,
    E: Fn(Bounds) -> i32,
    T: Fn(Bounds) -> usize,
    S: Fn(usize, usize, usize) -> usize,
    U: Fn(Bounds) -> usize,
    V: Fn(usize, usize, usize) -> usize,
    W: Fn(&Vec<Point>) -> Winding,
    B: Fn(&Vec<Point>, usize, usize, usize) -> bool,
    H: Fn(&Vec<Point>, usize, usize, usize, usize) -> bool,
    M: Fn(Bounds) -> (Point, Point, Point, Point),
    L: Fn(Bounds) -> (Point, Point),
>(math: DrawMath<N, X, C, E, T, S, U, V, W, B, H, M, L>, rules: DrawRules) -> bool {
    &&& polygon::decides_near(&math.near, rules.near)
    &&& polygon::decides_cross(&math.cross, rules.cross)
    &&& polygon::decides_clip(&math.clip, rules.clip)
    &&& emission::decides_extent(&math.extent, rules.extent)
    &&& emission::decides_target(&math.ring_target, rules.ring_target)
    &&& emission::decides_sample(&math.ring_sample, rules.ring_sample)
    &&& emission::decides_target(&math.line_target, rules.line_target)
    &&& emission::decides_sample(&math.line_sample, rules.line_sample)
    &&& forall|points: &Vec<Point>, r: Winding| #[trigger]
        math.winding.ensures((points,), r) ==> r == (rules.winding)(points@)
    &&& forall|points: &Vec<Point>, a: usize, b: usize, c: usize, r: bool| #[trigger]
        math.convex.ensures((points, a, b, c), r) ==> r == (rules.convex)(points@, a, b, c)
    &&& forall|points: &Vec<Point>, p: usize, a: usize, b: usize, c: usize, r: bool| #[trigger]
        math.inside.ensures((points, p, a, b, c), r) ==> r == (rules.inside)(points@, p, a, b, c)
    &&& forall|b: Bounds, r: (Point, Point, Point, Point)| #[trigger]
        math.mark.ensures((b,), r) ==> r == (rules.mark)(b)
    &&& forall|b: Bounds, r: (Point, Point)| #[trigger]
        math.mark_line.ensures((b,), r) ==> r == (rules.mark_line)(b)
}

/// These lines.
pub open spec fn lines(edges: Seq<(Point, Point)>) -> Seq<Primitive> {
    edges.map_values(|edge: (Point, Point)| Primitive::Line(edge.0, edge.1))
}

/// These lines of a mark.
pub open spec fn mark_lines(edges: Seq<(Point, Point)>) -> Seq<Primitive> {
    edges.map_values(|edge: (Point, Point)| Primitive::MarkLine(edge.0, edge.1))
}

/// The triangles of an outline; none where it cannot be split.
pub open spec fn area(points: Seq<Point>, rules: DrawRules) -> Seq<Primitive> {
    match polygon::triangles_of(
        points.len(),
        (rules.winding)(points),
        |a: usize, b: usize, c: usize| (rules.convex)(points, a, b, c),
        |p: usize, a: usize, b: usize, c: usize| (rules.inside)(points, p, a, b, c),
    ) {
        Some(triangles) => triangles.map_values(
            |t: (usize, usize, usize)|
                Primitive::Area(points[t.0 as int], points[t.1 as int], points[t.2 as int]),
        ),
        None => Seq::empty(),
    }
}

/// The corners of the mark for a closed shape.
pub open spec fn mark_corners(bounds: Bounds, rules: DrawRules) -> Seq<Point> {
    let (a, b, c, d) = (rules.mark)(bounds);
    seq![a, b, c, d]
}

/// The mark for a closed shape: an area where areas are hatched, lines where they are not.
pub open spec fn closed_mark(
    bounds: Bounds,
    mode: ClosedShapeDrawMode,
    rules: DrawRules,
) -> Seq<Primitive> {
    let corners = mark_corners(bounds, rules);
    if mode == ClosedShapeDrawMode::Outline {
        mark_lines(polygon::outline_lines(corners, true))
    } else {
        area(corners, rules)
    }
}

/// What a closed shape is made of on the screen.
pub struct ClosedParts {
    /// The corners, tidied.
    pub corners: Seq<Point>,
    /// The corners of what is hatched, tidied.
    pub fill: Seq<Point>,
    /// The outline with fewer corners, where it is drawn so.
    pub coarse: Option<Seq<Point>>,
    /// The tile that the shape is cut to.
    pub tile: Option<Bounds>,
    /// The lines that were cut to the tile earlier.
    pub stored: Seq<(Point, Point)>,
}

/// What a step of drawing a closed shape draws.
pub open spec fn step_primitives(
    step: DrawStep,
    parts: ClosedParts,
    mode: ClosedShapeDrawMode,
    rules: DrawRules,
) -> Seq<Primitive> {
    match step {
        DrawStep::Marker => match scene::points_bounds(parts.corners) {
            Some(bounds) => closed_mark(bounds, mode, rules),
            None => Seq::empty(),
        },
        DrawStep::CoarseOutline => match parts.coarse {
            Some(points) => lines(polygon::outline_lines(points, true)),
            None => Seq::empty(),
        },
        DrawStep::ClippedOutline => match parts.tile {
            Some(tile) => lines(
                polygon::cut_edges(
                    polygon::ring_edges(polygon::tidied(parts.corners, rules.near)),
                    tile,
                    rules.clip,
                ),
            ),
            None => Seq::empty(),
        },
        DrawStep::StoredOutline => lines(parts.stored),
        DrawStep::FullOutline => lines(polygon::outline_lines(parts.corners, true)),
        DrawStep::CoarseFill => match parts.coarse {
            Some(points) => area(points, rules),
            None => Seq::empty(),
        },
        DrawStep::FullFill => area(parts.fill, rules),
    }
}

/// What the steps draw, one after the other.
pub open spec fn all_primitives(
    steps: Seq<DrawStep>,
    parts: ClosedParts,
    mode: ClosedShapeDrawMode,
    rules: DrawRules,
) -> Seq<Primitive>
    decreases steps.len(),
{
    if steps.len() == 0 {
        Seq::empty()
    } else {
        all_primitives(steps.drop_last(), parts, mode, rules) + step_primitives(
            steps.last(),
            parts,
            mode,
            rules,
        )
    }
}

/// Whether the points lie within an extent on the screen.
pub open spec fn lies_within(points: Seq<Point>, limit: i32, rules: DrawRules) -> bool {
    points.len() > 0 && coords::at_most((rules.extent)(scene::points_bounds(points)->0), limit)
}

/// Whether a mark stands for the points: they do not exceed the extent of a mark, or have no extent
/// to speak of.
pub open spec fn is_tiny(points: Seq<Point>, rules: DrawRules) -> bool {
    points.len() > 0 && !coords::exceeds(
        (rules.extent)(scene::points_bounds(points)->0),
        TINY_SHAPE_MARKER_MAX_SCREEN_EXTENT,
    )
}

/// Whether a closed outline is drawn with fewer corners.
pub open spec fn wants_coarse(points: Seq<Point>, rules: DrawRules) -> bool {
    points.len() >= CLOSED_SHAPE_LOD_MIN_POINTS && lies_within(
        points,
        CLOSED_SHAPE_LOD_MAX_SCREEN_EXTENT,
        rules,
    )
}

/// The outline with fewer corners, where it is drawn so: that of what is hatched first, else that
/// of the shape.
pub open spec fn coarse_of(
    corners: Seq<Point>,
    fill: Seq<Point>,
    rules: DrawRules,
) -> Option<Seq<Point>> {
    if wants_coarse(fill, rules) {
        emission::coarse_ring(fill, rules.near, rules.ring_target, rules.ring_sample)
    } else if wants_coarse(corners, rules) {
        emission::coarse_ring(corners, rules.near, rules.ring_target, rules.ring_sample)
    } else {
        None
    }
}

/// What a closed shape is made of on the screen.
pub open spec fn closed_parts(
    points: Seq<Point>,
    tile: Option<Bounds>,
    rules: DrawRules,
) -> ClosedParts {
    let corners = polygon::tidied(points, rules.near);
    let fill = polygon::tidied(
        match tile {
            Some(bounds) => polygon::cut_polygon(points, bounds, rules.near, rules.cross),
            None => points,
        },
        rules.near,
    );
    ClosedParts { corners, fill, coarse: coarse_of(corners, fill, rules), tile, stored: Seq::empty() }
}

/// What a closed shape is drawn with.
pub open spec fn closed_shape(
    points: Seq<Point>,
    mode: ClosedShapeDrawMode,
    tile: Option<Bounds>,
    rules: DrawRules,
) -> Seq<Primitive> {
    let parts = closed_parts(points, tile, rules);
    all_primitives(
        if is_tiny(parts.corners, rules) {
            seq![DrawStep::Marker]
        } else {
            emission::area_steps(
                mode,
                lies_within(
                    parts.corners,
                    SMALL_CLOSED_SHAPE_OUTLINE_ONLY_MAX_SCREEN_EXTENT,
                    rules,
                ),
                emission::outline_steps(
                    parts.coarse is Some,
                    emission::plain_outline(tile is Some, parts.corners.len()),
                ),
                emission::fill_steps(parts.coarse is Some, parts.fill.len()),
            )
        },
        parts,
        mode,
        rules,
    )
}

/// What a closed piece is made of that was cut to its tile earlier.
pub open spec fn fragment_parts(
    points: Seq<Point>,
    stored: Seq<(Point, Point)>,
    rules: DrawRules,
) -> ClosedParts {
    let fill = polygon::tidied(points, rules.near);
    ClosedParts {
        corners: fill,
        fill,
        coarse: if wants_coarse(fill, rules) {
            emission::coarse_ring(fill, rules.near, rules.ring_target, rules.ring_sample)
        } else {
            None
        },
        tile: None,
        stored,
    }
}

/// What a closed piece is drawn with that was cut to its tile earlier.
pub open spec fn fragment(
    points: Seq<Point>,
    stored: Seq<(Point, Point)>,
    mode: ClosedShapeDrawMode,
    rules: DrawRules,
) -> Seq<Primitive> {
    let parts = fragment_parts(points, stored, rules);
    all_primitives(
        if is_tiny(parts.corners, rules) {
            seq![DrawStep::Marker]
        } else {
            emission::area_steps(
                mode,
                lies_within(
                    parts.corners,
                    SMALL_CLOSED_SHAPE_OUTLINE_ONLY_MAX_SCREEN_EXTENT,
                    rules,
                ),
                emission::outline_steps(parts.coarse is Some, seq![DrawStep::StoredOutline]),
                emission::fill_steps(parts.coarse is Some, parts.fill.len()),
            )
        },
        parts,
        mode,
        rules,
    )
}

/// What an open line is drawn with.
pub open spec fn open_shape(points: Seq<Point>, tile: Option<Bounds>, rules: DrawRules) -> Seq<
    Primitive,
> {
    let coarse = emission::coarse_line(
        points,
        rules.extent,
        rules.line_target,
        rules.line_sample,
    );
    if points.len() < 2 {
        Seq::empty()
    } else if is_tiny(points, rules) {
        lines(seq![(rules.mark_line)(scene::points_bounds(points)->0)])
    } else if coarse is Some {
        lines(polygon::outline_lines(coarse->0, false))
    } else {
        match tile {
            Some(bounds) => lines(
                polygon::cut_edges(polygon::outline_lines(points, false), bounds, rules.clip),
            ),
            None => lines(polygon::outline_lines(points, false)),
        }
    }
}

/// What a piece of an open line is drawn with that was cut to its tile earlier: as the line is, but
/// for a piece without length, of which nothing is drawn.
pub open spec fn line_fragment(points: Seq<Point>, rules: DrawRules) -> Seq<Primitive> {
    if points.len() == 2 && (rules.near)(points[0], points[1]) {
        Seq::empty()
    } else {
        open_shape(points, None, rules)
    }
}

fn push_lines(out: &mut Vec<Primitive>, edges: &Vec<(Point, Point)>)
    ensures
        final(out)@ == old(out)@ + lines(edges@),
{
    let ghost start = out@;
    let mut i: usize = 0;
    assert(out@ =~= start + lines(edges@.take(0)));
    while i < edges.len()
        invariant
            i <= edges@.len(),
            out@ == start + lines(edges@.take(i as int)),
        decreases edges@.len() - i,
    {
        out.push(Primitive::Line(edges[i].0, edges[i].1));
        assert(lines(edges@.take(i + 1)) =~= lines(edges@.take(i as int)).push(
            Primitive::Line(edges@[i as int].0, edges@[i as int].1),
        ));
        assert(out@ =~= start + lines(edges@.take(i + 1)));
        i += 1;
    }
    assert(edges@.take(i as int) =~= edges@);
}

fn push_mark_lines(out: &mut Vec<Primitive>, edges: &Vec<(Point, Point)>)
    ensures
        final(out)@ == old(out)@ + mark_lines(edges@),
{
    let ghost start = out@;
    let mut i: usize = 0;
    assert(out@ =~= start + mark_lines(edges@.take(0)));
    while i < edges.len()
        invariant
            i <= edges@.len(),
            out@ == start + mark_lines(edges@.take(i as int)),
        decreases edges@.len() - i,
    {
        out.push(Primitive::MarkLine(edges[i].0, edges[i].1));
        assert(mark_lines(edges@.take(i + 1)) =~= mark_lines(edges@.take(i as int)).push(
            Primitive::MarkLine(edges@[i as int].0, edges@[i as int].1),
        ));
        assert(out@ =~= start + mark_lines(edges@.take(i + 1)));
        i += 1;
    }
    assert(edges@.take(i as int) =~= edges@);
}

fn push_area<
    N: Fn(Point, Point) -> bool,
    X: Fn(ClipEdge, Bounds, Point, Point) -> Point,
    C: Fn(Bounds, Point, Point) -> Option<(Point, Point)>,
    E: Fn(Bounds) -> i32,
    T: Fn(Bounds) -> usize,
    S: Fn(usize, usize, usize) -> usize,
    U: Fn(Bounds) -> usize,
    V: Fn(usize, usize, usize) -> usize,
    W: Fn(&Vec<Point>) -> Winding,
    B: Fn(&Vec<Point>, usize, usize, usize) -> bool,
    H: Fn(&Vec<Point>, usize, usize, usize, usize) -> bool,
    M: Fn(Bounds) -> (Point, Point, Point, Point),
    L: Fn(Bounds) -> (Point, Point),
>(out: &mut Vec<Primitive>, points: &Vec<Point>, math: &DrawMath<N, X, C, E, T, S, U, V, W, B, H, M, L>)
    requires
        can_draw(*math),
    ensures
        forall|rules: DrawRules| #[trigger]
            draws_by(*math, rules) ==> final(out)@ == old(out)@ + area(points@, rules),
{
    let ghost start = out@;
    let winding = (math.winding)(points);
    let convex = |a: usize, b: usize, c: usize| -> (r: bool)
        ensures
            math.convex.ensures((points, a, b, c), r),
        { (math.convex)(points, a, b, c) };
    let inside = |p: usize, a: usize, b: usize, c: usize| -> (r: bool)
        ensures
            math.inside.ensures((points, p, a, b, c), r),
        { (math.inside)(points, p, a, b, c) };
    let split = triangulate_polygon(points.len(), winding, &convex, &inside);
    proof {
        assert forall|rules: DrawRules| #[trigger] draws_by(*math, rules) implies match split {
            Some(list) => polygon::triangles_of(
                points@.len(),
                (rules.winding)(points@),
                |a: usize, b: usize, c: usize| (rules.convex)(points@, a, b, c),
                |p: usize, a: usize, b: usize, c: usize| (rules.inside)(points@, p, a, b, c),
            ) == Some(list@),
            None => polygon::triangles_of(
                points@.len(),
                (rules.winding)(points@),
                |a: usize, b: usize, c: usize| (rules.convex)(points@, a, b, c),
                |p: usize, a: usize, b: usize, c: usize| (rules.inside)(points@, p, a, b, c),
            ) is None,
        } by {
            assert(polygon::decides_corners(
                &convex,
                &inside,
                |a: usize, b: usize, c: usize| (rules.convex)(points@, a, b, c),
                |p: usize, a: usize, b: usize, c: usize| (rules.inside)(points@, p, a, b, c),
            ));
        }
    }
    if let Some(triangles) = split {
        let ghost all = triangles@.map_values(
            |t: (usize, usize, usize)|
                Primitive::Area(points@[t.0 as int], points@[t.1 as int], points@[t.2 as int]),
        );
        let mut i: usize = 0;
        assert(out@ =~= start + all.take(0));
        while i < triangles.len()
            invariant
                i <= triangles@.len(),
                all == triangles@.map_values(
                    |t: (usize, usize, usize)|
                        Primitive::Area(
                            points@[t.0 as int],
                            points@[t.1 as int],
                            points@[t.2 as int],
                        ),
                ),
                forall|k: int|
                    0 <= k < triangles@.len() ==> (#[trigger] triangles@[k]).0 < points@.len()
                        && triangles@[k].1 < points@.len() && triangles@[k].2 < points@.len(),
                out@ == start + all.take(i as int),
            decreases triangles@.len() - i,
        {
            let t: (usize, usize, usize) = triangles[i];
            out.push(Primitive::Area(points[t.0], points[t.1], points[t.2]));
            assert(all.take(i + 1) =~= all.take(i as int).push(all[i as int]));
            assert(out@ =~= start + all.take(i + 1));
            i += 1;
        }
        assert(all.take(i as int) =~= all);
    } else {
        assert(out@ =~= start + Seq::<Primitive>::empty());
    }
}

fn push_closed_mark<
    N: Fn(Point, Point) -> bool,
    X: Fn(ClipEdge, Bounds, Point, Point) -> Point,
    C: Fn(Bounds, Point, Point) -> Option<(Point, Point)>,
    E: Fn(Bounds) -> i32,
    T: Fn(Bounds) -> usize,
    S: Fn(usize, usize, usize) -> usize,
    U: Fn(Bounds) -> usize,
    V: Fn(usize, usize, usize) -> usize,
    W: Fn(&Vec<Point>) -> Winding,
    B: Fn(&Vec<Point>, usize, usize, usize) -> bool,
    H: Fn(&Vec<Point>, usize, usize, usize, usize) -> bool,
    M: Fn(Bounds) -> (Point, Point, Point, Point),
    L: Fn(Bounds) -> (Point, Point),
>(
    out: &mut Vec<Primitive>,
    bounds: Bounds,
    mode: ClosedShapeDrawMode,
    math: &DrawMath<N, X, C, E, T, S, U, V, W, B, H, M, L>,
)
    requires
        can_draw(*math),
    ensures
        forall|rules: DrawRules| #[trigger]
            draws_by(*math, rules) ==> final(out)@ == old(out)@ + closed_mark(bounds, mode, rules),
{
    let mark = (math.mark)(bounds);
    let mut corners: Vec<Point> = Vec::new();
    corners.push(mark.0);
    corners.push(mark.1);
    corners.push(mark.2);
    corners.push(mark.3);
    proof {
        assert forall|rules: DrawRules| #[trigger] draws_by(*math, rules) implies corners@
            == mark_corners(bounds, rules) by {
            assert(corners@ =~= mark_corners(bounds, rules));
        }
    }
    match mode {
        ClosedShapeDrawMode::Outline => {
            let edges = outline_segments(corners.as_slice(), true);
            push_mark_lines(out, &edges);
        },
        _ => {
            push_area(out, &corners, math);
        },
    }
}

/// What a closed shape is made of, as it is computed.
struct Parts {
    corners: Vec<Point>,
    fill: Vec<Point>,
    coarse: Option<Vec<Point>>,
    tile: Option<Bounds>,
    stored: Vec<(Point, Point)>,
}

impl Parts {
    spec fn model(self) -> ClosedParts {
        ClosedParts {
            corners: self.corners@,
            fill: self.fill@,
            coarse: match self.coarse {
                Some(points) => Some(points@),
                None => None,
            },
            tile: self.tile,
            stored: self.stored@,
        }
    }
}

fn push_step<
    N: Fn(Point, Point) -> bool,
    X: Fn(ClipEdge, Bounds, Point, Point) -> Point,
    C: Fn(Bounds, Point, Point) -> Option<(Point, Point)>,
    E: Fn(Bounds) -> i32,
    T: Fn(Bounds) -> usize,
    S: Fn(usize, usize, usize) -> usize,
    U: Fn(Bounds) -> usize,
    V: Fn(usize, usize, usize) -> usize,
    W: Fn(&Vec<Point>) -> Winding,
    B: Fn(&Vec<Point>, usize, usize, usize) -> bool,
    H: Fn(&Vec<Point>, usize, usize, usize, usize) -> bool,
    M: Fn(Bounds) -> (Point, Point, Point, Point),
    L: Fn(Bounds) -> (Point, Point),
>(
    out: &mut Vec<Primitive>,
    step: DrawStep,
    parts: &Parts,
    mode: ClosedShapeDrawMode,
    math: &DrawMath<N, X, C, E, T, S, U, V, W, B, H, M, L>,
)
    requires
        can_draw(*math),
    ensures
        forall|rules: DrawRules| #[trigger]
            draws_by(*math, rules) ==> final(out)@ == old(out)@ + step_primitives(
                step,
                parts.model(),
                mode,
                rules,
            ),
{
    let ghost start = out@;
    assert(start + Seq::<Primitive>::empty() =~= start);
    match step {
        DrawStep::Marker => {
            if let Some(bounds) = bounds_from_points(parts.corners.as_slice()) {
                push_closed_mark(out, bounds, mode, math);
            }
        },
        DrawStep::CoarseOutline => {
            if let Some(points) = &parts.coarse {
                let edges = outline_segments(points.as_slice(), true);
                push_lines(out, &edges);
            }
        },
        DrawStep::ClippedOutline => {
            if let Some(tile) = parts.tile {
                let edges = clipped_closed_outline_segments(
                    parts.corners.as_slice(),
                    tile,
                    &math.near,
                    &math.clip,
                );
                push_lines(out, &edges);
            }
        },
        DrawStep::StoredOutline => {
            push_lines(out, &parts.stored);
        },
        DrawStep::FullOutline => {
            let edges = outline_segments(parts.corners.as_slice(), true);
            push_lines(out, &edges);
        },
        DrawStep::CoarseFill => {
            if let Some(points) = &parts.coarse {
                push_area(out, points, math);
            }
        },
        DrawStep::FullFill => {
            push_area(out, &parts.fill, math);
        },
    }
}

fn draw_steps<
    N: Fn(Point, Point) -> bool,
    X: Fn(ClipEdge, Bounds, Point, Point) -> Point,
    C: Fn(Bounds, Point, Point) -> Option<(Point, Point)>,
    E: Fn(Bounds) -> i32,
    T: Fn(Bounds) -> usize,
    S: Fn(usize, usize, usize) -> usize,
    U: Fn(Bounds) -> usize,
    V: Fn(usize, usize, usize) -> usize,
    W: Fn(&Vec<Point>) -> Winding,
    B: Fn(&Vec<Point>, usize, usize, usize) -> bool,
    H: Fn(&Vec<Point>, usize, usize, usize, usize) -> bool,
    M: Fn(Bounds) -> (Point, Point, Point, Point),
    L: Fn(Bounds) -> (Point, Point),
>(
    steps: &Vec<DrawStep>,
    parts: &Parts,
    mode: ClosedShapeDrawMode,
    math: &DrawMath<N, X, C, E, T, S, U, V, W, B, H, M, L>,
) -> (out: Vec<Primitive>)
    requires
        can_draw(*math),
    ensures
        forall|rules: DrawRules| #[trigger]
            draws_by(*math, rules) ==> out@ == all_primitives(steps@, parts.model(), mode, rules),
{
    let mut out: Vec<Primitive> = Vec::new();
    let mut i: usize = 0;
    assert(steps@.take(0) =~= Seq::empty());
    while i < steps.len()
        invariant
            i <= steps@.len(),
            can_draw(*math),
            forall|rules: DrawRules| #[trigger]
                draws_by(*math, rules) ==> out@ == all_primitives(
                    steps@.take(i as int),
                    parts.model(),
                    mode,
                    rules,
                ),
        decreases steps@.len() - i,
    {
        push_step(&mut out, steps[i], parts, mode, math);
        proof {
            assert(steps@.take(i + 1).drop_last() =~= steps@.take(i as int));
            assert(steps@.take(i + 1).last() == steps@[i as int]);
        }
        i += 1;
    }
    assert(steps@.take(i as int) =~= steps@);
    out
}

/// The greater side of the rectangle around points; none where there are no points.
fn extent_of<E: Fn(Bounds) -> i32>(points: &Vec<Point>, extent: &E) -> (size: Option<i32>)
    requires
        forall|b: Bounds| #[trigger] extent.requires((b,)),
    ensures
        size is Some <==> points@.len() > 0,
        forall|rule: spec_fn(Bounds) -> i32| #[trigger]
            emission::decides_extent(extent, rule) && points@.len() > 0 ==> size == Some(
                rule(scene::points_bounds(points@)->0),
            ),
{
    match bounds_from_points(points.as_slice()) {
        Some(bounds) => {
            proof {
                if points@.len() == 0 {
                    assert(points@.map_values(|p: Point| scene::point_bounds(p)) =~= Seq::empty());
                }
            }
            Some(extent(bounds))
        },
        None => {
            proof {
                if points@.len() > 0 {
                    let spanned = points@.map_values(|p: Point| scene::point_bounds(p));
                    assert(scene::union_of(spanned) is Some);
                }
            }
            None
        },
    }
}

/// The outline with fewer corners, where it is drawn so.
fn thin_ring<
    N: Fn(Point, Point) -> bool,
    X: Fn(ClipEdge, Bounds, Point, Point) -> Point,
    C: Fn(Bounds, Point, Point) -> Option<(Point, Point)>,
    E: Fn(Bounds) -> i32,
    T: Fn(Bounds) -> usize,
    S: Fn(usize, usize, usize) -> usize,
    U: Fn(Bounds) -> usize,
    V: Fn(usize, usize, usize) -> usize,
    W: Fn(&Vec<Point>) -> Winding,
    B: Fn(&Vec<Point>, usize, usize, usize) -> bool,
    H: Fn(&Vec<Point>, usize, usize, usize, usize) -> bool,
    M: Fn(Bounds) -> (Point, Point, Point, Point),
    L: Fn(Bounds) -> (Point, Point),
>(points: &Vec<Point>, math: &DrawMath<N, X, C, E, T, S, U, V, W, B, H, M, L>) -> (thin: Option<Option<Vec<Point>>>)
    requires
        can_draw(*math),
    ensures
        forall|rules: DrawRules| #[trigger]
            draws_by(*math, rules) ==> match thin {
                Some(ring) => {
                    &&& wants_coarse(points@, rules)
                    &&& match ring {
                        Some(list) => emission::coarse_ring(
                            points@,
                            rules.near,
                            rules.ring_target,
                            rules.ring_sample,
                        ) == Some(list@),
                        None => emission::coarse_ring(
                            points@,
                            rules.near,
                            rules.ring_target,
                            rules.ring_sample,
                        ) is None,
                    }
                },
                None => !wants_coarse(points@, rules),
            },
{
    match extent_of(points, &math.extent) {
        Some(size) => {
            if should_use_coarse_closed_shape_lod(points.len(), size) {
                Some(
                    coarse_closed_shape_points(
                        points.as_slice(),
                        &math.near,
                        &math.ring_target,
                        &math.ring_sample,
                    ),
                )
            } else {
                None
            }
        },
        None => None,
    }
}

/// What a closed shape is drawn with: all of it, or what of it lies in a tile.
pub fn closed_shape_primitives<
    N: Fn(Point, Point) -> bool,
    X: Fn(ClipEdge, Bounds, Point, Point) -> Point,
    C: Fn(Bounds, Point, Point) -> Option<(Point, Point)>,
    E: Fn(Bounds) -> i32,
    T: Fn(Bounds) -> usize,
    S: Fn(usize, usize, usize) -> usize,
    U: Fn(Bounds) -> usize,
    V: Fn(usize, usize, usize) -> usize,
    W: Fn(&Vec<Point>) -> Winding,
    B: Fn(&Vec<Point>, usize, usize, usize) -> bool,
    H: Fn(&Vec<Point>, usize, usize, usize, usize) -> bool,
    M: Fn(Bounds) -> (Point, Point, Point, Point),
    L: Fn(Bounds) -> (Point, Point),
>(
    points: &Vec<Point>,
    mode: ClosedShapeDrawMode,
    tile: Option<Bounds>,
    math: &DrawMath<N, X, C, E, T, S, U, V, W, B, H, M, L>,
) -> (out: Vec<Primitive>)
    requires
        can_draw(*math),
    ensures
        forall|rules: DrawRules| #[trigger]
            draws_by(*math, rules) ==> out@ == closed_shape(points@, mode, tile, rules),
{
    let corners = normalized_closed_points(points.as_slice(), &math.near);
    let fill = match tile {
        Some(bounds) => {
            let cut = clip_closed_polygon_to_bounds(
                points.as_slice(),
                bounds,
                &math.near,
                &math.cross,
            );
            normalized_closed_points(cut.as_slice(), &math.near)
        },
        None => normalized_closed_points(points.as_slice(), &math.near),
    };
    let (tiny, small) = match extent_of(&corners, &math.extent) {
        Some(size) => (
            is_tiny_shape(corners.len(), size),
            should_suppress_fill_for_small_closed_shape(corners.len(), size),
        ),
        None => (false, false),
    };
    let coarse: Option<Vec<Point>> = match thin_ring(&fill, math) {
        Some(ring) => ring,
        None => match thin_ring(&corners, math) {
            Some(ring) => ring,
            None => None,
        },
    };
    let steps = closed_shape_steps(
        mode,
        tiny,
        small,
        coarse.is_some(),
        tile.is_some(),
        corners.len(),
        fill.len(),
    );
    let parts = Parts { corners, fill, coarse, tile, stored: Vec::new() };
    let out = draw_steps(&steps, &parts, mode, math);
    proof {
        assert forall|rules: DrawRules| #[trigger] draws_by(*math, rules) implies out@
            == closed_shape(points@, mode, tile, rules) by {
            let wanted = closed_parts(points@, tile, rules);
            let model = parts.model();
            assert(model.corners == wanted.corners);
            assert(model.fill == wanted.fill);
            assert(model.coarse == wanted.coarse);
            assert(model.stored =~= wanted.stored);
            assert(model == wanted);
        }
    }
    out
}

/// What a closed piece is drawn with that was cut to its tile earlier, with the lines of its
/// outline.
pub fn prepared_fragment_primitives<
    N: Fn(Point, Point) -> bool,
    X: Fn(ClipEdge, Bounds, Point, Point) -> Point,
    C: Fn(Bounds, Point, Point) -> Option<(Point, Point)>,
    E: Fn(Bounds) -> i32,
    T: Fn(Bounds) -> usize,
    S: Fn(usize, usize, usize) -> usize,
    U: Fn(Bounds) -> usize,
    V: Fn(usize, usize, usize) -> usize,
    W: Fn(&Vec<Point>) -> Winding,
    B: Fn(&Vec<Point>, usize, usize, usize) -> bool,
    H: Fn(&Vec<Point>, usize, usize, usize, usize) -> bool,
    M: Fn(Bounds) -> (Point, Point, Point, Point),
    L: Fn(Bounds) -> (Point, Point),
>(
    points: &Vec<Point>,
    outline: &Vec<(Point, Point)>,
    mode: ClosedShapeDrawMode,
    math: &DrawMath<N, X, C, E, T, S, U, V, W, B, H, M, L>,
) -> (out: Vec<Primitive>)
    requires
        can_draw(*math),
    ensures
        forall|rules: DrawRules| #[trigger]
            draws_by(*math, rules) ==> out@ == fragment(points@, outline@, mode, rules),
{
    let corners = normalized_closed_points(points.as_slice(), &math.near);
    let fill = copy_points(corners.as_slice());
    let (tiny, small) = match extent_of(&corners, &math.extent) {
        Some(size) => (
            is_tiny_shape(corners.len(), size),
            should_suppress_fill_for_small_closed_shape(corners.len(), size),
        ),
        None => (false, false),
    };
    let coarse: Option<Vec<Point>> = match thin_ring(&fill, math) {
        Some(ring) => ring,
        None => None,
    };
    let steps = prepared_fragment_steps(mode, tiny, small, coarse.is_some(), fill.len());
    let mut stored: Vec<(Point, Point)> = Vec::new();
    let mut i: usize = 0;
    while i < outline.len()
        invariant
            i <= outline@.len(),
            stored@ == outline@.take(i as int),
        decreases outline@.len() - i,
    {
        stored.push(outline[i]);
        assert(stored@ =~= outline@.take(i + 1));
        i += 1;
    }
    assert(stored@ =~= outline@);
    let parts = Parts { corners, fill, coarse, tile: None, stored };
    let out = draw_steps(&steps, &parts, mode, math);
    proof {
        assert forall|rules: DrawRules| #[trigger] draws_by(*math, rules) implies out@
            == fragment(points@, outline@, mode, rules) by {
            let wanted = fragment_parts(points@, outline@, rules);
            let model = parts.model();
            assert(model.corners == wanted.corners);
            assert(model.coarse == wanted.coarse);
            assert(model == wanted);
        }
    }
    out
}

/// What an open line is drawn with: all of it, or what of it lies in a tile.
pub fn open_shape_primitives<
    N: Fn(Point, Point) -> bool,
    X: Fn(ClipEdge, Bounds, Point, Point) -> Point,
    C: Fn(Bounds, Point, Point) -> Option<(Point, Point)>,
    E: Fn(Bounds) -> i32,
    T: Fn(Bounds) -> usize,
    S: Fn(usize, usize, usize) -> usize,
    U: Fn(Bounds) -> usize,
    V: Fn(usize, usize, usize) -> usize,
    W: Fn(&Vec<Point>) -> Winding,
    B: Fn(&Vec<Point>, usize, usize, usize) -> bool,
    H: Fn(&Vec<Point>, usize, usize, usize, usize) -> bool,
    M: Fn(Bounds) -> (Point, Point, Point, Point),
    L: Fn(Bounds) -> (Point, Point),
>(
    points: &Vec<Point>,
    tile: Option<Bounds>,
    math: &DrawMath<N, X, C, E, T, S, U, V, W, B, H, M, L>,
) -> (out: Vec<Primitive>)
    requires
        can_draw(*math),
    ensures
        forall|rules: DrawRules| #[trigger]
            draws_by(*math, rules) ==> out@ == open_shape(points@, tile, rules),
{
    let mut out: Vec<Primitive> = Vec::new();
    let bounds = match bounds_from_points(points.as_slice()) {
        Some(bounds) => bounds,
        None => {
            proof {
                if points@.len() > 0 {
                    let spanned = points@.map_values(|p: Point| scene::point_bounds(p));
                    assert(scene::union_of(spanned) is Some);
                }
            }
            return out;
        },
    };
    let tiny = is_tiny_shape(points.len(), (math.extent)(bounds));
    let coarse = coarse_open_polyline_points(
        points,
        &math.extent,
        &math.line_target,
        &math.line_sample,
    );
    match open_shape_step(points.len(), tiny, coarse.is_some(), tile.is_some()) {
        Some(DrawStep::Marker) => {
            let mark = (math.mark_line)(bounds);
            out.push(Primitive::Line(mark.0, mark.1));
            assert(out@ =~= lines(seq![mark]));
        },
        Some(DrawStep::CoarseOutline) => {
            if let Some(thin) = &coarse {
                let edges = outline_segments(thin.as_slice(), false);
                push_lines(&mut out, &edges);
                assert(out@ =~= lines(edges@));
            }
        },
        Some(DrawStep::ClippedOutline) => {
            if let Some(area) = tile {
                let edges = outline_segments(points.as_slice(), false);
                let left = clipped_segments(edges.as_slice(), area, &math.clip);
                push_lines(&mut out, &left);
                assert(out@ =~= lines(left@));
            }
        },
        Some(DrawStep::FullOutline) => {
            let edges = outline_segments(points.as_slice(), false);
            push_lines(&mut out, &edges);
            assert(out@ =~= lines(edges@));
        },
        _ => {},
    }
    out
}

/// What a piece of an open line is drawn with that was cut to its tile earlier. A piece without
/// length, where the line but touches the tile, is not drawn.
pub fn prepared_line_primitives<
    N: Fn(Point, Point) -> bool,
    X: Fn(ClipEdge, Bounds, Point, Point) -> Point,
    C: Fn(Bounds, Point, Point) -> Option<(Point, Point)>,
    E: Fn(Bounds) -> i32,
    T: Fn(Bounds) -> usize,
    S: Fn(usize, usize, usize) -> usize,
    U: Fn(Bounds) -> usize,
    V: Fn(usize, usize, usize) -> usize,
    W: Fn(&Vec<Point>) -> Winding,
    B: Fn(&Vec<Point>, usize, usize, usize) -> bool,
    H: Fn(&Vec<Point>, usize, usize, usize, usize) -> bool,
    M: Fn(Bounds) -> (Point, Point, Point, Point),
    L: Fn(Bounds) -> (Point, Point),
>(points: &Vec<Point>, math: &DrawMath<N, X, C, E, T, S, U, V, W, B, H, M, L>) -> (out: Vec<
    Primitive,
>)
    requires
        can_draw(*math),
    ensures
        forall|rules: DrawRules| #[trigger]
            draws_by(*math, rules) ==> out@ == line_fragment(points@, rules),
{
    if points.len() == 2 && (math.near)(points[0], points[1]) {
        return Vec::new();
    }
    open_shape_primitives(points, None, math)
}

} // verus!
