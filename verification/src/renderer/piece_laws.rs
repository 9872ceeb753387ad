//! What holds of pieces that were cut ahead of drawing, and of shapes cut while they are drawn.

use crate::renderer::drawing;
use crate::renderer::drawing::DrawnModel;
use crate::renderer::emission;
use crate::renderer::emission::DrawStep;
use crate::renderer::fragments;
use crate::renderer::fragments::PlaneMath;
use crate::renderer::geometry::{ClosedShapeDrawMode, HatchStylePreset};
use crate::renderer::polygon;
use crate::renderer::primitives;
use crate::renderer::primitives::{DrawRules, Primitive};
use crate::renderer::vertices;
use crate::renderer::vertices::PenRules;
use crate::scene;
use crate::scene::{Bounds, Point};
use vstd::prelude::*;

verus! {

/// Whether cutting a line to a tile of the layout and cutting it on the screen agree: something is
/// left in both ways or in neither, and what is left has a length in both ways or in neither.
pub open spec fn cuts_agree(
    line: (Point, Point),
    tile: Bounds,
    area: Bounds,
    math: PlaneMath,
    scaled: spec_fn(Point) -> Point,
    rules: DrawRules,
) -> bool {
    match ((math.cut)(tile, line.0, line.1), (rules.clip)(area, scaled(line.0), scaled(line.1))) {
        (Some(early), Some(late)) => (rules.near)(scaled(early.0), scaled(early.1))
            == (rules.near)(late.0, late.1),
        (None, None) => true,
        _ => false,
    }
}

/// Whether the mark for what is left of a line in a tile, where one is drawn, has a length.
pub open spec fn mark_has_length(
    line: (Point, Point),
    tile: Bounds,
    math: PlaneMath,
    scaled: spec_fn(Point) -> Point,
    rules: DrawRules,
) -> bool {
    (math.cut)(tile, line.0, line.1) matches Some(left) ==> {
        let points = seq![scaled(left.0), scaled(left.1)];
        let mark = (rules.mark_line)(scene::points_bounds(points)->0);
        !(rules.near)(points[0], points[1]) && primitives::is_tiny(points, rules)
            ==> !(rules.near)(mark.0, mark.1)
    }
}

/// Whether the lines without length are those that nothing is drawn of.
pub open spec fn strips_have_length(rules: DrawRules, pen: PenRules) -> bool {
    forall|a: Point, b: Point, width: i32| #[trigger]
        (pen.strip)(a, b, width) is None <==> (rules.near)(a, b)
}

/// The lines of points that are moved are the moved lines.
proof fn lemma_moved_lines(points: Seq<Point>, scaled: spec_fn(Point) -> Point)
    ensures
        polygon::outline_lines(points.map_values(scaled), false) == polygon::outline_lines(
            points,
            false,
        ).map_values(|line: (Point, Point)| (scaled(line.0), scaled(line.1))),
{
    assert(polygon::outline_lines(points.map_values(scaled), false) =~= polygon::outline_lines(
        points,
        false,
    ).map_values(|line: (Point, Point)| (scaled(line.0), scaled(line.1))));
}

/// A piece of a line is drawn with as many vertices as the line that it is.
proof fn lemma_piece_vertices(
    shape: scene::ShapeModel,
    left: (Point, Point),
    mode: ClosedShapeDrawMode,
    style: HatchStylePreset,
    scaled: spec_fn(Point) -> Point,
    rules: DrawRules,
    pen: PenRules,
)
    requires
        strips_have_length(rules, pen),
        !(rules.near)(scaled(left.0), scaled(left.1)) && primitives::is_tiny(
            seq![scaled(left.0), scaled(left.1)],
            rules,
        ) ==> {
            let mark = (rules.mark_line)(
                scene::points_bounds(seq![scaled(left.0), scaled(left.1)])->0,
            );
            !(rules.near)(mark.0, mark.1)
        },
    ensures
        vertices::shape_vertices(
            drawing::drawn_fragment(
                fragments::line_piece(shape, left),
                mode,
                style,
                scaled,
                rules,
            ),
            pen,
        ).len() == (if (rules.near)(scaled(left.0), scaled(left.1)) {
            0nat
        } else {
            6nat
        }),
{
    let piece = fragments::line_piece(shape, left);
    let points = piece.points.map_values(scaled);
    assert(points =~= seq![scaled(left.0), scaled(left.1)]);
    let drawn = drawing::drawn_fragment(piece, mode, style, scaled, rules);
    if !(rules.near)(points[0], points[1]) {
        let mark = (rules.mark_line)(scene::points_bounds(points)->0);
        let line = if primitives::is_tiny(points, rules) {
            mark
        } else {
            (points[0], points[1])
        };
        assert(polygon::outline_lines(points, false) =~= seq![(points[0], points[1])]);
        assert(drawn.primitives =~= seq![Primitive::Line(line.0, line.1)]);
        assert(drawn.primitives.drop_last() =~= Seq::<Primitive>::empty());
        reveal_with_fuel(vertices::primitives_vertices, 2);
    }
}

/// The pieces of a list of lines are drawn with as many vertices as the lines cut on the screen.
proof fn lemma_pieces_match(
    shape: scene::ShapeModel,
    edges: Seq<(Point, Point)>,
    tile: Bounds,
    area: Bounds,
    math: PlaneMath,
    mode: ClosedShapeDrawMode,
    style: HatchStylePreset,
    scaled: spec_fn(Point) -> Point,
    rules: DrawRules,
    pen: PenRules,
    width: i32,
    rgb: vertices::Rgb,
    tag: u8,
)
    requires
        strips_have_length(rules, pen),
        forall|k: int|
            0 <= k < edges.len() ==> cuts_agree(
                #[trigger] edges[k],
                tile,
                area,
                math,
                scaled,
                rules,
            ) && mark_has_length(edges[k], tile, math, scaled, rules),
    ensures
        vertices::vertices(
            polygon::cut_edges(edges, tile, math.cut).map_values(
                |line: (Point, Point)| fragments::line_piece(shape, line),
            ).map_values(
                |piece: fragments::FragmentModel|
                    drawing::drawn_fragment(piece, mode, style, scaled, rules),
            ),
            pen,
        ).len() == vertices::primitives_vertices(
            primitives::lines(
                polygon::cut_edges(
                    edges.map_values(|line: (Point, Point)| (scaled(line.0), scaled(line.1))),
                    area,
                    rules.clip,
                ),
            ),
            width,
            rgb,
            tag,
            pen,
        ).len(),
    decreases edges.len(),
{
    let piece_of = |line: (Point, Point)| fragments::line_piece(shape, line);
    let draw = |piece: fragments::FragmentModel|
        drawing::drawn_fragment(piece, mode, style, scaled, rules);
    let moved = edges.map_values(|line: (Point, Point)| (scaled(line.0), scaled(line.1)));
    let early = polygon::cut_edges(edges, tile, math.cut);
    let late = polygon::cut_edges(moved, area, rules.clip);
    if edges.len() == 0 {
        assert(early.map_values(piece_of).map_values(draw) =~= Seq::<DrawnModel>::empty());
        assert(primitives::lines(late) =~= Seq::<Primitive>::empty());
    } else {
        let init = edges.drop_last();
        let last = edges.last();
        assert forall|k: int| 0 <= k < init.len() implies cuts_agree(
            #[trigger] init[k],
            tile,
            area,
            math,
            scaled,
            rules,
        ) && mark_has_length(init[k], tile, math, scaled, rules) by {
            assert(init[k] == edges[k]);
        }
        lemma_pieces_match(
            shape,
            init,
            tile,
            area,
            math,
            mode,
            style,
            scaled,
            rules,
            pen,
            width,
            rgb,
            tag,
        );
        assert(moved.drop_last() =~= init.map_values(
            |line: (Point, Point)| (scaled(line.0), scaled(line.1)),
        ));
        assert(moved.last() == (scaled(last.0), scaled(last.1)));
        assert(last == edges[edges.len() - 1]);
        assert(cuts_agree(last, tile, area, math, scaled, rules));
        assert(mark_has_length(last, tile, math, scaled, rules));
        let early_rest = polygon::cut_edges(init, tile, math.cut);
        let late_rest = polygon::cut_edges(moved.drop_last(), area, rules.clip);
        if let Some(left) = (math.cut)(tile, last.0, last.1) {
            let cut = (rules.clip)(area, scaled(last.0), scaled(last.1))->0;
            lemma_piece_vertices(shape, left, mode, style, scaled, rules, pen);
            let drawn = early.map_values(piece_of).map_values(draw);
            assert(drawn.drop_last() =~= early_rest.map_values(piece_of).map_values(draw));
            assert(drawn.last() == draw(piece_of(left)));
            let all = primitives::lines(late);
            assert(all.drop_last() =~= primitives::lines(late_rest));
            assert(all.last() == Primitive::Line(cut.0, cut.1));
            assert((pen.strip)(cut.0, cut.1, vertices::at_least_one(width)) is None
                <==> (rules.near)(cut.0, cut.1));
        } else {
            assert(early == early_rest);
            assert(late == late_rest);
        }
    }
}

/// Whether an open line is drawn alike in both ways: it exceeds the extent of a mark, keeps its
/// points, and its lines are cut alike.
pub open spec fn line_cuts_alike(
    shape: scene::ShapeModel,
    tile: Bounds,
    area: Bounds,
    math: PlaneMath,
    scaled: spec_fn(Point) -> Point,
    rules: DrawRules,
) -> bool {
    let points = shape.points.map_values(scaled);
    let edges = polygon::outline_lines(shape.points, false);
    &&& !primitives::is_tiny(points, rules)
    &&& emission::coarse_line(
        points,
        rules.extent,
        rules.line_target,
        rules.line_sample,
    ) is None
    &&& forall|k: int|
        0 <= k < edges.len() ==> cuts_agree(#[trigger] edges[k], tile, area, math, scaled, rules)
            && mark_has_length(edges[k], tile, math, scaled, rules)
}

/// The pieces of an open line in a tile are drawn with as many vertices as the line cut to that
/// tile while it is drawn, where the line exceeds the extent of a mark and keeps its points.
pub proof fn law_line_pieces_match_the_cut_line(
    shape: scene::ShapeModel,
    tile: Bounds,
    area: Bounds,
    math: PlaneMath,
    mode: ClosedShapeDrawMode,
    style: HatchStylePreset,
    scaled: spec_fn(Point) -> Point,
    rules: DrawRules,
    pen: PenRules,
)
    requires
        !shape.closed,
        line_cuts_alike(shape, tile, area, math, scaled, rules),
        strips_have_length(rules, pen),
    ensures
        vertices::vertices(
            fragments::pieces_in(shape, tile, math).map_values(
                |piece: fragments::FragmentModel|
                    drawing::drawn_fragment(piece, mode, style, scaled, rules),
            ),
            pen,
        ).len() == vertices::shape_vertices(
            drawing::drawn(shape, mode, style, Some(area), scaled, rules),
            pen,
        ).len(),
{
    let edges = polygon::outline_lines(shape.points, false);
    lemma_moved_lines(shape.points, scaled);
    lemma_pieces_match(
        shape,
        edges,
        tile,
        area,
        math,
        mode,
        style,
        scaled,
        rules,
        pen,
        vertices::stroke_width(shape.layer, shape.stroke_width_world, pen.on_screen),
        vertices::colour_of(shape.layer),
        style.tag(),
    );
    if shape.points.len() < 2 {
        assert(edges =~= Seq::<(Point, Point)>::empty());
        assert(fragments::pieces_in(shape, tile, math) =~= Seq::<fragments::FragmentModel>::empty());
    }
}

/// Where bringing points to the screen leaves a line and what is left of it as they are, and lines
/// are cut there as they are in the layout, cutting before and after agree.
pub proof fn law_unscaled_cuts_agree(
    line: (Point, Point),
    tile: Bounds,
    math: PlaneMath,
    scaled: spec_fn(Point) -> Point,
    rules: DrawRules,
)
    requires
        rules.clip == math.cut,
        scaled(line.0) == line.0,
        scaled(line.1) == line.1,
        (math.cut)(tile, line.0, line.1) matches Some(left) ==> scaled(left.0) == left.0 && scaled(
            left.1,
        ) == left.1,
    ensures
        cuts_agree(line, tile, tile, math, scaled, rules),
{
}

/// Whether a piece of a closed shape is drawn as the shape cut while it is drawn: cutting before
/// and after bringing points to the screen leaves the same corners and lines, neither is drawn as
/// a mark or with fewer corners, and both are small or neither is.
pub open spec fn area_cuts_alike(
    shape: scene::ShapeModel,
    tile: Bounds,
    area: Bounds,
    math: PlaneMath,
    scaled: spec_fn(Point) -> Point,
    rules: DrawRules,
) -> bool {
    let piece = fragments::pieces_in(shape, tile, math)[0];
    let edges = piece.outline_segments.map_values(
        |edge: (Point, Point)| (scaled(edge.0), scaled(edge.1)),
    );
    let early = primitives::fragment_parts(piece.points.map_values(scaled), edges, rules);
    let late = primitives::closed_parts(shape.points.map_values(scaled), Some(area), rules);
    let small = emission::SMALL_CLOSED_SHAPE_OUTLINE_ONLY_MAX_SCREEN_EXTENT;
    &&& early.fill == late.fill
    &&& edges == polygon::cut_edges(
        polygon::ring_edges(polygon::tidied(late.corners, rules.near)),
        area,
        rules.clip,
    )
    &&& !primitives::is_tiny(early.corners, rules)
    &&& !primitives::is_tiny(late.corners, rules)
    &&& early.coarse is None
    &&& late.coarse is None
    &&& primitives::lies_within(early.corners, small, rules) == primitives::lies_within(
        late.corners,
        small,
        rules,
    )
}

/// A piece of a closed shape in a tile is drawn as the shape cut to that tile while it is drawn,
/// where both are cut alike.
pub proof fn law_area_piece_is_drawn_as_the_cut_area(
    shape: scene::ShapeModel,
    tile: Bounds,
    area: Bounds,
    math: PlaneMath,
    mode: ClosedShapeDrawMode,
    style: HatchStylePreset,
    scaled: spec_fn(Point) -> Point,
    rules: DrawRules,
    pen: PenRules,
)
    requires
        shape.closed,
        fragments::pieces_in(shape, tile, math).len() > 0,
        area_cuts_alike(shape, tile, area, math, scaled, rules),
    ensures
        fragments::pieces_in(shape, tile, math).len() == 1,
        vertices::shape_vertices(
            drawing::drawn_fragment(
                fragments::pieces_in(shape, tile, math)[0],
                mode,
                style,
                scaled,
                rules,
            ),
            pen,
        ) == vertices::shape_vertices(
            drawing::drawn(shape, mode, style, Some(area), scaled, rules),
            pen,
        ),
{
    let piece = fragments::pieces_in(shape, tile, math)[0];
    let edges = piece.outline_segments.map_values(
        |edge: (Point, Point)| (scaled(edge.0), scaled(edge.1)),
    );
    let early = primitives::fragment_parts(piece.points.map_values(scaled), edges, rules);
    let late = primitives::closed_parts(shape.points.map_values(scaled), Some(area), rules);
    let fill = emission::fill_steps(false, late.fill.len());
    let stored = seq![DrawStep::StoredOutline];
    let clipped = seq![DrawStep::ClippedOutline];
    reveal_with_fuel(primitives::all_primitives, 3);
    assert(stored.drop_last() =~= Seq::<DrawStep>::empty());
    assert(clipped.drop_last() =~= Seq::<DrawStep>::empty());
    assert((fill + stored).drop_last() =~= fill);
    assert((fill + clipped).drop_last() =~= fill);
    if fill.len() > 0 {
        assert(fill.drop_last() =~= Seq::<DrawStep>::empty());
    }
    assert(primitives::all_primitives(fill, early, mode, rules) == primitives::all_primitives(
        fill,
        late,
        mode,
        rules,
    ));
    assert(primitives::all_primitives(stored, early, mode, rules) == primitives::all_primitives(
        clipped,
        late,
        mode,
        rules,
    ));
    assert(primitives::all_primitives(fill + stored, early, mode, rules)
        == primitives::all_primitives(fill + clipped, late, mode, rules));
}

} // verus!
