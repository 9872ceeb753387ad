//! What holds of the lines and triangles that shapes are drawn with.

use crate::coords;
use crate::renderer::clip_laws;
use crate::renderer::drawing;
use crate::renderer::drawing::{DrawnModel, LayerRules};
use crate::renderer::ear_laws;
use crate::renderer::emission;
use crate::renderer::emission::{DrawItem, DrawStep};
use crate::renderer::geometry::ClosedShapeDrawMode;
use crate::renderer::polygon;
use crate::renderer::primitives;
use crate::renderer::primitives::{DrawRules, Primitive};
use crate::scene;
use crate::scene::{Bounds, LayerId, Point};
use crate::seqs;
use vstd::prelude::*;

verus! {

/// Whether the items are those of the shapes that are not hidden, in order, each drawn as its layer
/// says where that has a way of its own, else in the common way. `at` tells where the item of each
/// shape stands.
pub open spec fn are_items_of(
    layer_of: Seq<LayerId>,
    layers: LayerRules,
    items: Seq<DrawItem>,
    at: Seq<int>,
) -> bool {
    &&& at.len() == layer_of.len() + 1
    &&& at[0] == 0
    &&& at[layer_of.len() as int] == items.len()
    &&& forall|i: int|
        #![trigger layer_of[i]]
        0 <= i < layer_of.len() ==> {
            let layer = layer_of[i];
            let shown = !layers.hidden.contains(layer);
            &&& 0 <= at[i] <= at[i + 1] <= items.len()
            &&& at[i + 1] == at[i] + clip_laws::one_if(shown)
            &&& shown ==> {
                let item = items[at[i]];
                &&& item.position == i
                &&& layers.modes.dom().contains(layer) ==> item.mode == layers.modes[layer]
                &&& !layers.modes.dom().contains(layer) ==> item.mode == layers.mode
                &&& layers.styles.dom().contains(layer) ==> item.style == layers.styles[layer]
                &&& !layers.styles.dom().contains(layer) ==> item.style == layers.style
            }
        }
}

/// Every shape whose layer is not hidden is drawn, once and in order, as its layer says.
pub proof fn law_shown_layers_are_drawn(layer_of: Seq<LayerId>, layers: LayerRules)
    requires
        layer_of.len() <= usize::MAX,
    ensures
        exists|at: Seq<int>|
            are_items_of(
                layer_of,
                layers,
                emission::draw_items(
                    layer_of,
                    layers.hidden,
                    layers.modes,
                    layers.styles,
                    layers.mode,
                    layers.style,
                ),
                at,
            ),
{
    let at = lemma_items(layer_of, layers);
    assert(are_items_of(
        layer_of,
        layers,
        emission::draw_items(
            layer_of,
            layers.hidden,
            layers.modes,
            layers.styles,
            layers.mode,
            layers.style,
        ),
        at,
    ));
}

proof fn lemma_items(layer_of: Seq<LayerId>, layers: LayerRules) -> (at: Seq<int>)
    requires
        layer_of.len() <= usize::MAX,
    ensures
        are_items_of(
            layer_of,
            layers,
            emission::draw_items(
                layer_of,
                layers.hidden,
                layers.modes,
                layers.styles,
                layers.mode,
                layers.style,
            ),
            at,
        ),
    decreases layer_of.len(),
{
    let items = emission::draw_items(
        layer_of,
        layers.hidden,
        layers.modes,
        layers.styles,
        layers.mode,
        layers.style,
    );
    if layer_of.len() == 0 {
        seq![0int]
    } else {
        let init = layer_of.drop_last();
        let before = lemma_items(init, layers);
        let at = before.push(items.len() as int);
        assert forall|i: int|
            #![trigger layer_of[i]]
            0 <= i < layer_of.len() implies {
            let layer = layer_of[i];
            let shown = !layers.hidden.contains(layer);
            &&& 0 <= at[i] <= at[i + 1] <= items.len()
            &&& at[i + 1] == at[i] + clip_laws::one_if(shown)
            &&& shown ==> {
                let item = items[at[i]];
                &&& item.position == i
                &&& layers.modes.dom().contains(layer) ==> item.mode == layers.modes[layer]
                &&& !layers.modes.dom().contains(layer) ==> item.mode == layers.mode
                &&& layers.styles.dom().contains(layer) ==> item.style == layers.styles[layer]
                &&& !layers.styles.dom().contains(layer) ==> item.style == layers.style
            }
        } by {
            assert(at[i] == before[i]);
            if i < init.len() {
                assert(init[i] == layer_of[i]);
                assert(at[i + 1] == before[i + 1]);
            }
        }
        at
    }
}

/// Whether what is drawn are the shapes at these places whose layers are not hidden, in order: each
/// on its layer and with its width, in the way of its layer, closed ones as areas and open ones as
/// lines, through its points on the screen.
pub open spec fn are_drawn_of(
    shapes: Seq<scene::ShapeModel>,
    places: Seq<usize>,
    layers: LayerRules,
    tile: Option<Bounds>,
    scaled: spec_fn(Point) -> Point,
    rules: DrawRules,
    all: Seq<DrawnModel>,
    items: Seq<DrawItem>,
) -> bool {
    &&& all.len() == items.len()
    &&& forall|k: int|
        #![trigger all[k]]
        0 <= k < all.len() ==> {
            let shape = shapes[places[items[k].position as int] as int];
            let points = Seq::new(shape.points.len(), |i: int| scaled(shape.points[i]));
            &&& all[k].layer == shape.layer
            &&& all[k].stroke_width_world == shape.stroke_width_world
            &&& all[k].style == items[k].style
            &&& shape.closed ==> all[k].primitives == primitives::closed_shape(
                points,
                items[k].mode,
                tile,
                rules,
            )
            &&& !shape.closed ==> all[k].primitives == primitives::open_shape(points, tile, rules)
        }
}

/// The layers of the shapes at these places, place by place.
pub open spec fn layers_there(shapes: Seq<scene::ShapeModel>, places: Seq<usize>) -> Seq<LayerId> {
    Seq::new(places.len(), |i: int| shapes[places[i] as int].layer)
}

/// What shapes of a scene are drawn with.
pub proof fn law_shapes_are_drawn(
    shapes: Seq<scene::ShapeModel>,
    places: Seq<usize>,
    layers: LayerRules,
    tile: Option<Bounds>,
    scaled: spec_fn(Point) -> Point,
    rules: DrawRules,
)
    requires
        places.len() <= usize::MAX,
    ensures
        exists|items: Seq<DrawItem>, at: Seq<int>|
            #![trigger are_items_of(layers_there(shapes, places), layers, items, at)]
            are_items_of(layers_there(shapes, places), layers, items, at) && are_drawn_of(
                shapes,
                places,
                layers,
                tile,
                scaled,
                rules,
                drawing::drawn_shapes(shapes, places, layers, tile, scaled, rules),
                items,
            ),
{
    let layer_of = layers_there(shapes, places);
    assert(layer_of =~= drawing::layers_at(shapes, places));
    let at = lemma_items(layer_of, layers);
    let items = emission::draw_items(
        layer_of,
        layers.hidden,
        layers.modes,
        layers.styles,
        layers.mode,
        layers.style,
    );
    let all = drawing::drawn_shapes(shapes, places, layers, tile, scaled, rules);
    assert forall|k: int|
        #![trigger all[k]]
        0 <= k < all.len() implies {
        let shape = shapes[places[items[k].position as int] as int];
        let points = Seq::new(shape.points.len(), |i: int| scaled(shape.points[i]));
        &&& all[k].layer == shape.layer
        &&& all[k].stroke_width_world == shape.stroke_width_world
        &&& all[k].style == items[k].style
        &&& shape.closed ==> all[k].primitives == primitives::closed_shape(
            points,
            items[k].mode,
            tile,
            rules,
        )
        &&& !shape.closed ==> all[k].primitives == primitives::open_shape(points, tile, rules)
    } by {
        let shape = shapes[places[items[k].position as int] as int];
        let points = Seq::new(shape.points.len(), |i: int| scaled(shape.points[i]));
        assert(points =~= shape.points.map_values(scaled));
    }
    assert(are_items_of(layer_of, layers, items, at));
}

/// Whether the triangles are those that the outline splits into, each with the points of its
/// corners; none where it cannot be split.
pub open spec fn fills(points: Seq<Point>, rules: DrawRules, all: Seq<Primitive>) -> bool {
    let winding = (rules.winding)(points);
    let bulges = |a: usize, b: usize, c: usize| (rules.convex)(points, a, b, c);
    let holds = |p: usize, a: usize, b: usize, c: usize| (rules.inside)(points, p, a, b, c);
    ||| exists|triangles: Seq<(usize, usize, usize)>| #[trigger]
        ear_laws::is_splitting(points.len(), winding, bulges, holds, triangles) && all.len()
            == triangles.len() && forall|k: int|
            0 <= k < all.len() ==> #[trigger] all[k] == Primitive::Area(
                points[triangles[k].0 as int],
                points[triangles[k].1 as int],
                points[triangles[k].2 as int],
            )
    ||| all.len() == 0 && (points.len() < 3 || winding is Flat || exists|
        cut: Seq<(usize, usize, usize)>,
    | #[trigger] ear_laws::is_stuck(points.len(), winding, bulges, holds, cut))
}

/// An area is drawn with the triangles that its outline splits into.
pub proof fn law_areas_are_filled(points: Seq<Point>, rules: DrawRules)
    requires
        points.len() <= usize::MAX,
    ensures
        fills(points, rules, primitives::area(points, rules)),
{
    let winding = (rules.winding)(points);
    let bulges = |a: usize, b: usize, c: usize| (rules.convex)(points, a, b, c);
    let holds = |p: usize, a: usize, b: usize, c: usize| (rules.inside)(points, p, a, b, c);
    ear_laws::law_triangles_are_free_of_other_corners(points.len(), winding, bulges, holds);
    let all = primitives::area(points, rules);
    if let Some(triangles) = polygon::triangles_of(points.len(), winding, bulges, holds) {
        assert(ear_laws::is_splitting(points.len(), winding, bulges, holds, triangles));
        assert(all.len() == triangles.len());
    }
}

/// Whether the lines are those from each point to the next, and back to the first.
pub open spec fn goes_round(points: Seq<Point>, all: Seq<Primitive>) -> bool {
    &&& all.len() == points.len()
    &&& forall|k: int|
        0 <= k < all.len() ==> #[trigger] all[k] == Primitive::Line(
            points[k],
            points[if k + 1 == points.len() {
                0
            } else {
                k + 1
            }],
        )
}

/// Whether the lines are these, one for one.
pub open spec fn are_lines(edges: Seq<(Point, Point)>, all: Seq<Primitive>) -> bool {
    &&& all.len() == edges.len()
    &&& forall|k: int|
        0 <= k < all.len() ==> #[trigger] all[k] == Primitive::Line(edges[k].0, edges[k].1)
}

/// A closed shape that is neither tiny nor drawn with fewer corners: its outline alone goes round
/// its corners, or is what a tile leaves of its edges; its area alone is filled, or what the tile
/// leaves of it; both together are its area and then its outline, or the outline alone where the
/// shape is small.
pub proof fn law_closed_shapes(points: Seq<Point>, tile: Option<Bounds>, rules: DrawRules)
    requires
        points.len() <= usize::MAX,
    ensures
        ({
            let parts = primitives::closed_parts(points, tile, rules);
            let outline = primitives::closed_shape(
                points,
                ClosedShapeDrawMode::Outline,
                tile,
                rules,
            );
            let hatch = primitives::closed_shape(points, ClosedShapeDrawMode::Hatch, tile, rules);
            let both = primitives::closed_shape(
                points,
                ClosedShapeDrawMode::HatchOutline,
                tile,
                rules,
            );
            let corners = polygon::tidied(points, rules.near);
            let tiny = corners.len() > 0 && !coords::exceeds(
                (rules.extent)(scene::points_bounds(corners)->0),
                0x4000_0000,
            );
            let small = corners.len() > 0 && coords::at_most(
                (rules.extent)(scene::points_bounds(corners)->0),
                0x4140_0000,
            );
            &&& parts.corners == corners
            &&& parts.fill == (match tile {
                Some(area) => polygon::tidied(
                    polygon::cut_polygon(points, area, rules.near, rules.cross),
                    rules.near,
                ),
                None => corners,
            })
            &&& tiny ==> both == hatch
            &&& !tiny && small ==> both == outline
            &&& !tiny && !small ==> both == hatch + outline
            &&& !tiny && parts.coarse is None ==> {
                &&& parts.fill.len() >= 3 ==> hatch == primitives::area(parts.fill, rules)
                &&& parts.fill.len() < 3 ==> hatch.len() == 0
                &&& tile is None && corners.len() >= 3 ==> goes_round(corners, outline)
                &&& tile is None && corners.len() < 3 ==> outline.len() == 0
                &&& tile matches Some(area) ==> are_lines(
                    polygon::cut_edges(
                        polygon::ring_edges(polygon::tidied(corners, rules.near)),
                        area,
                        rules.clip,
                    ),
                    outline,
                )
            }
            &&& !tiny ==> (parts.coarse matches Some(thin) ==> {
                &&& hatch == primitives::area(thin, rules)
                &&& thin.len() >= 3 ==> goes_round(thin, outline)
            })
        }),
{
    let parts = primitives::closed_parts(points, tile, rules);
    let outline = primitives::closed_shape(points, ClosedShapeDrawMode::Outline, tile, rules);
    let hatch = primitives::closed_shape(points, ClosedShapeDrawMode::Hatch, tile, rules);
    let both = primitives::closed_shape(points, ClosedShapeDrawMode::HatchOutline, tile, rules);
    let mode = ClosedShapeDrawMode::Outline;
    let coarse = parts.coarse is Some;
    let o = emission::outline_steps(
        coarse,
        emission::plain_outline(tile is Some, parts.corners.len()),
    );
    let f = emission::fill_steps(coarse, parts.fill.len());
    lemma_steps(f, o, parts, ClosedShapeDrawMode::HatchOutline, rules);
    lemma_modes(f, parts, ClosedShapeDrawMode::HatchOutline, ClosedShapeDrawMode::Hatch, rules);
    lemma_modes(o, parts, ClosedShapeDrawMode::HatchOutline, ClosedShapeDrawMode::Outline, rules);
    let marker = seq![DrawStep::Marker];
    assert(marker.drop_last() =~= Seq::<DrawStep>::empty());
    reveal_with_fuel(primitives::all_primitives, 2);
    if primitives::is_tiny(parts.corners, rules) {
        lemma_one_step(DrawStep::Marker, parts, ClosedShapeDrawMode::Hatch, rules);
        lemma_one_step(DrawStep::Marker, parts, ClosedShapeDrawMode::HatchOutline, rules);
    } else {
        if o.len() > 0 {
            lemma_one_step(o[0], parts, ClosedShapeDrawMode::Outline, rules);
            assert(o =~= seq![o[0]]);
        }
        if f.len() > 0 {
            lemma_one_step(f[0], parts, ClosedShapeDrawMode::Hatch, rules);
            assert(f =~= seq![f[0]]);
        }
    }
}

proof fn lemma_one_step(
    step: DrawStep,
    parts: primitives::ClosedParts,
    mode: ClosedShapeDrawMode,
    rules: DrawRules,
)
    ensures
        primitives::all_primitives(seq![step], parts, mode, rules) == primitives::step_primitives(
            step,
            parts,
            mode,
            rules,
        ),
{
    let one = seq![step];
    assert(one.drop_last() =~= Seq::<DrawStep>::empty());
    reveal_with_fuel(primitives::all_primitives, 2);
    assert(primitives::all_primitives(one, parts, mode, rules) =~= primitives::step_primitives(
        step,
        parts,
        mode,
        rules,
    ));
}

proof fn lemma_steps(
    first: Seq<DrawStep>,
    second: Seq<DrawStep>,
    parts: primitives::ClosedParts,
    mode: ClosedShapeDrawMode,
    rules: DrawRules,
)
    ensures
        primitives::all_primitives(first + second, parts, mode, rules)
            == primitives::all_primitives(first, parts, mode, rules) + primitives::all_primitives(
            second,
            parts,
            mode,
            rules,
        ),
    decreases second.len(),
{
    let all = first + second;
    if second.len() == 0 {
        assert(all =~= first);
    } else {
        lemma_steps(first, second.drop_last(), parts, mode, rules);
        assert(all.drop_last() =~= first + second.drop_last());
        assert(all.last() == second.last());
    }
    assert(primitives::all_primitives(all, parts, mode, rules) =~= primitives::all_primitives(
        first,
        parts,
        mode,
        rules,
    ) + primitives::all_primitives(second, parts, mode, rules));
}

/// Only marks depend on the mode.
proof fn lemma_modes(
    steps: Seq<DrawStep>,
    parts: primitives::ClosedParts,
    a: ClosedShapeDrawMode,
    b: ClosedShapeDrawMode,
    rules: DrawRules,
)
    requires
        forall|k: int| 0 <= k < steps.len() ==> #[trigger] steps[k] != DrawStep::Marker,
    ensures
        primitives::all_primitives(steps, parts, a, rules) == primitives::all_primitives(
            steps,
            parts,
            b,
            rules,
        ),
    decreases steps.len(),
{
    if steps.len() > 0 {
        let init = steps.drop_last();
        assert forall|k: int| 0 <= k < init.len() implies #[trigger] init[k]
            != DrawStep::Marker by {
            assert(init[k] == steps[k]);
        }
        lemma_modes(init, parts, a, b, rules);
        assert(steps.last() == steps[steps.len() - 1]);
    }
}

/// A tiny closed shape is drawn as a mark around its middle: the lines round the four corners of
/// the mark where only outlines are drawn, else its area.
pub proof fn law_tiny_closed_shapes_are_marks(
    points: Seq<Point>,
    mode: ClosedShapeDrawMode,
    tile: Option<Bounds>,
    rules: DrawRules,
)
    requires
        polygon::tidied(points, rules.near).len() > 0,
        !coords::exceeds(
            (rules.extent)(scene::points_bounds(polygon::tidied(points, rules.near))->0),
            0x4000_0000,
        ),
        scene::points_bounds(polygon::tidied(points, rules.near)) is Some,
    ensures
        ({
            let around = scene::points_bounds(polygon::tidied(points, rules.near))->0;
            let (a, b, c, d) = (rules.mark)(around);
            let all = primitives::closed_shape(points, mode, tile, rules);
            &&& mode == ClosedShapeDrawMode::Outline ==> all =~= seq![
                Primitive::MarkLine(a, b),
                Primitive::MarkLine(b, c),
                Primitive::MarkLine(c, d),
                Primitive::MarkLine(d, a),
            ]
            &&& mode != ClosedShapeDrawMode::Outline ==> all == primitives::area(
                seq![a, b, c, d],
                rules,
            )
        }),
{
    let parts = primitives::closed_parts(points, tile, rules);
    lemma_one_step(DrawStep::Marker, parts, mode, rules);
}

/// A line with fewer than two points is not drawn; a tiny one is drawn as one line of a mark;
/// others from point to point, or what a tile leaves of that, with fewer points where they are
/// thinned out.
pub proof fn law_open_lines(points: Seq<Point>, tile: Option<Bounds>, rules: DrawRules)
    ensures
        ({
            let all = primitives::open_shape(points, tile, rules);
            let tiny = !coords::exceeds(
                (rules.extent)(scene::points_bounds(points)->0),
                0x4000_0000,
            );
            let thin = emission::coarse_line(
                points,
                rules.extent,
                rules.line_target,
                rules.line_sample,
            );
            let steps = |points: Seq<Point>|
                Seq::new((points.len() - 1) as nat, |i: int| (points[i], points[i + 1]));
            &&& points.len() < 2 ==> all.len() == 0
            &&& points.len() >= 2 && tiny ==> {
                let mark = (rules.mark_line)(scene::points_bounds(points)->0);
                all =~= seq![Primitive::Line(mark.0, mark.1)]
            }
            &&& points.len() >= 2 && !tiny ==> (match (thin, tile) {
                (Some(kept), _) => kept.len() >= 2 ==> are_lines(steps(kept), all),
                (None, None) => are_lines(steps(points), all),
                (None, Some(area)) => are_lines(
                    polygon::cut_edges(steps(points), area, rules.clip),
                    all,
                ),
            })
        }),
{
    let steps = Seq::new((points.len() - 1) as nat, |i: int| (points[i], points[i + 1]));
    if points.len() >= 2 {
        assert(polygon::outline_lines(points, false) =~= steps);
    }
}

/// A piece of a line that was cut to its tile earlier is drawn as the line is, but for one without
/// length, of which nothing is drawn.
pub proof fn law_line_pieces(a: Point, b: Point, rules: DrawRules)
    ensures
        (rules.near)(a, b) ==> primitives::line_fragment(seq![a, b], rules).len() == 0,
        !(rules.near)(a, b) ==> primitives::line_fragment(seq![a, b], rules)
            == primitives::open_shape(seq![a, b], None, rules),
{
}

/// A closed piece that was cut to its tile earlier: its outline alone are the stored lines, its
/// area alone is filled, both together are its area and then its outline, or the outline alone
/// where the piece is small.
pub proof fn law_closed_pieces(
    points: Seq<Point>,
    stored: Seq<(Point, Point)>,
    rules: DrawRules,
)
    ensures
        ({
            let corners = polygon::tidied(points, rules.near);
            let parts = primitives::fragment_parts(points, stored, rules);
            let outline = primitives::fragment(
                points,
                stored,
                ClosedShapeDrawMode::Outline,
                rules,
            );
            let hatch = primitives::fragment(points, stored, ClosedShapeDrawMode::Hatch, rules);
            let both = primitives::fragment(
                points,
                stored,
                ClosedShapeDrawMode::HatchOutline,
                rules,
            );
            let tiny = corners.len() > 0 && !coords::exceeds(
                (rules.extent)(scene::points_bounds(corners)->0),
                0x4000_0000,
            );
            let small = corners.len() > 0 && coords::at_most(
                (rules.extent)(scene::points_bounds(corners)->0),
                0x4140_0000,
            );
            &&& tiny ==> both == hatch
            &&& !tiny && small ==> both == outline
            &&& !tiny && !small ==> both == hatch + outline
            &&& !tiny && parts.coarse is None ==> {
                &&& corners.len() >= 3 ==> hatch == primitives::area(corners, rules)
                &&& corners.len() < 3 ==> hatch.len() == 0
                &&& are_lines(stored, outline)
            }
            &&& !tiny ==> (parts.coarse matches Some(thin) ==> {
                &&& hatch == primitives::area(thin, rules)
                &&& thin.len() >= 3 ==> goes_round(thin, outline)
            })
        }),
{
    let parts = primitives::fragment_parts(points, stored, rules);
    let coarse = parts.coarse is Some;
    let o = emission::outline_steps(coarse, seq![DrawStep::StoredOutline]);
    let f = emission::fill_steps(coarse, parts.fill.len());
    lemma_steps(f, o, parts, ClosedShapeDrawMode::HatchOutline, rules);
    lemma_modes(f, parts, ClosedShapeDrawMode::HatchOutline, ClosedShapeDrawMode::Hatch, rules);
    lemma_modes(o, parts, ClosedShapeDrawMode::HatchOutline, ClosedShapeDrawMode::Outline, rules);
    if primitives::is_tiny(parts.corners, rules) {
        lemma_one_step(DrawStep::Marker, parts, ClosedShapeDrawMode::Hatch, rules);
        lemma_one_step(DrawStep::Marker, parts, ClosedShapeDrawMode::HatchOutline, rules);
    } else {
        lemma_one_step(o[0], parts, ClosedShapeDrawMode::Outline, rules);
        assert(o =~= seq![o[0]]);
        if f.len() > 0 {
            lemma_one_step(f[0], parts, ClosedShapeDrawMode::Hatch, rules);
            assert(f =~= seq![f[0]]);
        }
    }
}

/// Which outlines are drawn with fewer corners: those with sixty-four at least that lie within
/// twenty-four on the screen; the area first, then the whole outline.
pub proof fn law_which_outlines_are_thinned_out(
    points: Seq<Point>,
    tile: Option<Bounds>,
    rules: DrawRules,
)
    ensures
        ({
            let parts = primitives::closed_parts(points, tile, rules);
            let wants = |ring: Seq<Point>|
                ring.len() >= 64
                    && coords::at_most(
                    (rules.extent)(scene::points_bounds(ring)->0),
                    0x41c0_0000,
                );
            let thin = |ring: Seq<Point>|
                emission::coarse_ring(ring, rules.near, rules.ring_target, rules.ring_sample);
            &&& wants(parts.fill) ==> parts.coarse == thin(parts.fill)
            &&& !wants(parts.fill) && wants(parts.corners) ==> parts.coarse == thin(parts.corners)
            &&& !wants(parts.fill) && !wants(parts.corners) ==> parts.coarse is None
        }),
{
}

/// The greater of two numbers.
pub open spec fn no_less(n: int, low: int) -> int {
    if n < low {
        low
    } else {
        n
    }
}

/// The corner that a sample picks, never beyond the last one.
pub open spec fn picked(
    n: nat,
    target: usize,
    pick: spec_fn(usize, usize, usize) -> usize,
    i: int,
    last: int,
) -> int {
    let at = pick(n as usize, target, i as usize) as int;
    if at > last {
        last
    } else {
        at
    }
}

/// Whether one of the samples picks the point.
pub open spec fn is_picked(
    points: Seq<Point>,
    target: usize,
    pick: spec_fn(usize, usize, usize) -> usize,
    from: int,
    end: int,
    last: int,
    p: Point,
) -> bool {
    exists|i: int|
        from <= i < end && points[#[trigger] picked(points.len(), target, pick, i, last)] == p
}

/// An outline with fewer corners has corners of the tidied outline alone: those that the samples
/// pick, each once; it is the tidied outline where that has no more corners than aimed at, four at
/// least, or where fewer than three would be left. One of fewer than three corners has none.
pub proof fn law_thinned_outlines(
    points: Seq<Point>,
    same: spec_fn(Point, Point) -> bool,
    aim: spec_fn(Bounds) -> usize,
    pick: spec_fn(usize, usize, usize) -> usize,
)
    requires
        points.len() <= usize::MAX,
    ensures
        ({
            let corners = polygon::tidied(points, same);
            let aimed = aim(scene::points_bounds(corners)->0) as int;
            let raised = no_less(aimed, 4);
            let n = corners.len();
            match emission::coarse_ring(points, same, aim, pick) {
                None => n < 3,
                Some(kept) => {
                    &&& n >= 3
                    &&& kept.len() >= 3
                    &&& n <= raised ==> kept == corners
                    &&& kept != corners ==> {
                        &&& kept.no_duplicates()
                        &&& forall|i: int|
                            0 <= i < raised ==> kept.contains(
                                corners[#[trigger] picked(n, raised as usize, pick, i, n - 1)],
                            )
                        &&& forall|p: Point| #[trigger]
                            kept.contains(p) ==> is_picked(
                                corners,
                                raised as usize,
                                pick,
                                0,
                                raised,
                                n - 1,
                                p,
                            )
                    }
                },
            }
        }),
{
    let corners = polygon::tidied(points, same);
    let n = corners.len();
    lemma_tidied_len(points, same);
    if n >= 3 {
        let target = emission::raised_then_lowered(
            aim(scene::points_bounds(corners).unwrap()),
            4,
            n as usize,
        );
        lemma_has_bounds(corners);
        assert(target < n ==> target == no_less(aim(scene::points_bounds(corners)->0) as int, 4));
        let all = emission::samples(corners, target, pick, 0, target as int, n - 1);
        let kept = seqs::distinct(all);
        seqs::lemma_append_new(Seq::<Point>::empty(), all);
        if n > target && kept.len() >= 3 {
            assert forall|i: int| 0 <= i < target implies kept.contains(
                corners[#[trigger] picked(n, target, pick, i, n - 1)],
            ) by {
                assert(all[i] == corners[picked(n, target, pick, i, n - 1)]);
                assert(all.contains(all[i]));
            }
            assert forall|p: Point| #[trigger] kept.contains(p) implies is_picked(
                corners,
                target,
                pick,
                0,
                target as int,
                n - 1,
                p,
            ) by {
                assert(all.contains(p));
                let i = choose|i: int| 0 <= i < all.len() && all[i] == p;
                assert(corners[picked(n, target, pick, i, n - 1)] == p);
            }
        }
    }
}

proof fn lemma_has_bounds(points: Seq<Point>)
    requires
        points.len() > 0,
    ensures
        scene::points_bounds(points) is Some,
{
    let spanned = points.map_values(|p: Point| scene::point_bounds(p));
    assert(scene::union_of(spanned) is Some);
}

proof fn lemma_tidied_len(points: Seq<Point>, same: spec_fn(Point, Point) -> bool)
    ensures
        polygon::tidied(points, same).len() <= points.len(),
{
    lemma_thinned_len(points, same);
}

proof fn lemma_thinned_len(points: Seq<Point>, same: spec_fn(Point, Point) -> bool)
    ensures
        polygon::thinned(points, same).len() <= points.len(),
    decreases points.len(),
{
    if points.len() > 0 {
        lemma_thinned_len(points.drop_last(), same);
    }
}

/// A line with fewer points starts with its first point and ends with a point like its last one,
/// with those between that the samples pick; it has all of its points where they are no more than
/// aimed at, two at least. Lines of fewer than sixty-four points or of an extent over twenty-four
/// keep theirs.
pub proof fn law_thinned_lines(
    points: Seq<Point>,
    extent_of: spec_fn(Bounds) -> i32,
    aim: spec_fn(Bounds) -> usize,
    pick: spec_fn(usize, usize, usize) -> usize,
)
    requires
        points.len() <= usize::MAX,
    ensures
        ({
            let n = points.len();
            let around = scene::points_bounds(points)->0;
            let aimed = aim(around) as int;
            let raised = no_less(aimed, 2);
            match emission::coarse_line(points, extent_of, aim, pick) {
                None => n < 64 || coords::exceeds(extent_of(around), 0x41c0_0000),
                Some(kept) => {
                    &&& n >= 64
                    &&& !coords::exceeds(extent_of(around), 0x41c0_0000)
                    &&& n <= raised ==> kept == points
                    &&& kept.len() >= 1
                    &&& kept[0] == points[0]
                    &&& kept != points ==> scene::same_point(kept.last(), points.last())
                        || kept.last() == points.last()
                    &&& kept != points ==> {
                        &&& forall|i: int|
                            1 <= i < raised - 1 ==> kept.contains(
                                points[#[trigger] picked(n, raised as usize, pick, i, n - 2)],
                            )
                        &&& forall|p: Point| #[trigger]
                            kept.contains(p) ==> p == points[0] || p == points.last()
                                || is_picked(
                                points,
                                raised as usize,
                                pick,
                                1,
                                raised - 1,
                                n - 2,
                                p,
                            )
                    }
                },
            }
        }),
{
    let n = points.len();
    let around = scene::points_bounds(points)->0;
    if n >= 64 && !coords::exceeds(extent_of(around), 0x41c0_0000) {
        lemma_has_bounds(points);
        let target = emission::raised_then_lowered(aim(around), 2, n as usize);
        assert(target < n ==> target == no_less(aim(around) as int, 2));
        let all = emission::samples(points, target, pick, 1, target - 1, n - 2);
        let first = seq![points[0]];
        let kept = seqs::append_new(first, all);
        seqs::lemma_append_new(first, all);
        assert(kept[0] == first[0]);
        let result = emission::coarse_line(points, extent_of, aim, pick)->0;
        if result != points {
            assert forall|p: Point| #[trigger] result.contains(p) implies kept.contains(p) || p
                == points.last() by {
                seqs::lemma_push_contains(kept, points.last(), p);
            }
            assert forall|i: int| 1 <= i < target - 1 implies result.contains(
                points[#[trigger] picked(n, target, pick, i, n - 2)],
            ) by {
                let p = points[picked(n, target, pick, i, n - 2)];
                assert(all[i - 1] == p);
                assert(all.contains(p));
                assert(kept.contains(p));
                seqs::lemma_push_contains(kept, points.last(), p);
            }
            assert forall|p: Point| #[trigger] result.contains(p) implies p == points[0] || p
                == points.last() || is_picked(points, target, pick, 1, target - 1, n - 2, p) by {
                if p != points.last() {
                    assert(kept.contains(p));
                    if all.contains(p) {
                        let i = choose|i: int| 0 <= i < all.len() && all[i] == p;
                        assert(points[picked(n, target, pick, i + 1, n - 2)] == p);
                    } else {
                        assert(first.contains(p));
                    }
                }
            }
        }
    }
}

} // verus!
