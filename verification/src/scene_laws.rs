//! What holds of coordinates, rectangles and shapes.

use crate::coords;
use crate::layers;
use crate::layout::{LayoutBundle, LayoutCellId, LayoutShape};
use crate::scene;
use crate::scene::{Bounds, LayerId, Point, RectShape, SceneBundle, ShapeModel};
use crate::seqs;
use crate::view_builder::LayoutViewBuildOptions;
use vstd::prelude::*;

verus! {

/// What a bit pattern amounts to among the patterns of numbers: its magnitude, below nought where
/// the sign bit is set.
pub open spec fn signed_magnitude(bits: u32) -> int {
    if bits < 0x8000_0000 {
        bits as int
    } else {
        0x8000_0000 - bits
    }
}

/// Whether a bit pattern is that of a number: its magnitude does not exceed that of infinity.
pub open spec fn is_number(bits: u32) -> bool {
    -0x7f80_0000 <= signed_magnitude(bits) <= 0x7f80_0000
}

/// Keys compare as the numbers with their bit patterns do, and what is no number compares with
/// nothing. Both zeros are the same number.
pub proof fn law_keys_compare_as_numbers(a: u32, b: u32)
    ensures
        ({
            let x = coords::key_of_bits(a) as i32;
            let y = coords::key_of_bits(b) as i32;
            let numbers = is_number(a) && is_number(b);
            &&& coords::is_nan_key(x) <==> !is_number(a)
            &&& coords::at_most(x, y) <==> numbers && signed_magnitude(a) <= signed_magnitude(b)
            &&& coords::exceeds(x, y) <==> numbers && signed_magnitude(a) > signed_magnitude(b)
            &&& coords::same_number(x, y) <==> numbers && signed_magnitude(a) == signed_magnitude(b)
            &&& x == y <==> a == b
        }),
{
}

/// Whether the point lies in the rectangle or on its edge.
pub open spec fn holds_point(bounds: Bounds, p: Point) -> bool {
    &&& coords::at_most(bounds.min_x, p.x)
    &&& coords::at_most(p.x, bounds.max_x)
    &&& coords::at_most(bounds.min_y, p.y)
    &&& coords::at_most(p.y, bounds.max_y)
}

/// Two points are the same where neither lies beyond the other along either axis.
pub proof fn law_same_points(a: Point, b: Point)
    ensures
        scene::same_point(a, b) <==> coords::at_most(a.x, b.x) && coords::at_most(b.x, a.x)
            && coords::at_most(a.y, b.y) && coords::at_most(b.y, a.y),
        !coords::is_nan_key(a.x) && !coords::is_nan_key(a.y) ==> scene::same_point(a, a),
{
}

/// Two rectangles that hold points meet just where a point lies in both.
pub proof fn law_meeting_rectangles_share_a_point(a: Bounds, b: Bounds, p: Point, q: Point)
    requires
        holds_point(a, p),
        holds_point(b, q),
    ensures
        scene::bounds_meet(a, b) <==> exists|c: Point| #[trigger]
            holds_point(a, c) && holds_point(b, c),
{
    if scene::bounds_meet(a, b) {
        let c = Point {
            x: if coords::at_most(a.min_x, b.min_x) {
                b.min_x
            } else {
                a.min_x
            },
            y: if coords::at_most(a.min_y, b.min_y) {
                b.min_y
            } else {
                a.min_y
            },
        };
        assert(holds_point(a, c) && holds_point(b, c));
    }
}

/// One rectangle that holds points lies within another just where every point of it lies there.
pub proof fn law_rectangle_within_another(inner: Bounds, outer: Bounds, p: Point)
    requires
        holds_point(inner, p),
    ensures
        scene::within(inner, outer) <==> forall|c: Point| #[trigger]
            holds_point(inner, c) ==> holds_point(outer, c),
{
    let low = Point { x: inner.min_x, y: inner.min_y };
    let high = Point { x: inner.max_x, y: inner.max_y };
    assert(holds_point(inner, low));
    assert(holds_point(inner, high));
}

/// Whether the edge is one of the two, and no number lies beyond it; where only one of the two is a
/// number, it is that one.
pub open spec fn is_outer_edge(edge: i32, a: i32, b: i32, is_low: bool) -> bool {
    &&& edge == a || edge == b
    &&& coords::is_nan_key(edge) ==> coords::is_nan_key(a) && coords::is_nan_key(b)
    &&& is_low ==> !coords::exceeds(edge, a) && !coords::exceeds(edge, b)
    &&& !is_low ==> !coords::exceeds(a, edge) && !coords::exceeds(b, edge)
}

/// The rectangle around two takes each edge from the one that reaches farther.
pub proof fn law_union_takes_the_outer_edges(a: Bounds, b: Bounds)
    ensures
        ({
            let around = scene::bounds_union(a, b);
            &&& is_outer_edge(around.min_x, a.min_x, b.min_x, true)
            &&& is_outer_edge(around.min_y, a.min_y, b.min_y, true)
            &&& is_outer_edge(around.max_x, a.max_x, b.max_x, false)
            &&& is_outer_edge(around.max_y, a.max_y, b.max_y, false)
        }),
{
}

/// Whether each edge of the rectangle is met by one of the points.
pub open spec fn edges_are_met(bounds: Bounds, points: Seq<Point>) -> bool {
    &&& exists|i: int| 0 <= i < points.len() && (#[trigger] points[i]).x == bounds.min_x
    &&& exists|i: int| 0 <= i < points.len() && (#[trigger] points[i]).y == bounds.min_y
    &&& exists|i: int| 0 <= i < points.len() && (#[trigger] points[i]).x == bounds.max_x
    &&& exists|i: int| 0 <= i < points.len() && (#[trigger] points[i]).y == bounds.max_y
}

/// The rectangle around points holds every point and has one on each edge; where there are no
/// points there is no rectangle.
pub proof fn law_points_lie_in_their_rectangle(points: Seq<Point>)
    requires
        forall|i: int|
            0 <= i < points.len() ==> !coords::is_nan_key((#[trigger] points[i]).x)
                && !coords::is_nan_key(points[i].y),
    ensures
        scene::points_bounds(points) is None <==> points.len() == 0,
        scene::points_bounds(points) matches Some(bounds) ==> {
            &&& forall|i: int| 0 <= i < points.len() ==> holds_point(bounds, #[trigger] points[i])
            &&& edges_are_met(bounds, points)
        },
    decreases points.len(),
{
    if points.len() > 0 {
        let init = points.drop_last();
        let last = points.last();
        let spans = points.map_values(|p: Point| scene::point_bounds(p));
        assert forall|i: int| 0 <= i < init.len() implies !coords::is_nan_key(
            (#[trigger] init[i]).x,
        ) && !coords::is_nan_key(init[i].y) by {
            assert(init[i] == points[i]);
        }
        law_points_lie_in_their_rectangle(init);
        assert(spans.drop_last() =~= init.map_values(|p: Point| scene::point_bounds(p)));
        assert(points[points.len() - 1] == last);
        let bounds = scene::points_bounds(points)->0;
        if init.len() > 0 {
            let before = scene::points_bounds(init)->0;
            assert(holds_point(before, init[0]));
            assert forall|i: int| 0 <= i < points.len() implies holds_point(
                bounds,
                #[trigger] points[i],
            ) by {
                if i < init.len() {
                    assert(holds_point(before, init[i]));
                }
            }
            let a = choose|i: int| 0 <= i < init.len() && (#[trigger] init[i]).x == before.min_x;
            let b = choose|i: int| 0 <= i < init.len() && (#[trigger] init[i]).y == before.min_y;
            let c = choose|i: int| 0 <= i < init.len() && (#[trigger] init[i]).x == before.max_x;
            let d = choose|i: int| 0 <= i < init.len() && (#[trigger] init[i]).y == before.max_y;
            assert(points[a].x == before.min_x);
            assert(points[b].y == before.min_y);
            assert(points[c].x == before.max_x);
            assert(points[d].y == before.max_y);
        } else {
            assert forall|i: int| 0 <= i < points.len() implies holds_point(
                bounds,
                #[trigger] points[i],
            ) by {
                assert(i == 0);
            }
        }
    }
}

/// The corners of a rectangle go round it: the sides from one to the next run along one axis and
/// then along the other, and opposite corners lie at opposite ends of it.
pub proof fn law_corners_go_round(bounds: Bounds, i: int)
    requires
        0 <= i < 4,
    ensures
        ({
            let corners = scene::corners(bounds);
            let corner = corners[i];
            let next = corners[(i + 1) % 4];
            let opposite = corners[(i + 2) % 4];
            &&& corners.len() == 4
            &&& corners[0] == (Point { x: bounds.min_x, y: bounds.min_y })
            &&& i % 2 == 0 ==> next.y == corner.y && next.x == opposite.x
            &&& i % 2 == 1 ==> next.x == corner.x && next.y == opposite.y
            &&& (corner.x == bounds.min_x && opposite.x == bounds.max_x) || (corner.x
                == bounds.max_x && opposite.x == bounds.min_x)
            &&& (corner.y == bounds.min_y && opposite.y == bounds.max_y) || (corner.y
                == bounds.max_y && opposite.y == bounds.min_y)
        }),
{
}

/// Layers are ordered by layer number, and those with one layer number by datatype.
pub proof fn law_layer_numbers_come_first(a: LayerId, b: LayerId)
    ensures
        a.layer < b.layer ==> layers::layer_lt(a, b) && !layers::layer_lt(b, a),
        a.layer == b.layer && a.datatype < b.datatype ==> layers::layer_lt(a, b)
            && !layers::layer_lt(b, a),
        a == b ==> !layers::layer_lt(a, b),
        a != b ==> layers::layer_lt(a, b) || layers::layer_lt(b, a),
{
}

/// The shapes on a range of levels are those of the scene that stand on one of them, in scene
/// order, each as often as it is there.
pub proof fn law_levels_of_a_scene(scene: Seq<ShapeModel>, min_level: u32, max_level: u32)
    ensures
        seqs::made_in_order(
            scene,
            scene::on_levels(scene, min_level, max_level),
            |shape: ShapeModel|
                shape.hierarchy_level >= min_level && shape.hierarchy_level <= max_level,
            |shape: ShapeModel, kept: ShapeModel| kept == shape,
        ),
{
    seqs::lemma_filter_in_order(
        scene,
        |shape: ShapeModel| min_level <= shape.hierarchy_level <= max_level,
        |shape: ShapeModel|
            shape.hierarchy_level >= min_level && shape.hierarchy_level <= max_level,
        |shape: ShapeModel, kept: ShapeModel| kept == shape,
    );
}

/// The points of two parts of a scene are counted together, and one shape counts for its points.
pub proof fn law_points_are_counted(a: Seq<ShapeModel>, b: Seq<ShapeModel>, shape: ShapeModel)
    ensures
        scene::point_count(a + b) == scene::point_count(a) + scene::point_count(b),
        scene::point_count(seq![shape]) == shape.points.len(),
    decreases b.len(),
{
    let one = seq![shape];
    assert(one.drop_last() =~= Seq::empty());
    reveal_with_fuel(scene::point_count, 2);
    if b.len() == 0 {
        assert(a + b =~= a);
    } else {
        law_points_are_counted(a, b.drop_last(), shape);
        assert((a + b).drop_last() =~= a + b.drop_last());
        assert((a + b).last() == b.last());
    }
}

/// The rectangle of a shape with points is the one around them, with room for its line if it has
/// one.
pub proof fn law_lines_need_room(
    points: Seq<Point>,
    width: i32,
    widened: spec_fn(Bounds, i32) -> Bounds,
)
    requires
        points.len() > 0,
    ensures
        Some(scene::padded_bounds(points, None, widened)) == scene::points_bounds(points),
        scene::padded_bounds(points, Some(width), widened) == widened(
            scene::padded_bounds(points, None, widened),
            width,
        ),
{
}

/// A rectangle is a closed shape on the top level, without a line of its own, whose points go
/// round its corners; as part of a layout too.
pub proof fn law_rectangles_are_closed(
    layer: LayerId,
    bounds: Bounds,
    shape: RectShape,
    part: LayoutShape,
    i: int,
)
    requires
        call_ensures(RectShape::rectangle, (layer, bounds), shape),
        call_ensures(LayoutShape::rectangle, (layer, bounds), part),
        0 <= i < 4,
    ensures
        shape@.layer == layer && part@.layer == layer,
        shape@.closed && part@.closed,
        shape@.hierarchy_level == 0,
        shape@.stroke_width_world is None && part@.stroke_width is None,
        shape@.bounds == bounds,
        shape@.points.len() == 4,
        part@.points == shape@.points,
        shape@.points[i].x == (if i == 1 || i == 2 {
            bounds.max_x
        } else {
            bounds.min_x
        }),
        shape@.points[i].y == (if i >= 2 {
            bounds.max_y
        } else {
            bounds.min_y
        }),
{
}

/// A shape of a layout around points is closed and as large as they need; a line through points is
/// open and has its width.
pub proof fn law_shapes_of_a_layout(
    layer: LayerId,
    points: Vec<Point>,
    width: i32,
    bounds: Bounds,
    area: LayoutShape,
    line: LayoutShape,
)
    requires
        points@.len() > 0,
        call_ensures(LayoutShape::polygon, (layer, points), area),
        call_ensures(LayoutShape::path, (layer, points, width, bounds), line),
    ensures
        area@.closed && !line@.closed,
        area@.points == points@ && line@.points == points@,
        area@.layer == layer && line@.layer == layer,
        area@.stroke_width is None && line@.stroke_width == Some(width),
        Some(area@.bounds) == scene::points_bounds(points@),
        line@.bounds == bounds,
{
}

/// Selecting a view of a bundle changes the selection where there is such a view and it is another
/// one, tells so, and leaves the views.
pub proof fn law_selecting_a_view(bundle: &mut SceneBundle, index: usize, changed: bool)
    requires
        call_ensures(SceneBundle::select, (bundle, index), changed),
    ensures
        final(bundle).listed() == old(bundle).listed(),
        changed <==> final(bundle).selection() != old(bundle).selection(),
        index < old(bundle).listed().len() ==> final(bundle).selection() == index,
        index >= old(bundle).listed().len() ==> !changed,
{
}

/// Selecting a view of a layout changes the selection where there is such a view and it is another
/// one, tells so, and leaves cells and views.
pub proof fn law_selecting_a_layout_view(bundle: &mut LayoutBundle, index: usize, changed: bool)
    requires
        call_ensures(LayoutBundle::select, (bundle, index), changed),
    ensures
        final(bundle).listed() == old(bundle).listed(),
        final(bundle).view_list() == old(bundle).view_list(),
        changed <==> final(bundle).selection() != old(bundle).selection(),
        index < old(bundle).view_list().len() ==> final(bundle).selection() == index,
        index >= old(bundle).view_list().len() ==> !changed,
{
}

/// The limits of a view are set one by one, each without touching the others.
pub proof fn law_limits_of_a_view(
    root: LayoutCellId,
    min_level: u32,
    max_level: u32,
    area: Option<Bounds>,
    layer: Option<LayerId>,
    scale: i32,
    extent: i32,
    level: u32,
    a: LayoutViewBuildOptions,
    b: LayoutViewBuildOptions,
    c: LayoutViewBuildOptions,
    e: LayoutViewBuildOptions,
)
    requires
        call_ensures(LayoutViewBuildOptions::new, (root, min_level, max_level), a),
        call_ensures(LayoutViewBuildOptions::with_visible_world_bounds, (a, area), b),
        call_ensures(LayoutViewBuildOptions::with_layer_filter, (b, layer), c),
        call_ensures(
            LayoutViewBuildOptions::with_subtree_screen_lod,
            (c, scale, extent, level),
            e,
        ),
    ensures
        e.root_cell_id == root,
        e.min_hierarchy_level == min_level && e.max_hierarchy_level == max_level,
        e.visible_world_bounds == area,
        e.layer_filter == layer,
        e.subtree_screen_lod matches Some(lod) && lod.world_to_screen_scale == scale
            && lod.min_subtree_screen_extent == extent && lod.min_collapse_hierarchy_level == level,
        a.visible_world_bounds is None && a.layer_filter is None && a.subtree_screen_lod is None,
        c.subtree_screen_lod is None && b.layer_filter is None,
{
}

/// The cells of a layout are listed by ascending number, and its views start from cells that it
/// has.
pub proof fn law_cells_are_listed_by_number(bundle: LayoutBundle, i: int, j: int)
    requires
        bundle.linked(),
    ensures
        0 <= i < j < bundle.listed().len() ==> bundle.listed()[i]@.id.0
            < bundle.listed()[j]@.id.0,
        0 <= i < bundle.view_list().len() ==> bundle.has(bundle.view_list()[i].about().root()),
        0 <= i < bundle.listed().len() && 0 <= j < bundle.listed()[i]@.instances.len()
            ==> bundle.has(bundle.listed()[i]@.instances[j].target_cell_id),
{
    if 0 <= i < bundle.listed().len() && 0 <= j < bundle.listed()[i]@.instances.len() {
        assert(!crate::layout::has_dangling(bundle.listed(), bundle.listed()[i]@));
        assert(!crate::layout::dangles(
            bundle.listed(),
            bundle.listed()[i]@.instances[j],
        ));
    }
}

} // verus!
