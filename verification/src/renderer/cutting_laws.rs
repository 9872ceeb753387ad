//! What holds of the pieces that shapes are cut into ahead of drawing, and of thinned outlines.

use crate::coords;
use crate::renderer::drawing;
use crate::renderer::drawing::{DrawnModel, LayerRules};
use crate::renderer::drawing_laws;
use crate::renderer::emission;
use crate::renderer::emission::DrawItem;
use crate::renderer::fragments;
use crate::renderer::fragments::{
    FragmentModel, PlaneMath, Preparation, PreparedFragmentBudget, PreparedTileFragment,
    PreparedTileFragments,
};
use crate::renderer::geometry;
use crate::renderer::geometry::{
    ClosedShapeDrawMode, HatchParams, HatchStylePreset, RenderCacheKey, TileId, ViewBits,
};
use crate::renderer::grid::{CellSpan, TileGridIndex};
use crate::renderer::polygon;
use crate::renderer::primitives;
use crate::renderer::primitives::DrawRules;
use crate::renderer::queue_laws;
use crate::renderer::requests;
use crate::renderer::tiles;
use crate::scene;
use crate::scene::{Bounds, LayerId, Point};
use crate::seqs;
use vstd::prelude::*;

verus! {

/// A closed shape makes one piece in a box where at least three corners are left of it there, and
/// none else: on its layer, with its width, with those corners and with what is left of its own
/// edges.
pub proof fn law_pieces_of_areas(shape: scene::ShapeModel, bounds: Bounds, math: PlaneMath)
    requires
        shape.closed,
    ensures
        ({
            let pieces = fragments::pieces_in(shape, bounds, math);
            let left = polygon::tidied(
                polygon::cut_polygon(shape.points, bounds, math.same, math.meet),
                math.same,
            );
            &&& left.len() < 3 ==> pieces.len() == 0
            &&& left.len() >= 3 ==> pieces.len() == 1 && {
                let piece = pieces[0];
                &&& piece.layer == shape.layer
                &&& piece.closed
                &&& piece.stroke_width_world == shape.stroke_width_world
                &&& piece.points == left
                &&& piece.outline_segments == polygon::cut_edges(
                    polygon::ring_edges(polygon::tidied(shape.points, math.same)),
                    bounds,
                    math.cut,
                )
            }
        }),
{
}

/// An open line makes a piece in a box for each of its lines of which something is left there: on
/// its layer, with its width, from one end of what is left to the other.
pub proof fn law_pieces_of_lines(shape: scene::ShapeModel, bounds: Bounds, math: PlaneMath)
    requires
        !shape.closed,
        shape.points.len() > 0,
    ensures
        seqs::made_in_order(
            Seq::new((shape.points.len() - 1) as nat, |i: int| i),
            fragments::pieces_in(shape, bounds, math),
            |i: int| (math.cut)(bounds, shape.points[i], shape.points[i + 1]) is Some,
            |i: int, piece: FragmentModel| is_line_piece(shape, bounds, math, i, piece),
        ),
{
    let n = (shape.points.len() - 1) as nat;
    let steps = polygon::outline_lines(shape.points, false);
    assert(steps =~= Seq::new(n, |i: int| (shape.points[i], shape.points[i + 1])));
    lemma_line_pieces(shape, bounds, math, n);
    assert(steps.take(n as int) =~= steps);
}

/// Whether the piece is what a box leaves of one line of a shape.
pub open spec fn is_line_piece(
    shape: scene::ShapeModel,
    bounds: Bounds,
    math: PlaneMath,
    i: int,
    piece: FragmentModel,
) -> bool {
    &&& piece.layer == shape.layer
    &&& !piece.closed
    &&& piece.stroke_width_world == shape.stroke_width_world
    &&& piece.outline_segments.len() == 0
    &&& piece.points.len() == 2
    &&& (math.cut)(bounds, shape.points[i], shape.points[i + 1]) == Some(
        (piece.points[0], piece.points[1]),
    )
}

proof fn lemma_line_pieces(
    shape: scene::ShapeModel,
    bounds: Bounds,
    math: PlaneMath,
    count: nat,
)
    requires
        count < shape.points.len(),
    ensures
        ({
            let steps = Seq::new(
                (shape.points.len() - 1) as nat,
                |i: int| (shape.points[i], shape.points[i + 1]),
            );
            seqs::made_in_order(
                Seq::new(count, |i: int| i),
                polygon::cut_edges(steps.take(count as int), bounds, math.cut).map_values(
                    |line: (Point, Point)| fragments::line_piece(shape, line),
                ),
                |i: int| (math.cut)(bounds, shape.points[i], shape.points[i + 1]) is Some,
                |i: int, piece: FragmentModel| is_line_piece(shape, bounds, math, i, piece),
            )
        }),
    decreases count,
{
    let steps = Seq::new(
        (shape.points.len() - 1) as nat,
        |i: int| (shape.points[i], shape.points[i + 1]),
    );
    let piece = |line: (Point, Point)| fragments::line_piece(shape, line);
    let some = |i: int| (math.cut)(bounds, shape.points[i], shape.points[i + 1]) is Some;
    let makes = |i: int, piece: FragmentModel| is_line_piece(shape, bounds, math, i, piece);
    let cut = polygon::cut_edges(steps.take(count as int), bounds, math.cut);
    if count == 0 {
        assert(cut.map_values(piece) =~= Seq::empty());
        assert(Seq::new(0, |i: int| i) =~= Seq::<int>::empty());
        seqs::lemma_made_of_nothing(some, makes);
    } else {
        let last = (count - 1) as nat;
        lemma_line_pieces(shape, bounds, math, last);
        let before = polygon::cut_edges(steps.take(last as int), bounds, math.cut);
        assert(steps.take(count as int).drop_last() =~= steps.take(last as int));
        assert(steps.take(count as int).last() == steps[last as int]);
        let more: Seq<FragmentModel> = match (math.cut)(
            bounds,
            shape.points[last as int],
            shape.points[last as int + 1],
        ) {
            Some(line) => seq![fragments::line_piece(shape, line)],
            None => Seq::empty(),
        };
        seqs::lemma_made_in_order(
            Seq::new(last, |i: int| i),
            before.map_values(piece),
            last as int,
            more,
            some,
            makes,
        );
        assert(Seq::new(last, |i: int| i).push(last as int) =~= Seq::new(count, |i: int| i));
        assert(before.map_values(piece) + more =~= cut.map_values(piece));
    }
}

/// A shape is cut tile by tile: the pieces in more tiles follow those in the first ones, and those
/// in one tile are the pieces in its box, each noted with the tile.
pub proof fn law_pieces_go_tile_by_tile(
    shape: scene::ShapeModel,
    tiles: Seq<TileId>,
    tile: TileId,
    math: PlaneMath,
    k: int,
)
    ensures
        ({
            let before = fragments::shape_pieces(shape, tiles, math);
            let all = fragments::shape_pieces(shape, tiles.push(tile), math);
            let inside = fragments::pieces_in(shape, (math.bounds_of)(tile), math);
            &&& all.len() == before.len() + inside.len()
            &&& 0 <= k < before.len() ==> all[k] == before[k]
            &&& 0 <= k < inside.len() ==> all[before.len() + k] == (tile, inside[k])
            &&& fragments::shape_pieces(shape, Seq::empty(), math).len() == 0
        }),
{
    assert(tiles.push(tile).drop_last() =~= tiles);
}

/// The pieces of a tile and layer are those noted with the tile that are on the layer, in order.
pub proof fn law_pieces_of_a_tile(
    pieces: Seq<(TileId, FragmentModel)>,
    tile: TileId,
    layer: LayerId,
)
    ensures
        seqs::made_in_order(
            pieces,
            fragments::pieces_at(pieces, tile, layer),
            |noted: (TileId, FragmentModel)| noted.0 == tile && noted.1.layer == layer,
            |noted: (TileId, FragmentModel), piece: FragmentModel| piece == noted.1,
        ),
    decreases pieces.len(),
{
    let of = |noted: (TileId, FragmentModel)| noted.0 == tile && noted.1.layer == layer;
    let is = |noted: (TileId, FragmentModel), piece: FragmentModel| piece == noted.1;
    if pieces.len() == 0 {
        seqs::lemma_made_of_nothing(of, is);
        assert(pieces =~= Seq::empty());
    } else {
        let init = pieces.drop_last();
        let last = pieces.last();
        law_pieces_of_a_tile(init, tile, layer);
        let more = if last.0 == tile && last.1.layer == layer {
            seq![last.1]
        } else {
            Seq::empty()
        };
        seqs::lemma_made_in_order(
            init,
            fragments::pieces_at(init, tile, layer),
            last,
            more,
            of,
            is,
        );
        assert(init.push(last) =~= pieces);
        assert(fragments::pieces_at(init, tile, layer) + more =~= fragments::pieces_at(
            pieces,
            tile,
            layer,
        ));
    }
}

/// Whether a number fits under a limit, as far as counting goes.
pub open spec fn fits_under(n: int, limit: usize) -> bool {
    n <= limit || limit == usize::MAX
}

/// How many pieces a shape may make in so many tiles: one in each where it is closed, else one in
/// each for each of its lines.
pub open spec fn most_pieces(shape: scene::ShapeModel, tiles: int) -> int {
    if shape.closed {
        tiles
    } else if shape.points.len() == 0 {
        0
    } else {
        tiles * (shape.points.len() - 1)
    }
}

/// How many points these may have: all of its corners in each tile where it is closed, else two for
/// each piece.
pub open spec fn most_points(shape: scene::ShapeModel, tiles: int) -> int {
    if shape.closed {
        tiles * shape.points.len()
    } else {
        2 * most_pieces(shape, tiles)
    }
}

/// Whether a shape is cut ahead of drawing: it covers two tiles at least, and as many as are asked
/// for, and what it may make fits with what was made before.
pub open spec fn may_be_cut(
    before: Preparation,
    shape: scene::ShapeModel,
    tiles: nat,
    min_tile_span: usize,
    budget: PreparedFragmentBudget,
) -> bool {
    &&& tiles >= 2
    &&& tiles >= min_tile_span
    &&& fits_under(before.pieces.len() + most_pieces(shape, tiles as int), budget.max_fragments)
    &&& fits_under(
        fragments::points_in(before.pieces) + most_points(shape, tiles as int),
        budget.max_point_copies,
    )
}

proof fn lemma_used(
    scene: Seq<scene::ShapeModel>,
    index: TileGridIndex,
    spans: Seq<CellSpan>,
    min_tile_span: usize,
    budget: PreparedFragmentBudget,
    math: PlaneMath,
    count: nat,
)
    ensures
        ({
            let prep = fragments::prepared(
                scene,
                index,
                spans,
                min_tile_span,
                budget,
                math,
                count,
            );
            &&& prep.used_fragments == crate::counters::capped(prep.pieces.len())
            &&& prep.used_points == crate::counters::capped(fragments::points_in(prep.pieces))
        }),
    decreases count,
{
    if count > 0 {
        lemma_used(scene, index, spans, min_tile_span, budget, math, (count - 1) as nat);
        let before = fragments::prepared(
            scene,
            index,
            spans,
            min_tile_span,
            budget,
            math,
            (count - 1) as nat,
        );
        let more = fragments::shape_pieces(
            scene[count - 1],
            index.tiles_in(spans[count - 1]),
            math,
        );
        law_points_of_pieces(before.pieces, more);
    }
}

/// The points of pieces are counted together.
pub proof fn law_points_of_pieces(
    a: Seq<(TileId, FragmentModel)>,
    b: Seq<(TileId, FragmentModel)>,
)
    ensures
        fragments::points_in(a + b) == fragments::points_in(a) + fragments::points_in(b),
        b.len() == 1 ==> fragments::points_in(b) == b[0].1.points.len(),
    decreases b.len(),
{
    reveal_with_fuel(fragments::points_in, 2);
    if b.len() == 0 {
        assert(a + b =~= a);
    } else {
        law_points_of_pieces(a, b.drop_last());
        assert((a + b).drop_last() =~= a + b.drop_last());
    }
}

/// Shapes are cut one after the other: one that may be cut adds its pieces to those of the shapes
/// before it, and is noted where it makes any; one that may not adds nothing.
pub proof fn law_which_shapes_are_cut(
    scene: Seq<scene::ShapeModel>,
    index: TileGridIndex,
    spans: Seq<CellSpan>,
    min_tile_span: usize,
    budget: PreparedFragmentBudget,
    math: PlaneMath,
    i: nat,
)
    requires
        i < scene.len() <= u32::MAX,
    ensures
        ({
            let before = fragments::prepared(
                scene,
                index,
                spans,
                min_tile_span,
                budget,
                math,
                i,
            );
            let after = fragments::prepared(
                scene,
                index,
                spans,
                min_tile_span,
                budget,
                math,
                i + 1,
            );
            let tiles = index.tiles_in(spans[i as int]);
            let made = fragments::shape_pieces(scene[i as int], tiles, math);
            let cut = may_be_cut(before, scene[i as int], tiles.len(), min_tile_span, budget);
            &&& cut && made.len() > 0 ==> after.pieces == before.pieces + made && after.shapes
                == before.shapes.push(i as u32)
            &&& !cut || made.len() == 0 ==> after.pieces == before.pieces && after.shapes
                == before.shapes
        }),
{
    lemma_used(scene, index, spans, min_tile_span, budget, math, i);
    let shape = scene[i as int];
    let tiles = index.tiles_in(spans[i as int]);
    let before = fragments::prepared(scene, index, spans, min_tile_span, budget, math, i);
    assert(most_pieces(shape, tiles.len() as int) == fragments::expected_fragments(
        shape.closed,
        shape.points.len(),
        tiles.len(),
    ));
    assert(most_points(shape, tiles.len() as int) == fragments::expected_points(
        shape.closed,
        shape.points.len(),
        tiles.len(),
    ));
    assert(may_be_cut(before, shape, tiles.len(), min_tile_span, budget) <==> fragments::admitted(
        before,
        shape,
        tiles.len(),
        min_tile_span,
        budget,
    ));
}

/// Whether what is drawn of pieces is that of the items: on the layer, with the width and in the
/// way that the item says; a closed piece with its stored lines, an open one as a line, all
/// brought to the screen.
pub open spec fn are_drawn_pieces(
    pieces: Seq<PreparedTileFragment>,
    scaled: spec_fn(Point) -> Point,
    rules: DrawRules,
    all: Seq<DrawnModel>,
    items: Seq<DrawItem>,
) -> bool {
    &&& all.len() == items.len()
    &&& forall|k: int|
        #![trigger all[k]]
        0 <= k < all.len() ==> {
            let piece = pieces[items[k].position as int]@;
            let points = Seq::new(piece.points.len(), |i: int| scaled(piece.points[i]));
            let stored = Seq::new(
                piece.outline_segments.len(),
                |i: int|
                    (scaled(piece.outline_segments[i].0), scaled(piece.outline_segments[i].1)),
            );
            &&& all[k].layer == piece.layer
            &&& all[k].stroke_width_world == piece.stroke_width_world
            &&& all[k].style == items[k].style
            &&& piece.closed ==> all[k].primitives == primitives::fragment(
                points,
                stored,
                items[k].mode,
                rules,
            )
            &&& !piece.closed ==> all[k].primitives == primitives::line_fragment(points, rules)
        }
}

/// The layers of pieces, one by one.
pub open spec fn layers_of(pieces: Seq<PreparedTileFragment>) -> Seq<LayerId> {
    Seq::new(pieces.len(), |i: int| pieces[i].layer)
}

/// Every piece whose layer is not hidden is drawn, once and in order, as its layer says.
pub proof fn law_pieces_are_drawn(
    pieces: Seq<PreparedTileFragment>,
    layers: LayerRules,
    scaled: spec_fn(Point) -> Point,
    rules: DrawRules,
)
    requires
        pieces.len() <= usize::MAX,
    ensures
        exists|items: Seq<DrawItem>, at: Seq<int>|
            #![trigger drawing_laws::are_items_of(layers_of(pieces), layers, items, at)]
            drawing_laws::are_items_of(layers_of(pieces), layers, items, at) && are_drawn_pieces(
                pieces,
                scaled,
                rules,
                drawing::drawn_fragments(pieces, layers, scaled, rules),
                items,
            ),
{
    let layer_of = layers_of(pieces);
    assert(layer_of =~= pieces.map_values(|piece: PreparedTileFragment| piece.layer));
    drawing_laws::law_shown_layers_are_drawn(layer_of, layers);
    let items = emission::draw_items(
        layer_of,
        layers.hidden,
        layers.modes,
        layers.styles,
        layers.mode,
        layers.style,
    );
    let all = drawing::drawn_fragments(pieces, layers, scaled, rules);
    assert forall|k: int| #![trigger all[k]] 0 <= k < all.len() implies {
        let piece = pieces[items[k].position as int]@;
        let points = Seq::new(piece.points.len(), |i: int| scaled(piece.points[i]));
        let stored = Seq::new(
            piece.outline_segments.len(),
            |i: int| (scaled(piece.outline_segments[i].0), scaled(piece.outline_segments[i].1)),
        );
        &&& all[k].layer == piece.layer
        &&& all[k].stroke_width_world == piece.stroke_width_world
        &&& all[k].style == items[k].style
        &&& piece.closed ==> all[k].primitives == primitives::fragment(
            points,
            stored,
            items[k].mode,
            rules,
        )
        &&& !piece.closed ==> all[k].primitives == primitives::line_fragment(points, rules)
    } by {
        let piece = pieces[items[k].position as int]@;
        let points = Seq::new(piece.points.len(), |i: int| scaled(piece.points[i]));
        let stored = Seq::new(
            piece.outline_segments.len(),
            |i: int| (scaled(piece.outline_segments[i].0), scaled(piece.outline_segments[i].1)),
        );
        assert(points =~= piece.points.map_values(scaled));
        assert(stored =~= piece.outline_segments.map_values(
            |edge: (Point, Point)| (scaled(edge.0), scaled(edge.1)),
        ));
    }
    assert(are_drawn_pieces(pieces, scaled, rules, all, items));
}

/// A layer of a tile is drawn with the shapes that it takes in and that were not cut ahead, cut to
/// the tile, in scene order, and then with the pieces of those that were.
pub proof fn law_tiles_are_drawn(
    shapes: Seq<scene::ShapeModel>,
    grid: TileGridIndex,
    prepared: PreparedTileFragments,
    tile: TileId,
    layer: LayerId,
    layers: LayerRules,
    area: Bounds,
    scaled: spec_fn(Point) -> Point,
    rules: DrawRules,
    whole: Seq<usize>,
)
    requires
        ({
            let left = grid.bucket(tile, layer).filter(|s: u32| !prepared.shapes().contains(s));
            &&& whole.len() == left.len()
            &&& forall|k: int| 0 <= k < whole.len() ==> #[trigger] whole[k] == left[k]
        }),
    ensures
        ({
            let drawn = tiles::scene_tile(
                shapes,
                grid,
                prepared,
                tile,
                layer,
                layers,
                area,
                scaled,
                rules,
            );
            let first = drawing::drawn_shapes(shapes, whole, layers, Some(area), scaled, rules);
            let pieces = drawing::drawn_fragments(
                prepared.fragments(tile, layer),
                layers,
                scaled,
                rules,
            );
            &&& drawn.take(first.len() as int) == first
            &&& drawn.skip(first.len() as int) == pieces
        }),
{
    let bucket = grid.bucket(tile, layer);
    queue_laws::law_cut_shapes_are_not_drawn_whole(bucket, prepared.shapes(), 0);
    let places = tiles::places(requests::uncut(bucket, prepared.shapes()));
    assert(places =~= whole);
    let drawn = tiles::scene_tile(
        shapes,
        grid,
        prepared,
        tile,
        layer,
        layers,
        area,
        scaled,
        rules,
    );
    let first = drawing::drawn_shapes(shapes, whole, layers, Some(area), scaled, rules);
    let pieces = drawing::drawn_fragments(
        prepared.fragments(tile, layer),
        layers,
        scaled,
        rules,
    );
    assert(drawn.take(first.len() as int) =~= first);
    assert(drawn.skip(first.len() as int) =~= pieces);
}

/// The corners that the samples pick from an outline, sample by sample.
pub open spec fn picks(
    points: Seq<Point>,
    target: usize,
    pick: spec_fn(usize, usize, usize) -> usize,
    from: int,
    end: int,
    last: int,
) -> Seq<Point> {
    Seq::new(
        (if end > from {
            end - from
        } else {
            0
        }) as nat,
        |i: int| points[drawing_laws::picked(points.len(), target, pick, from + i, last)],
    )
}

/// An outline with more corners than aimed at, of which the samples pick three different ones, is
/// thinned out: it keeps no more corners than aimed at, in the order in which they are picked.
pub proof fn law_outlines_are_thinned_out(
    points: Seq<Point>,
    same: spec_fn(Point, Point) -> bool,
    aim: spec_fn(Bounds) -> usize,
    pick: spec_fn(usize, usize, usize) -> usize,
    a: int,
    b: int,
    c: int,
    i: int,
    j: int,
)
    requires
        points.len() <= usize::MAX,
        ({
            let corners = polygon::tidied(points, same);
            let raised = drawing_laws::no_less(aim(scene::points_bounds(corners)->0) as int, 4);
            let found = picks(corners, raised as usize, pick, 0, raised, corners.len() - 1);
            &&& 3 <= corners.len() <= usize::MAX
            &&& corners.len() > raised
            &&& 0 <= a < raised && 0 <= b < raised && 0 <= c < raised
            &&& found[a] != found[b] && found[a] != found[c] && found[b] != found[c]
        }),
    ensures
        ({
            let corners = polygon::tidied(points, same);
            let raised = drawing_laws::no_less(aim(scene::points_bounds(corners)->0) as int, 4);
            let found = picks(corners, raised as usize, pick, 0, raised, corners.len() - 1);
            emission::coarse_ring(points, same, aim, pick) matches Some(kept) && {
                &&& kept.len() <= raised
                &&& 0 <= i < j < kept.len() ==> queue_laws::turns_up_before(
                    found,
                    kept[i],
                    kept[j],
                )
            }
        }),
{
    let corners = polygon::tidied(points, same);
    let raised = drawing_laws::no_less(aim(scene::points_bounds(corners)->0) as int, 4);
    let found = picks(corners, raised as usize, pick, 0, raised, corners.len() - 1);
    let target = emission::raised_then_lowered(
        aim(scene::points_bounds(corners).unwrap()),
        4,
        corners.len() as usize,
    );
    assert(target == raised);
    assert(found =~= emission::samples(
        corners,
        target,
        pick,
        0,
        target as int,
        corners.len() - 1,
    ));
    let kept = seqs::distinct(found);
    seqs::lemma_append_new(Seq::<Point>::empty(), found);
    assert(found.contains(found[a]) && found.contains(found[b]) && found.contains(found[c]));
    assert(kept.contains(found[a]) && kept.contains(found[b]) && kept.contains(found[c]));
    let x = choose|x: int| 0 <= x < kept.len() && kept[x] == found[a];
    let y = choose|y: int| 0 <= y < kept.len() && kept[y] == found[b];
    let z = choose|z: int| 0 <= z < kept.len() && kept[z] == found[c];
    assert(kept.len() >= 3);
    if 0 <= i < j < kept.len() {
        queue_laws::lemma_distinct_order(found, i, j);
    }
}

/// A line of few extent with more points than aimed at, whose ends differ, is thinned out: it
/// keeps no more points than aimed at, and its last point last.
pub proof fn law_lines_are_thinned_out(
    points: Seq<Point>,
    extent_of: spec_fn(Bounds) -> i32,
    aim: spec_fn(Bounds) -> usize,
    pick: spec_fn(usize, usize, usize) -> usize,
)
    requires
        64 <= points.len() <= usize::MAX,
        ({
            let around = scene::points_bounds(points)->0;
            &&& !coords::exceeds(extent_of(around), 0x41c0_0000)
            &&& points.len() > drawing_laws::no_less(aim(around) as int, 2)
        }),
        points[0] != points.last(),
        !scene::same_point(points[0], points.last()),
    ensures
        ({
            let raised = drawing_laws::no_less(
                aim(scene::points_bounds(points)->0) as int,
                2,
            );
            emission::coarse_line(points, extent_of, aim, pick) matches Some(kept) && kept.len()
                <= raised && kept.len() >= 2 && kept[0] == points[0]
        }),
{
    let around = scene::points_bounds(points)->0;
    let raised = drawing_laws::no_less(aim(around) as int, 2);
    let target = emission::raised_then_lowered(aim(around), 2, points.len() as usize);
    assert(target == raised);
    let between = emission::samples(points, target, pick, 1, target - 1, points.len() - 2);
    let kept = seqs::append_new(seq![points[0]], between);
    seqs::lemma_append_new(seq![points[0]], between);
    assert(kept[0] == points[0]) by {
        assert(seq![points[0]][0] == kept.subrange(0, 1)[0]);
    }
    if kept.len() == 1 {
        assert(kept.last() == points[0]);
    }
}

/// Hatch parameters are brought into their ranges: the spacing is two at least, the width one half
/// at least and no more than the spacing; what lies in its range stays as it is.
pub proof fn law_hatch_ranges(params: HatchParams)
    ensures
        ({
            let after = params.normal_form();
            let two: i32 = 0x4000_0000;
            let half: i32 = 0x3f00_0000;
            &&& coords::at_most(two, after.spacing)
            &&& coords::at_most(two, params.spacing) ==> after.spacing == params.spacing
            &&& !coords::at_most(two, params.spacing) ==> after.spacing == two
            &&& coords::is_nan_key(params.width) ==> after.width == params.width
            &&& coords::exceeds(half, params.width) ==> after.width == half
            &&& coords::exceeds(params.width, after.spacing) ==> after.width == after.spacing
            &&& coords::at_most(half, params.width) && coords::at_most(params.width, after.spacing)
                ==> after.width == params.width
        }),
{
}

/// Two sets of hatch parameters match just where spacing and width are the same numbers.
pub proof fn law_matching_hatches(a: HatchParams, b: HatchParams)
    ensures
        a.matches_params(b) <==> coords::at_most(a.spacing, b.spacing) && coords::at_most(
            b.spacing,
            a.spacing,
        ) && coords::at_most(a.width, b.width) && coords::at_most(b.width, a.width),
{
}

/// The density of the grid is held between two and thirty-two, and one that lies there is kept.
pub proof fn law_grid_density(divisions: u32)
    ensures
        2 <= geometry::clamped_divisions(divisions) <= 32,
        2 <= divisions <= 32 ==> geometry::clamped_divisions(divisions) == divisions,
        divisions < 2 ==> geometry::clamped_divisions(divisions) == 2,
        divisions > 32 ==> geometry::clamped_divisions(divisions) == 32,
{
}

/// The key of a frame tells views, scenes and looks apart: two keys are equal just where all of
/// them are.
pub proof fn law_keys_tell_frames_apart(
    a_revision: u64,
    a: ViewBits,
    a_look: u64,
    b_revision: u64,
    b: ViewBits,
    b_look: u64,
)
    ensures
        geometry::render_cache_key(a_revision, a, a_look) == geometry::render_cache_key(
            b_revision,
            b,
            b_look,
        ) <==> a_revision == b_revision && a == b && a_look == b_look,
        ({
            let key = geometry::render_cache_key(a_revision, a, a_look);
            &&& key.pan_x_bits == a.pan_x && key.pan_y_bits == a.pan_y && key.zoom_bits == a.zoom
            &&& key.canvas_width_bits == a.canvas_width && key.canvas_height_bits
                == a.canvas_height
            &&& key.viewport_width_bits == a.viewport_width && key.viewport_height_bits
                == a.viewport_height
            &&& key.scene_revision == a_revision
        }),
{
    let x: RenderCacheKey = geometry::render_cache_key(a_revision, a, a_look);
    let y: RenderCacheKey = geometry::render_cache_key(b_revision, b, b_look);
    if x == y {
        assert(x.canvas_origin_x_bits == y.canvas_origin_x_bits);
        assert(x.canvas_origin_y_bits == y.canvas_origin_y_bits);
    }
}

/// Hidden layers enter their hash one after the other, both numbers of each: another layer at the
/// end changes the hash, and different hashes stay different.
pub proof fn law_hidden_layers_enter_the_hash(
    a: Seq<LayerId>,
    b: Seq<LayerId>,
    x: LayerId,
    y: LayerId,
)
    ensures
        geometry::layers_hash(a) != geometry::layers_hash(b) ==> geometry::layers_hash(a.push(x))
            != geometry::layers_hash(b.push(x)),
        x.layer == y.layer && x.datatype != y.datatype ==> geometry::layers_hash(a.push(x))
            != geometry::layers_hash(a.push(y)),
        x.layer != y.layer && x.datatype == y.datatype ==> geometry::layers_hash(a.push(x))
            != geometry::layers_hash(a.push(y)),
        geometry::layers_hash(Seq::empty()) == 0xcbf2_9ce4_8422_2325u64,
{
    assert(a.push(x).drop_last() =~= a);
    assert(b.push(x).drop_last() =~= b);
    assert(a.push(y).drop_last() =~= a);
    let p = geometry::layers_hash(a);
    let q = geometry::layers_hash(b);
    let xl = x.layer as u64;
    let yl = y.layer as u64;
    let xd = x.datatype as u64;
    let yd = y.datatype as u64;
    crate::renderer::hash_laws::law_mixing_keeps_apart(p, q, xl, yl);
    crate::renderer::hash_laws::law_mixing_keeps_apart(
        geometry::mixed(p, xl),
        geometry::mixed(q, xl),
        xd,
        yd,
    );
    crate::renderer::hash_laws::law_mixing_keeps_apart(
        geometry::mixed(p, xl),
        geometry::mixed(p, yl),
        xd,
        yd,
    );
}

/// One more layer with a way of its own enters the hash with both its numbers and the number of the
/// way.
pub proof fn law_overrides_enter_the_hash(
    modes: Seq<(LayerId, ClosedShapeDrawMode)>,
    styles: Seq<(LayerId, HatchStylePreset)>,
    layer: LayerId,
    mode: ClosedShapeDrawMode,
    style: HatchStylePreset,
)
    ensures
        geometry::draw_modes_hash(modes.push((layer, mode))) == stirred(
            stirred(
                stirred(geometry::draw_modes_hash(modes), layer.layer as u64),
                layer.datatype as u64,
            ),
            mode.tag() as u64,
        ),
        geometry::hatch_styles_hash(styles.push((layer, style))) == stirred(
            stirred(
                stirred(geometry::hatch_styles_hash(styles), layer.layer as u64),
                layer.datatype as u64,
            ),
            style.tag() as u64,
        ),
{
    assert(modes.push((layer, mode)).drop_last() =~= modes);
    assert(styles.push((layer, style)).drop_last() =~= styles);
}

/// A hash with a number stirred in.
pub open spec fn stirred(hash: u64, value: u64) -> u64 {
    (((hash ^ value) * 0x1000_0000_01b3) % 0x1_0000_0000_0000_0000) as u64
}

} // verus!
