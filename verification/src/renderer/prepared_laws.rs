//! What holds of all pieces of a tile and layer that were cut ahead of drawing.

use crate::renderer::drawing;
use crate::renderer::drawing::{DrawnModel, LayerRules};
use crate::renderer::emission;
use crate::renderer::emission::DrawItem;
use crate::renderer::fragments;
use crate::renderer::fragments::{
    FragmentModel, PlaneMath, PreparedFragmentBudget, PreparedTileFragment, PreparedTileFragments,
};
use crate::renderer::geometry::{ClosedShapeDrawMode, HatchStylePreset, TileId};
use crate::renderer::grid;
use crate::renderer::grid::{CellSpan, TileGridIndex};
use crate::renderer::piece_laws;
use crate::renderer::primitives::DrawRules;
use crate::renderer::vertices;
use crate::renderer::vertices::PenRules;
use crate::scene;
use crate::scene::{Bounds, LayerId, Point};
use vstd::prelude::*;

verus! {

/// Whether a shape is drawn alike, cut to a tile ahead of drawing or while it is drawn.
pub open spec fn cuts_alike(
    shape: scene::ShapeModel,
    tile: Bounds,
    area: Bounds,
    math: PlaneMath,
    scaled: spec_fn(Point) -> Point,
    rules: DrawRules,
) -> bool {
    if shape.closed {
        piece_laws::area_cuts_alike(shape, tile, area, math, scaled, rules)
    } else {
        piece_laws::line_cuts_alike(shape, tile, area, math, scaled, rules)
    }
}

/// Whether a shape has a piece in a tile and on a layer.
pub open spec fn has_piece(
    shape: scene::ShapeModel,
    tiles: Seq<TileId>,
    tile: TileId,
    layer: LayerId,
    math: PlaneMath,
) -> bool {
    shape.layer == layer && tiles.contains(tile) && fragments::pieces_in(
        shape,
        (math.bounds_of)(tile),
        math,
    ).len() > 0
}

/// The places of those of the cut shapes that have a piece in a tile and on a layer, in scene
/// order.
pub open spec fn cut_places(
    scene: Seq<scene::ShapeModel>,
    index: TileGridIndex,
    spans: Seq<CellSpan>,
    shapes: Seq<u32>,
    tile: TileId,
    layer: LayerId,
    math: PlaneMath,
) -> Seq<usize>
    decreases shapes.len(),
{
    if shapes.len() == 0 {
        Seq::empty()
    } else {
        let rest = cut_places(scene, index, spans, shapes.drop_last(), tile, layer, math);
        let last = shapes.last() as int;
        if has_piece(scene[last], index.tiles_in(spans[last]), tile, layer, math) {
            rest.push(last as usize)
        } else {
            rest
        }
    }
}

proof fn lemma_pieces_at_add(
    a: Seq<(TileId, FragmentModel)>,
    b: Seq<(TileId, FragmentModel)>,
    tile: TileId,
    layer: LayerId,
)
    ensures
        fragments::pieces_at(a + b, tile, layer) == fragments::pieces_at(a, tile, layer)
            + fragments::pieces_at(b, tile, layer),
    decreases b.len(),
{
    if b.len() == 0 {
        assert(a + b =~= a);
    } else {
        lemma_pieces_at_add(a, b.drop_last(), tile, layer);
        assert((a + b).drop_last() =~= a + b.drop_last());
    }
    assert(fragments::pieces_at(a + b, tile, layer) =~= fragments::pieces_at(a, tile, layer)
        + fragments::pieces_at(b, tile, layer));
}

/// The pieces of a tile are all of those that were placed there, and none that were placed
/// elsewhere or are on another layer.
proof fn lemma_placed_at(
    at: TileId,
    pieces: Seq<FragmentModel>,
    on: LayerId,
    tile: TileId,
    layer: LayerId,
)
    requires
        forall|k: int| 0 <= k < pieces.len() ==> (#[trigger] pieces[k]).layer == on,
    ensures
        fragments::pieces_at(fragments::placed(at, pieces), tile, layer) == (if at == tile && on
            == layer {
            pieces
        } else {
            Seq::empty()
        }),
    decreases pieces.len(),
{
    let all = fragments::placed(at, pieces);
    if pieces.len() > 0 {
        let init = pieces.drop_last();
        assert forall|k: int| 0 <= k < init.len() implies (#[trigger] init[k]).layer == on by {
            assert(init[k] == pieces[k]);
        }
        lemma_placed_at(at, init, on, tile, layer);
        assert(all.drop_last() =~= fragments::placed(at, init));
        assert(all.last() == (at, pieces[pieces.len() - 1]));
        assert(init.push(pieces.last()) =~= pieces);
    } else {
        assert(pieces =~= Seq::<FragmentModel>::empty());
    }
}

proof fn lemma_piece_layers(shape: scene::ShapeModel, bounds: Bounds, math: PlaneMath)
    ensures
        forall|k: int|
            0 <= k < fragments::pieces_in(shape, bounds, math).len() ==> (
            #[trigger] fragments::pieces_in(shape, bounds, math)[k]).layer == shape.layer,
{
}

/// The pieces of a shape in a tile, picked out of its pieces in all of its tiles.
proof fn lemma_shape_pieces_at(
    shape: scene::ShapeModel,
    tiles: Seq<TileId>,
    math: PlaneMath,
    tile: TileId,
    layer: LayerId,
)
    requires
        grid::tiles_ascend(tiles),
    ensures
        fragments::pieces_at(fragments::shape_pieces(shape, tiles, math), tile, layer) == (
        if shape.layer == layer && tiles.contains(tile) {
            fragments::pieces_in(shape, (math.bounds_of)(tile), math)
        } else {
            Seq::empty()
        }),
    decreases tiles.len(),
{
    if tiles.len() > 0 {
        let init = tiles.drop_last();
        let last = tiles.last();
        assert forall|i: int, j: int| 0 <= i < j < init.len() implies grid::tile_before(
            #[trigger] init[i],
            #[trigger] init[j],
        ) by {
            assert(grid::tile_before(tiles[i], tiles[j]));
        }
        lemma_shape_pieces_at(shape, init, math, tile, layer);
        let here = fragments::pieces_in(shape, (math.bounds_of)(last), math);
        lemma_piece_layers(shape, (math.bounds_of)(last), math);
        lemma_placed_at(last, here, shape.layer, tile, layer);
        lemma_pieces_at_add(
            fragments::shape_pieces(shape, init, math),
            fragments::placed(last, here),
            tile,
            layer,
        );
        if tiles.contains(tile) {
            let k = choose|k: int| 0 <= k < tiles.len() && tiles[k] == tile;
            if k < init.len() {
                assert(init[k] == tile);
            }
        }
        if init.contains(tile) {
            let k = choose|k: int| 0 <= k < init.len() && init[k] == tile;
            assert(tiles[k] == tile);
            assert(grid::tile_before(tiles[k], tiles[tiles.len() - 1]));
        }
        assert(tiles[tiles.len() - 1] == last);
        let early = fragments::pieces_at(fragments::shape_pieces(shape, init, math), tile, layer);
        let late = fragments::pieces_at(fragments::placed(last, here), tile, layer);
        assert(early + Seq::<FragmentModel>::empty() =~= early);
        assert(Seq::<FragmentModel>::empty() + late =~= late);
    }
}

/// The pieces of one shape are drawn with as many vertices as the shape cut while it is drawn.
proof fn lemma_shape_matches(
    shape: scene::ShapeModel,
    tile: Bounds,
    area: Bounds,
    math: PlaneMath,
    mode: ClosedShapeDrawMode,
    style: HatchStylePreset,
    scaled: spec_fn(Point) -> Point,
    rules: DrawRules,
    pen: PenRules,
)
    requires
        fragments::pieces_in(shape, tile, math).len() > 0,
        cuts_alike(shape, tile, area, math, scaled, rules),
        piece_laws::strips_have_length(rules, pen),
    ensures
        vertices::vertices(
            fragments::pieces_in(shape, tile, math).map_values(
                |piece: FragmentModel| drawing::drawn_fragment(piece, mode, style, scaled, rules),
            ),
            pen,
        ).len() == vertices::shape_vertices(
            drawing::drawn(shape, mode, style, Some(area), scaled, rules),
            pen,
        ).len(),
{
    if shape.closed {
        piece_laws::law_area_piece_is_drawn_as_the_cut_area(
            shape,
            tile,
            area,
            math,
            mode,
            style,
            scaled,
            rules,
            pen,
        );
        let draw = |piece: FragmentModel|
            drawing::drawn_fragment(piece, mode, style, scaled, rules);
        let drawn = fragments::pieces_in(shape, tile, math).map_values(draw);
        assert(drawn.drop_last() =~= Seq::<DrawnModel>::empty());
        reveal_with_fuel(vertices::vertices, 2);
    } else {
        piece_laws::law_line_pieces_match_the_cut_line(
            shape,
            tile,
            area,
            math,
            mode,
            style,
            scaled,
            rules,
            pen,
        );
    }
}

/// The first shapes of a scene: their pieces of a tile and layer are drawn with as many vertices
/// as those of the shapes that have such a piece, cut while they are drawn.
proof fn lemma_prepared_match(
    scene: Seq<scene::ShapeModel>,
    index: TileGridIndex,
    spans: Seq<CellSpan>,
    min_tile_span: usize,
    budget: PreparedFragmentBudget,
    math: PlaneMath,
    count: nat,
    tile: TileId,
    layer: LayerId,
    area: Bounds,
    mode: ClosedShapeDrawMode,
    style: HatchStylePreset,
    scaled: spec_fn(Point) -> Point,
    rules: DrawRules,
    pen: PenRules,
)
    requires
        count <= scene.len() <= u32::MAX,
        piece_laws::strips_have_length(rules, pen),
        forall|i: int|
            0 <= i < count && #[trigger] has_piece(
                scene[i],
                index.tiles_in(spans[i]),
                tile,
                layer,
                math,
            ) ==> cuts_alike(scene[i], (math.bounds_of)(tile), area, math, scaled, rules),
    ensures
        ({
            let prep = fragments::prepared(
                scene,
                index,
                spans,
                min_tile_span,
                budget,
                math,
                count,
            );
            let places = cut_places(scene, index, spans, prep.shapes, tile, layer, math);
            &&& prep.shapes.len() <= count
            &&& places.len() <= prep.shapes.len()
            &&& forall|k: int|
                0 <= k < places.len() ==> (#[trigger] places[k]) < count && scene[places[k] as int].layer
                    == layer
            &&& forall|k: int|
                0 <= k < fragments::pieces_at(prep.pieces, tile, layer).len() ==> (
                #[trigger] fragments::pieces_at(prep.pieces, tile, layer)[k]).layer == layer
            &&& vertices::vertices(
                fragments::pieces_at(prep.pieces, tile, layer).map_values(
                    |piece: FragmentModel|
                        drawing::drawn_fragment(piece, mode, style, scaled, rules),
                ),
                pen,
            ).len() == vertices::vertices(
                places.map_values(
                    |place: usize|
                        drawing::drawn(
                            scene[place as int],
                            mode,
                            style,
                            Some(area),
                            scaled,
                            rules,
                        ),
                ),
                pen,
            ).len()
        }),
    decreases count,
{
    let draw = |piece: FragmentModel| drawing::drawn_fragment(piece, mode, style, scaled, rules);
    let cut = |place: usize|
        drawing::drawn(scene[place as int], mode, style, Some(area), scaled, rules);
    let prep = fragments::prepared(scene, index, spans, min_tile_span, budget, math, count);
    let places = cut_places(scene, index, spans, prep.shapes, tile, layer, math);
    let kept = fragments::pieces_at(prep.pieces, tile, layer);
    if count == 0 {
        assert(kept.map_values(draw) =~= Seq::<DrawnModel>::empty());
        assert(places.map_values(cut) =~= Seq::<DrawnModel>::empty());
    } else {
        let before = fragments::prepared(
            scene,
            index,
            spans,
            min_tile_span,
            budget,
            math,
            (count - 1) as nat,
        );
        lemma_prepared_match(
            scene,
            index,
            spans,
            min_tile_span,
            budget,
            math,
            (count - 1) as nat,
            tile,
            layer,
            area,
            mode,
            style,
            scaled,
            rules,
            pen,
        );
        let at = count - 1;
        let shape = scene[at];
        let tiles = index.tiles_in(spans[at]);
        let pieces = fragments::shape_pieces(shape, tiles, math);
        let old_places = cut_places(scene, index, spans, before.shapes, tile, layer, math);
        let old_kept = fragments::pieces_at(before.pieces, tile, layer);
        if prep.shapes != before.shapes {
            assert(prep.shapes == before.shapes.push(at as u32));
            assert(prep.pieces == before.pieces + pieces);
            assert(prep.shapes.drop_last() =~= before.shapes);
            grid::law_tiles_of_a_span(index, spans[at]);
            lemma_shape_pieces_at(shape, tiles, math, tile, layer);
            lemma_pieces_at_add(before.pieces, pieces, tile, layer);
            let new = fragments::pieces_at(pieces, tile, layer);
            lemma_piece_layers(shape, (math.bounds_of)(tile), math);
            assert(kept == old_kept + new);
            assert(kept.map_values(draw) =~= old_kept.map_values(draw) + new.map_values(draw));
            vertices::law_vertices_follow(old_kept.map_values(draw), new.map_values(draw), pen);
            if has_piece(shape, tiles, tile, layer, math) {
                lemma_shape_matches(
                    shape,
                    (math.bounds_of)(tile),
                    area,
                    math,
                    mode,
                    style,
                    scaled,
                    rules,
                    pen,
                );
                assert(places == old_places.push(at as usize));
                assert(places.map_values(cut).drop_last() =~= old_places.map_values(cut));
                assert(places.map_values(cut).last() == cut(at as usize));
            } else {
                assert(new =~= Seq::<FragmentModel>::empty());
                assert(new.map_values(draw) =~= Seq::<DrawnModel>::empty());
            }
        } else {
            assert(prep == before);
        }
    }
}

/// Shapes that are all on one layer are all drawn in its way, or none of them where it is hidden.
proof fn lemma_one_layer(layer_of: Seq<LayerId>, layer: LayerId, layers: LayerRules)
    requires
        layer_of.len() <= usize::MAX,
        forall|k: int| 0 <= k < layer_of.len() ==> #[trigger] layer_of[k] == layer,
    ensures
        emission::draw_items(
            layer_of,
            layers.hidden,
            layers.modes,
            layers.styles,
            layers.mode,
            layers.style,
        ) == (if layers.hidden.contains(layer) {
            Seq::empty()
        } else {
            Seq::new(
                layer_of.len(),
                |k: int|
                    emission::item_for(
                        k,
                        layer,
                        layers.modes,
                        layers.styles,
                        layers.mode,
                        layers.style,
                    ),
            )
        }),
    decreases layer_of.len(),
{
    let all = emission::draw_items(
        layer_of,
        layers.hidden,
        layers.modes,
        layers.styles,
        layers.mode,
        layers.style,
    );
    let wanted = Seq::new(
        layer_of.len(),
        |k: int|
            emission::item_for(k, layer, layers.modes, layers.styles, layers.mode, layers.style),
    );
    if layer_of.len() > 0 {
        let init = layer_of.drop_last();
        assert forall|k: int| 0 <= k < init.len() implies #[trigger] init[k] == layer by {
            assert(init[k] == layer_of[k]);
        }
        lemma_one_layer(init, layer, layers);
        assert(layer_of[layer_of.len() - 1] == layer);
        assert(layer_of.last() == layer);
        if !layers.hidden.contains(layer) {
            assert(all =~= wanted);
        }
    } else {
        assert(all =~= Seq::<DrawItem>::empty());
        assert(wanted =~= Seq::<DrawItem>::empty());
    }
}

/// The pieces of a tile and layer that were cut ahead of drawing are drawn with as many vertices as
/// the shapes that they are of, cut to that tile while they are drawn, where each of these is cut
/// alike in both ways.
pub proof fn law_prepared_pieces_match_the_cut_shapes(
    scene: Seq<scene::ShapeModel>,
    index: TileGridIndex,
    spans: Seq<CellSpan>,
    min_tile_span: usize,
    budget: PreparedFragmentBudget,
    math: PlaneMath,
    kept: PreparedTileFragments,
    tile: TileId,
    layer: LayerId,
    area: Bounds,
    layers: LayerRules,
    scaled: spec_fn(Point) -> Point,
    rules: DrawRules,
    pen: PenRules,
)
    requires
        spans.len() == scene.len(),
        scene.len() <= u32::MAX,
        kept.holds(
            fragments::prepared(
                scene,
                index,
                spans,
                min_tile_span,
                budget,
                math,
                scene.len(),
            ),
        ),
        kept.fragments(tile, layer).len() <= usize::MAX,
        piece_laws::strips_have_length(rules, pen),
        forall|i: int|
            0 <= i < scene.len() && #[trigger] has_piece(
                scene[i],
                index.tiles_in(spans[i]),
                tile,
                layer,
                math,
            ) ==> cuts_alike(scene[i], (math.bounds_of)(tile), area, math, scaled, rules),
    ensures
        vertices::vertices(
            drawing::drawn_fragments(kept.fragments(tile, layer), layers, scaled, rules),
            pen,
        ).len() == vertices::vertices(
            drawing::drawn_shapes(
                scene,
                cut_places(scene, index, spans, kept.shapes(), tile, layer, math),
                layers,
                Some(area),
                scaled,
                rules,
            ),
            pen,
        ).len(),
{
    let prep = fragments::prepared(
        scene,
        index,
        spans,
        min_tile_span,
        budget,
        math,
        scene.len(),
    );
    let found = kept.fragments(tile, layer);
    let pieces = fragments::pieces_at(prep.pieces, tile, layer);
    let places = cut_places(scene, index, spans, prep.shapes, tile, layer, math);
    let item = emission::item_for(
        0,
        layer,
        layers.modes,
        layers.styles,
        layers.mode,
        layers.style,
    );
    lemma_prepared_match(
        scene,
        index,
        spans,
        min_tile_span,
        budget,
        math,
        scene.len(),
        tile,
        layer,
        area,
        item.mode,
        item.style,
        scaled,
        rules,
        pen,
    );
    assert(fragments::models(found) == pieces);
    let of_found = found.map_values(|piece: PreparedTileFragment| piece.layer);
    let of_places = drawing::layers_at(scene, places);
    assert forall|k: int| 0 <= k < of_found.len() implies #[trigger] of_found[k] == layer by {
        assert(pieces[k] == found[k]@);
        assert(pieces[k].layer == layer);
    }
    assert forall|k: int| 0 <= k < of_places.len() implies #[trigger] of_places[k] == layer by {
        assert(places[k] < scene.len());
    }
    lemma_one_layer(of_found, layer, layers);
    lemma_one_layer(of_places, layer, layers);
    let early = drawing::drawn_fragments(found, layers, scaled, rules);
    let late = drawing::drawn_shapes(scene, places, layers, Some(area), scaled, rules);
    if layers.hidden.contains(layer) {
        assert(early =~= Seq::<DrawnModel>::empty());
        assert(late =~= Seq::<DrawnModel>::empty());
    } else {
        assert(early =~= pieces.map_values(
            |piece: FragmentModel|
                drawing::drawn_fragment(piece, item.mode, item.style, scaled, rules),
        )) by {
            assert forall|k: int| 0 <= k < early.len() implies early[k] == drawing::drawn_fragment(
                pieces[k],
                item.mode,
                item.style,
                scaled,
                rules,
            ) by {
                assert(pieces[k] == found[k]@);
            }
        }
        assert(late =~= places.map_values(
            |place: usize|
                drawing::drawn(
                    scene[place as int],
                    item.mode,
                    item.style,
                    Some(area),
                    scaled,
                    rules,
                ),
        ));
    }
}

} // verus!
