//! What one layer of one tile is drawn with.

use crate::layers::{LayerMap, LayerSet};
use crate::layout::{LayoutBundle, LayoutCellId};
use crate::renderer::drawing;
use crate::renderer::drawing::{
    draw_all, draw_prepared_fragments, draw_scene_shapes, DrawnModel, DrawnShape, LayerRules,
};
use crate::renderer::fragments::PreparedTileFragments;
use crate::renderer::geometry::{ClosedShapeDrawMode, HatchStylePreset, TileId};
use crate::renderer::grid;
use crate::renderer::grid::{CellSpan, TileGridIndex};
use crate::renderer::polygon::{ClipEdge, Winding};
use crate::renderer::primitives;
use crate::renderer::primitives::{DrawMath, DrawRules};
use crate::renderer::requests;
use crate::renderer::requests::uncut_shape_indices;
use crate::renderer::table;
use crate::scene;
use crate::scene::{Bounds, LayerId, PlacedModel, PlacedOutline, Point, Scene};
use crate::view_builder;
use crate::view_builder::{
    LayoutViewBuildOptions, PlacementStep, Placing, SubtreeScreenLod, ViewShape, ViewShapeModel,
};
use crate::workset;
use crate::workset::build_workset;
use vstd::prelude::*;

verus! {

/// The shapes of a bucket, as places in the scene.
pub open spec fn places(bucket: Seq<u32>) -> Seq<usize> {
    bucket.map_values(|index: u32| index as usize)
}

/// What one layer of one tile of a scene is drawn with: its shapes that were not cut ahead, cut to
/// the tile, and then the pieces of those that were.
pub open spec fn scene_tile(
    shapes: Seq<scene::ShapeModel>,
    grid: TileGridIndex,
    prepared: PreparedTileFragments,
    tile: TileId,
    layer: LayerId,
    layers: LayerRules,
    area: Bounds,
    scaled: spec_fn(Point) -> Point,
    rules: DrawRules,
) -> Seq<DrawnModel> {
    drawing::drawn_shapes(
        shapes,
        places(requests::uncut(grid.bucket(tile, layer), prepared.shapes())),
        layers,
        Some(area),
        scaled,
        rules,
    ) + drawing::drawn_fragments(prepared.fragments(tile, layer), layers, scaled, rules)
}

/// Whether the index names shapes of a scene of this size.
pub open spec fn stays_in_scene(grid: TileGridIndex, tile: TileId, layer: LayerId, count: nat) -> bool {
    forall|k: int|
        0 <= k < grid.bucket(tile, layer).len() ==> (#[trigger] grid.bucket(tile, layer)[k])
            < count
}

/// The index of a scene names shapes of that scene.
pub proof fn law_index_stays_in_scene(
    grid: TileGridIndex,
    scene: Scene,
    spans: Seq<CellSpan>,
    side: i32,
    tile: TileId,
    layer: LayerId,
)
    requires
        grid.indexes(scene, spans, side),
        spans.len() == scene@.len(),
        spans.len() <= u32::MAX,
    ensures
        stays_in_scene(grid, tile, layer, scene@.len()),
{
    if table::on_grid(tile, side, side) {
        lemma_bucket_bound(scene::shape_layers(scene@), spans, spans.len(), side, tile, layer);
    }
    assert forall|k: int| 0 <= k < grid.bucket(tile, layer).len() implies (#[trigger] grid.bucket(
        tile,
        layer,
    )[k]) < scene@.len() by {
        if !table::on_grid(tile, side, side) {
            assert(grid.bucket(tile, layer).len() == 0);
        }
    }
}

proof fn lemma_bucket_bound(
    layer_of: Seq<LayerId>,
    spans: Seq<CellSpan>,
    count: nat,
    side: i32,
    tile: TileId,
    layer: LayerId,
)
    requires
        count <= u32::MAX,
    ensures
        forall|k: int|
            0 <= k < grid::tile_bucket(layer_of, spans, count, side, side, tile, layer).len() ==> (
            #[trigger] grid::tile_bucket(layer_of, spans, count, side, side, tile, layer)[k])
                < count,
    decreases count,
{
    if count > 0 {
        lemma_bucket_bound(layer_of, spans, (count - 1) as nat, side, tile, layer);
        let rest = grid::tile_bucket(layer_of, spans, (count - 1) as nat, side, side, tile, layer);
        let all = grid::tile_bucket(layer_of, spans, count, side, side, tile, layer);
        assert forall|k: int| 0 <= k < all.len() implies (#[trigger] all[k]) < count by {
            if k < rest.len() {
                assert(rest[k] < count - 1);
                assert(all[k] == rest[k]);
            }
        }
    }
}

proof fn lemma_uncut_bound(bucket: Seq<u32>, cut: Seq<u32>, count: nat)
    requires
        forall|k: int| 0 <= k < bucket.len() ==> (#[trigger] bucket[k]) < count,
    ensures
        forall|k: int|
            0 <= k < requests::uncut(bucket, cut).len() ==> (#[trigger] requests::uncut(
                bucket,
                cut,
            )[k]) < count,
    decreases bucket.len(),
{
    if bucket.len() > 0 {
        let init = bucket.drop_last();
        assert forall|k: int| 0 <= k < init.len() implies (#[trigger] init[k]) < count by {
            assert(init[k] == bucket[k]);
        }
        lemma_uncut_bound(init, cut, count);
        let rest = requests::uncut(init, cut);
        let all = requests::uncut(bucket, cut);
        assert forall|k: int| 0 <= k < all.len() implies (#[trigger] all[k]) < count by {
            if k < rest.len() {
                assert(rest[k] < count);
                assert(all[k] == rest[k]);
            } else {
                assert(all[k] == bucket[bucket.len() - 1]);
            }
        }
    }
}

/// What one layer of one tile of a scene is drawn with. `area` is the tile on the screen, and
/// `scaled` brings points there.
pub fn draw_scene_tile<
    N: Fn(Point, Point) -> bool,
    X: Fn(ClipEdge, Bounds, Point, Point) -> Point,
    C: Fn(Bounds, Point, Point) -> Option<(Point, Point)>,
    E: Fn(Bounds) -> i32,
    T: Fn(Bounds) -> usize,
    S: Fn(usize, usize, usize) -> usize,
    U: Fn(Bounds) -> usize,
    V: Fn(usize, usize, usize) -> usize,
    W: Fn(&Vec<Point>) -> Winding,
    B: Fn(&Vec<Point>, usize, usize, usize) -> bool,
    H: Fn(&Vec<Point>, usize, usize, usize, usize) -> bool,
    M: Fn(Bounds) -> (Point, Point, Point, Point),
    L: Fn(Bounds) -> (Point, Point),
    Z: Fn(Point) -> Point,
>(
    scene: &Scene,
    tile_grid: &TileGridIndex,
    prepared: &PreparedTileFragments,
    tile: TileId,
    layer: LayerId,
    layer_draw_modes: &LayerMap<ClosedShapeDrawMode>,
    layer_hatch_styles: &LayerMap<HatchStylePreset>,
    draw_mode: ClosedShapeDrawMode,
    hatch_style: HatchStylePreset,
    area: Bounds,
    scaled: &Z,
    math: &DrawMath<N, X, C, E, T, S, U, V, W, B, H, M, L>,
) -> (out: Vec<DrawnShape>)
    requires
        stays_in_scene(*tile_grid, tile, layer, scene@.len()),
        primitives::can_draw(*math),
        forall|p: Point| #[trigger] scaled.requires((p,)),
    ensures
        forall|d: spec_fn(Point) -> Point, rules: DrawRules|
            #![trigger drawing::scales(*scaled, d), primitives::draws_by(*math, rules)]
            drawing::scales(*scaled, d) && primitives::draws_by(*math, rules)
                ==> drawing::drawn_models(out@) == scene_tile(
                scene@,
                *tile_grid,
                *prepared,
                tile,
                layer,
                (LayerRules {
                    hidden: Set::empty(),
                    modes: layer_draw_modes@,
                    styles: layer_hatch_styles@,
                    mode: draw_mode,
                    style: hatch_style,
                }),
                area,
                d,
                rules,
            ),
{
    let ghost layers = LayerRules {
        hidden: Set::empty(),
        modes: layer_draw_modes@,
        styles: layer_hatch_styles@,
        mode: draw_mode,
        style: hatch_style,
    };
    let none = LayerSet::new();
    let indices = uncut_shape_indices(tile_grid, prepared, tile, layer);
    proof {
        lemma_uncut_bound(tile_grid.bucket(tile, layer), prepared.shapes(), scene@.len());
    }
    let mut at: Vec<usize> = Vec::new();
    let mut i: usize = 0;
    while i < indices.len()
        invariant
            i <= indices@.len(),
            at@ == places(indices@).take(i as int),
        decreases indices@.len() - i,
    {
        at.push(indices[i] as usize);
        assert(at@ =~= places(indices@).take(i + 1));
        i += 1;
    }
    assert(at@ =~= places(indices@));
    let mut out = draw_scene_shapes(
        scene,
        &at,
        &none,
        layer_draw_modes,
        layer_hatch_styles,
        draw_mode,
        hatch_style,
        Some(area),
        scaled,
        math,
    );
    let ghost whole = out@;
    match prepared.fragments_for_tile_layer(tile, layer) {
        Some(pieces) => {
            let mut cut = draw_prepared_fragments(
                pieces,
                &none,
                layer_draw_modes,
                layer_hatch_styles,
                draw_mode,
                hatch_style,
                scaled,
                math,
            );
            let ghost parts = cut@;
            out.append(&mut cut);
            assert(drawing::drawn_models(out@) =~= drawing::drawn_models(whole)
                + drawing::drawn_models(parts));
        },
        None => {
            proof {
                assert(prepared.fragments(tile, layer) =~= Seq::empty());
                assert forall|d: spec_fn(Point) -> Point, rules: DrawRules| true implies (
                #[trigger] drawing::drawn_fragments(
                    prepared.fragments(tile, layer),
                    layers,
                    d,
                    rules,
                )).len() == 0 by {}
                assert forall|d: spec_fn(Point) -> Point, rules: DrawRules|
                    #![trigger drawing::scales(*scaled, d), primitives::draws_by(*math, rules)]
                    drawing::scales(*scaled, d) && primitives::draws_by(
                    *math,
                    rules,
                ) implies drawing::drawn_models(out@) == scene_tile(
                    scene@,
                    *tile_grid,
                    *prepared,
                    tile,
                    layer,
                    layers,
                    area,
                    d,
                    rules,
                ) by {
                    assert(drawing::drawn_models(out@) =~= scene_tile(
                        scene@,
                        *tile_grid,
                        *prepared,
                        tile,
                        layer,
                        layers,
                        area,
                        d,
                        rules,
                    ));
                }
            }
        },
    }
    out
}

/// How a layout is asked for what one layer has in a tile.
pub open spec fn tile_options(
    options: LayoutViewBuildOptions,
    tile_bounds: Bounds,
    layer: LayerId,
) -> LayoutViewBuildOptions {
    LayoutViewBuildOptions {
        visible_world_bounds: Some(tile_bounds),
        layer_filter: Some(layer),
        ..options
    }
}

/// What one layer of one tile of a layout is drawn with. `tile_bounds` is the tile in the layout
/// and `area` the tile on the screen; `scaled` brings points there, and the other functions place
/// the cells of the layout.
pub fn draw_layout_tile<
    N: Fn(Point, Point) -> bool,
    X: Fn(ClipEdge, Bounds, Point, Point) -> Point,
    C: Fn(Bounds, Point, Point) -> Option<(Point, Point)>,
    E: Fn(Bounds) -> i32,
    T: Fn(Bounds) -> usize,
    S: Fn(usize, usize, usize) -> usize,
    U: Fn(Bounds) -> usize,
    V: Fn(usize, usize, usize) -> usize,
    W: Fn(&Vec<Point>) -> Winding,
    B: Fn(&Vec<Point>, usize, usize, usize) -> bool,
    H: Fn(&Vec<Point>, usize, usize, usize, usize) -> bool,
    M: Fn(Bounds) -> (Point, Point, Point, Point),
    L: Fn(Bounds) -> (Point, Point),
    Z: Fn(Point) -> Point,
    WB: Fn(&Vec<PlacementStep>, Bounds) -> Bounds,
    SB: Fn(&Vec<PlacementStep>, LayoutCellId, usize) -> Bounds,
    SM: Fn(Bounds, SubtreeScreenLod) -> bool,
    PO: Fn(&ViewShape) -> PlacedOutline,
>(
    bundle: &LayoutBundle,
    base_options: LayoutViewBuildOptions,
    layer: LayerId,
    mode: ClosedShapeDrawMode,
    style: HatchStylePreset,
    tile_bounds: Bounds,
    area: Bounds,
    world: &WB,
    shape: &SB,
    small: &SM,
    outline: &PO,
    scaled: &Z,
    math: &DrawMath<N, X, C, E, T, S, U, V, W, B, H, M, L>,
) -> (out: Vec<DrawnShape>)
    requires
        view_builder::answers(*world, *shape, *small),
        forall|shape: &ViewShape| #[trigger] outline.requires((shape,)),
        primitives::can_draw(*math),
        forall|p: Point| #[trigger] scaled.requires((p,)),
    ensures
        forall|
            at: Placing,
            put: spec_fn(ViewShapeModel) -> PlacedModel,
            d: spec_fn(Point) -> Point,
            rules: DrawRules,
        |
            #![trigger view_builder::places(*world, *shape, *small, at), workset::draws(*outline, put), drawing::scales(*scaled, d), primitives::draws_by(*math, rules)]
            view_builder::places(*world, *shape, *small, at) && workset::draws(*outline, put)
                && drawing::scales(*scaled, d) && primitives::draws_by(*math, rules)
                ==> drawing::drawn_models(out@) == workset::workset(
                *bundle,
                tile_options(base_options, tile_bounds, layer),
                at,
                put,
            ).map_values(
                |s: scene::ShapeModel| drawing::drawn(s, mode, style, Some(area), d, rules),
            ),
{
    let options = base_options.with_visible_world_bounds(Some(tile_bounds)).with_layer_filter(
        Some(layer),
    );
    assert(options == tile_options(base_options, tile_bounds, layer));
    let built = build_workset(bundle, options, world, shape, small, outline);
    draw_all(&built, mode, style, Some(area), scaled, math)
}

} // verus!
