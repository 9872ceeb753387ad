//! Which tiles and layers a view asks for, and in what order.

use crate::counters;
use crate::counters::{capped_product, capped_sum};
use crate::layers;
use crate::layers::{LayerMap, LayerSet};
use crate::layout::{LayoutBundle, LayoutCellId};
use crate::renderer::fragments::PreparedTileFragments;
use crate::renderer::geometry::{
    effective_draw_mode, effective_hatch_style, ClosedShapeDrawMode, HatchStylePreset, TileId,
};
use crate::renderer::grid;
use crate::renderer::grid::{CellSpan, TileGridIndex};
use crate::renderer::queue;
use crate::renderer::queue::{contains_layer, PendingTileBuild, TileCacheKey};
use crate::renderer::LayerPendingStats;
use crate::scene;
use crate::scene::{Bounds, LayerId};
use crate::seqs;
use crate::seqs::sort_ranked_items;
use crate::view_builder;
use crate::view_builder::{
    visit_layout_shape_bounds_in_view, LayoutViewBuildOptions, PlacementStep, Placing,
    SubtreeScreenLod, ViewShape,
};
use std::collections::VecDeque;
use vstd::prelude::*;

verus! {

/// What the keys of one view have in common.
#[derive(Debug, Clone, Copy, PartialEq, Eq, Structural)]
pub struct TileLook {
    pub scene_revision: u64,
    pub zoom_bits: u32,
    pub hatch_signature: u64,
    pub draw_mode: ClosedShapeDrawMode,
    pub hatch_style: HatchStylePreset,
}

/// The key of a tile and layer: drawn as the layer says, or by default.
pub open spec fn key_for(
    look: TileLook,
    modes: Map<LayerId, ClosedShapeDrawMode>,
    styles: Map<LayerId, HatchStylePreset>,
    tile_id: TileId,
    layer: LayerId,
) -> TileCacheKey {
    TileCacheKey {
        scene_revision: look.scene_revision,
        zoom_bits: look.zoom_bits,
        tile_id,
        layer,
        effective_mode_tag: (if modes.dom().contains(layer) {
            modes[layer]
        } else {
            look.draw_mode
        }).tag(),
        hatch_signature: look.hatch_signature,
        effective_hatch_style_tag: (if styles.dom().contains(layer) {
            styles[layer]
        } else {
            look.hatch_style
        }).tag(),
    }
}

/// The key of a tile and layer: drawn as the layer says, or by default.
pub fn tile_key_for(
    look: TileLook,
    layer_draw_modes: &LayerMap<ClosedShapeDrawMode>,
    layer_hatch_styles: &LayerMap<HatchStylePreset>,
    tile_id: TileId,
    layer: LayerId,
) -> (key: TileCacheKey)
    ensures
        key == key_for(look, layer_draw_modes@, layer_hatch_styles@, tile_id, layer),
{
    TileCacheKey {
        scene_revision: look.scene_revision,
        zoom_bits: look.zoom_bits,
        tile_id,
        layer,
        effective_mode_tag: effective_draw_mode(layer, look.draw_mode, layer_draw_modes).as_tag(),
        hatch_signature: look.hatch_signature,
        effective_hatch_style_tag: effective_hatch_style(
            layer,
            look.hatch_style,
            layer_hatch_styles,
        ).as_tag(),
    }
}

/// Whether some shape of the tile and layer is not among those cut ahead of drawing.
pub open spec fn has_uncut_shape(bucket: Seq<u32>, cut: Seq<u32>) -> bool {
    exists|k: int| 0 <= k < bucket.len() && !cut.contains(#[trigger] bucket[k])
}

/// Whether a tile of a scene has something to draw on a layer: a shape that is drawn whole, or a
/// piece of one that was cut.
pub open spec fn scene_wants(
    grid: TileGridIndex,
    prepared: PreparedTileFragments,
    hidden: Set<LayerId>,
    tile: TileId,
    layer: LayerId,
) -> bool {
    &&& !hidden.contains(layer)
    &&& (has_uncut_shape(grid.bucket(tile, layer), prepared.shapes()) || prepared.fragments(
        tile,
        layer,
    ).len() > 0)
}

/// Those of the shapes that are not among those cut ahead of drawing.
pub open spec fn uncut(bucket: Seq<u32>, cut: Seq<u32>) -> Seq<u32>
    decreases bucket.len(),
{
    if bucket.len() == 0 {
        Seq::empty()
    } else {
        let rest = uncut(bucket.drop_last(), cut);
        if cut.contains(bucket.last()) {
            rest
        } else {
            rest.push(bucket.last())
        }
    }
}

/// The shapes of a tile and layer that are drawn whole, in scene order.
pub fn uncut_shape_indices(
    grid: &TileGridIndex,
    prepared: &PreparedTileFragments,
    tile: TileId,
    layer: LayerId,
) -> (indices: Vec<u32>)
    ensures
        indices@ == uncut(grid.bucket(tile, layer), prepared.shapes()),
        indices@.len() <= grid.bucket(tile, layer).len(),
{
    let bucket = grid.shape_indices_for_tile_layer(tile, layer);
    let mut indices: Vec<u32> = Vec::new();
    let mut i: usize = 0;
    while i < bucket.len()
        invariant
            i <= bucket@.len(),
            indices@.len() <= i,
            indices@ == uncut(bucket@.take(i as int), prepared.shapes()),
        decreases bucket@.len() - i,
    {
        if !prepared.contains_shape(bucket[i]) {
            indices.push(bucket[i]);
        }
        proof {
            assert(bucket@.take(i + 1).drop_last() =~= bucket@.take(i as int));
        }
        i += 1;
    }
    assert(bucket@.take(i as int) =~= bucket@);
    indices
}

proof fn lemma_uncut_len(bucket: Seq<u32>, cut: Seq<u32>)
    ensures
        uncut(bucket, cut).len() > 0 <==> has_uncut_shape(bucket, cut),
    decreases bucket.len(),
{
    if bucket.len() > 0 {
        let head = bucket.drop_last();
        lemma_uncut_len(head, cut);
        if has_uncut_shape(head, cut) {
            let k = choose|k: int| 0 <= k < head.len() && !cut.contains(#[trigger] head[k]);
            assert(!cut.contains(bucket[k]));
        }
        if !cut.contains(bucket.last()) {
            assert(!cut.contains(bucket[bucket.len() - 1]));
        }
        if has_uncut_shape(bucket, cut) {
            let k = choose|k: int| 0 <= k < bucket.len() && !cut.contains(#[trigger] bucket[k]);
            if k < head.len() {
                assert(!cut.contains(head[k]));
            }
        }
    }
}

/// The layers that a tile of a scene has something to draw on.
pub fn scene_tile_layers(
    grid: &TileGridIndex,
    prepared: &PreparedTileFragments,
    hidden_layers: &LayerSet,
    tile: TileId,
) -> (wanted: LayerSet)
    ensures
        wanted@ == Set::new(
            |layer: LayerId| scene_wants(*grid, *prepared, hidden_layers@, tile, layer),
        ),
{
    let mut wanted = LayerSet::new();
    let listed = grid.layers_for_tile(tile);
    let mut i: usize = 0;
    while i < listed.len()
        invariant
            i <= listed@.len(),
            wanted@ == Set::new(
                |layer: LayerId|
                    !hidden_layers@.contains(layer) && listed@.take(i as int).contains(layer)
                        && has_uncut_shape(grid.bucket(tile, layer), prepared.shapes()),
            ),
        decreases listed@.len() - i,
    {
        let layer = listed[i];
        let ghost before = wanted@;
        proof {
            assert(listed@.take(i + 1) =~= listed@.take(i as int).push(layer));
            assert forall|x: LayerId| #[trigger] listed@.take(i + 1).contains(x) <==> listed@.take(
                i as int,
            ).contains(x) || x == layer by {
                seqs::lemma_push_contains(listed@.take(i as int), layer, x);
            }
        }
        if !hidden_layers.contains(layer) {
            let whole = uncut_shape_indices(grid, prepared, tile, layer);
            proof {
                lemma_uncut_len(grid.bucket(tile, layer), prepared.shapes());
            }
            if whole.len() > 0 {
                wanted.insert(layer);
            }
        }
        assert(wanted@ =~= Set::new(
            |layer: LayerId|
                !hidden_layers@.contains(layer) && listed@.take(i + 1).contains(layer)
                    && has_uncut_shape(grid.bucket(tile, layer), prepared.shapes()),
        ));
        i += 1;
    }
    let cut = prepared.layers_for_tile(tile);
    let ghost whole = wanted@;
    proof {
        assert(listed@.take(listed@.len() as int) =~= listed@);
    }
    let mut j: usize = 0;
    while j < cut.len()
        invariant
            j <= cut@.len(),
            wanted@ == Set::new(
                |layer: LayerId|
                    whole.contains(layer) || (!hidden_layers@.contains(layer) && cut@.take(
                        j as int,
                    ).contains(layer)),
            ),
        decreases cut@.len() - j,
    {
        let layer = cut[j];
        proof {
            assert(cut@.take(j + 1) =~= cut@.take(j as int).push(layer));
            assert forall|x: LayerId| #[trigger] cut@.take(j + 1).contains(x) <==> cut@.take(
                j as int,
            ).contains(x) || x == layer by {
                seqs::lemma_push_contains(cut@.take(j as int), layer, x);
            }
        }
        if !hidden_layers.contains(layer) {
            wanted.insert(layer);
        }
        assert(wanted@ =~= Set::new(
            |layer: LayerId|
                whole.contains(layer) || (!hidden_layers@.contains(layer) && cut@.take(
                    j + 1,
                ).contains(layer)),
        ));
        j += 1;
    }
    proof {
        assert(cut@.take(cut@.len() as int) =~= cut@);
        assert forall|layer: LayerId| #[trigger] wanted@.contains(layer) <==> scene_wants(
            *grid,
            *prepared,
            hidden_layers@,
            tile,
            layer,
        ) by {
            assert(listed@.contains(layer) <==> grid.bucket(tile, layer).len() > 0);
            assert(cut@.contains(layer) <==> prepared.fragments(tile, layer).len() > 0);
        }
        assert(wanted@ =~= Set::new(
            |layer: LayerId| scene_wants(*grid, *prepared, hidden_layers@, tile, layer),
        ));
    }
    wanted
}

/// Those of the layers that are not hidden.
pub fn shown_layers(layer_ids: &[LayerId], hidden_layers: &LayerSet) -> (wanted: LayerSet)
    ensures
        wanted@ == layer_ids@.to_set().difference(hidden_layers@),
{
    let mut wanted = LayerSet::new();
    let mut i: usize = 0;
    proof {
        assert(layer_ids@.take(0).to_set() =~= Set::<LayerId>::empty());
        assert(wanted@ =~= layer_ids@.take(0).to_set().difference(hidden_layers@));
    }
    while i < layer_ids.len()
        invariant
            i <= layer_ids@.len(),
            wanted@ == layer_ids@.take(i as int).to_set().difference(hidden_layers@),
        decreases layer_ids@.len() - i,
    {
        let layer = layer_ids[i];
        proof {
            assert(layer_ids@.take(i + 1) =~= layer_ids@.take(i as int).push(layer));
            assert forall|x: LayerId| #[trigger] layer_ids@.take(i + 1).contains(x)
                <==> layer_ids@.take(i as int).contains(x) || x == layer by {
                seqs::lemma_push_contains(layer_ids@.take(i as int), layer, x);
            }
        }
        if !hidden_layers.contains(layer) {
            wanted.insert(layer);
        }
        assert(wanted@ =~= layer_ids@.take(i + 1).to_set().difference(hidden_layers@));
        i += 1;
    }
    assert(layer_ids@.take(i as int) =~= layer_ids@);
    wanted
}

/// The keys of a tile, by ascending layer.
pub open spec fn tile_keys(
    look: TileLook,
    modes: Map<LayerId, ClosedShapeDrawMode>,
    styles: Map<LayerId, HatchStylePreset>,
    tile: TileId,
    wanted: Set<LayerId>,
) -> Seq<TileCacheKey> {
    layers::ascending(wanted).map_values(
        |layer: LayerId| key_for(look, modes, styles, tile, layer),
    )
}

/// Appends the keys of a tile, by ascending layer.
pub fn push_tile_keys(
    keys: &mut Vec<TileCacheKey>,
    look: TileLook,
    layer_draw_modes: &LayerMap<ClosedShapeDrawMode>,
    layer_hatch_styles: &LayerMap<HatchStylePreset>,
    tile: TileId,
    wanted: &LayerSet,
)
    ensures
        final(keys)@ == old(keys)@ + tile_keys(
            look,
            layer_draw_modes@,
            layer_hatch_styles@,
            tile,
            wanted@,
        ),
{
    let ghost before = keys@;
    let ids = wanted.ids();
    let mut i: usize = 0;
    let ghost row = tile_keys(look, layer_draw_modes@, layer_hatch_styles@, tile, wanted@);
    assert(keys@ =~= before + row.take(0));
    while i < ids.len()
        invariant
            i <= ids@.len(),
            row == tile_keys(look, layer_draw_modes@, layer_hatch_styles@, tile, wanted@),
            ids@ == layers::ascending(wanted@),
            keys@ == before + row.take(i as int),
        decreases ids@.len() - i,
    {
        keys.push(tile_key_for(look, layer_draw_modes, layer_hatch_styles, tile, ids[i]));
        assert(keys@ =~= before + row.take(i + 1));
        i += 1;
    }
    assert(row.take(i as int) =~= row);
}

/// The keys that the visible tiles of a scene ask for, tile by tile.
pub open spec fn scene_keys(
    tiles: Seq<TileId>,
    grid: TileGridIndex,
    prepared: PreparedTileFragments,
    hidden: Set<LayerId>,
    look: TileLook,
    modes: Map<LayerId, ClosedShapeDrawMode>,
    styles: Map<LayerId, HatchStylePreset>,
) -> Seq<TileCacheKey>
    decreases tiles.len(),
{
    if tiles.len() == 0 {
        Seq::empty()
    } else {
        scene_keys(tiles.drop_last(), grid, prepared, hidden, look, modes, styles) + tile_keys(
            look,
            modes,
            styles,
            tiles.last(),
            Set::new(|layer: LayerId| scene_wants(grid, prepared, hidden, tiles.last(), layer)),
        )
    }
}

/// The keys that the visible tiles of a scene ask for, tile by tile.
pub fn requested_scene_keys(
    visible_tiles: &[TileId],
    grid: &TileGridIndex,
    prepared: &PreparedTileFragments,
    hidden_layers: &LayerSet,
    look: TileLook,
    layer_draw_modes: &LayerMap<ClosedShapeDrawMode>,
    layer_hatch_styles: &LayerMap<HatchStylePreset>,
) -> (keys: Vec<TileCacheKey>)
    ensures
        keys@ == scene_keys(
            visible_tiles@,
            *grid,
            *prepared,
            hidden_layers@,
            look,
            layer_draw_modes@,
            layer_hatch_styles@,
        ),
{
    let mut keys: Vec<TileCacheKey> = Vec::new();
    let mut i: usize = 0;
    while i < visible_tiles.len()
        invariant
            i <= visible_tiles@.len(),
            keys@ == scene_keys(
                visible_tiles@.take(i as int),
                *grid,
                *prepared,
                hidden_layers@,
                look,
                layer_draw_modes@,
                layer_hatch_styles@,
            ),
        decreases visible_tiles@.len() - i,
    {
        let tile = visible_tiles[i];
        let wanted = scene_tile_layers(grid, prepared, hidden_layers, tile);
        push_tile_keys(&mut keys, look, layer_draw_modes, layer_hatch_styles, tile, &wanted);
        proof {
            assert(visible_tiles@.take(i + 1).drop_last() =~= visible_tiles@.take(i as int));
            assert(visible_tiles@.take(i + 1).last() == tile);
        }
        i += 1;
    }
    assert(visible_tiles@.take(i as int) =~= visible_tiles@);
    keys
}

/// The hint of one tile: the layers that have something in it, in ascending order.
#[derive(Debug)]
pub struct TileHint {
    pub tile: TileId,
    pub layers: Vec<LayerId>,
}

/// Whether some hint is for the tile.
pub open spec fn has_hint(hints: Seq<TileHint>, tile: TileId) -> bool {
    exists|k: int| 0 <= k < hints.len() && (#[trigger] hints[k]).tile == tile
}

/// The layers that the first hint for the tile names; none where there is no hint.
pub open spec fn hinted_layers(hints: Seq<TileHint>, tile: TileId) -> Seq<LayerId>
    decreases hints.len(),
{
    if hints.len() == 0 {
        Seq::empty()
    } else if hints[0].tile == tile {
        hints[0].layers@
    } else {
        hinted_layers(hints.skip(1), tile)
    }
}

/// The place of the first hint for the tile.
fn hint_position(hints: &Vec<TileHint>, tile: TileId) -> (at: Option<usize>)
    ensures
        at is Some <==> has_hint(hints@, tile),
        at matches Some(k) ==> k < hints@.len() && hints@[k as int].layers@ == hinted_layers(
            hints@,
            tile,
        ),
        at is None ==> hinted_layers(hints@, tile) == Seq::<LayerId>::empty(),
{
    let mut i: usize = 0;
    assert(hints@.skip(0) =~= hints@);
    while i < hints.len()
        invariant
            i <= hints@.len(),
            forall|k: int| 0 <= k < i ==> (#[trigger] hints@[k]).tile != tile,
            hinted_layers(hints@, tile) == hinted_layers(hints@.skip(i as int), tile),
        decreases hints@.len() - i,
    {
        assert(hints@.skip(i as int)[0] == hints@[i as int]);
        if hints[i].tile == tile {
            assert(hints@[i as int].tile == tile);
            return Some(i);
        }
        assert(hints@.skip(i as int).skip(1) =~= hints@.skip(i + 1));
        i += 1;
    }
    None
}

/// The keys that the visible tiles of a layout ask for, by their hints, tile by tile.
pub open spec fn hinted_keys(
    tiles: Seq<TileId>,
    hints: Seq<TileHint>,
    hidden: Set<LayerId>,
    look: TileLook,
    modes: Map<LayerId, ClosedShapeDrawMode>,
    styles: Map<LayerId, HatchStylePreset>,
) -> Seq<TileCacheKey>
    decreases tiles.len(),
{
    if tiles.len() == 0 {
        Seq::empty()
    } else {
        hinted_keys(tiles.drop_last(), hints, hidden, look, modes, styles) + tile_keys(
            look,
            modes,
            styles,
            tiles.last(),
            hinted_layers(hints, tiles.last()).to_set().difference(hidden),
        )
    }
}

/// The keys that the visible tiles of a layout ask for, by their hints, tile by tile.
pub fn requested_hinted_keys(
    visible_tiles: &[TileId],
    hints: &Vec<TileHint>,
    hidden_layers: &LayerSet,
    look: TileLook,
    layer_draw_modes: &LayerMap<ClosedShapeDrawMode>,
    layer_hatch_styles: &LayerMap<HatchStylePreset>,
) -> (keys: Vec<TileCacheKey>)
    ensures
        keys@ == hinted_keys(
            visible_tiles@,
            hints@,
            hidden_layers@,
            look,
            layer_draw_modes@,
            layer_hatch_styles@,
        ),
{
    let mut keys: Vec<TileCacheKey> = Vec::new();
    let mut i: usize = 0;
    while i < visible_tiles.len()
        invariant
            i <= visible_tiles@.len(),
            keys@ == hinted_keys(
                visible_tiles@.take(i as int),
                hints@,
                hidden_layers@,
                look,
                layer_draw_modes@,
                layer_hatch_styles@,
            ),
        decreases visible_tiles@.len() - i,
    {
        let tile = visible_tiles[i];
        let wanted = match hint_position(hints, tile) {
            Some(at) => shown_layers(&hints[at].layers, hidden_layers),
            None => {
                let none = LayerSet::new();
                assert(none@ =~= Seq::<LayerId>::empty().to_set().difference(hidden_layers@));
                none
            },
        };
        push_tile_keys(&mut keys, look, layer_draw_modes, layer_hatch_styles, tile, &wanted);
        proof {
            assert(visible_tiles@.take(i + 1).drop_last() =~= visible_tiles@.take(i as int));
            assert(visible_tiles@.take(i + 1).last() == tile);
        }
        i += 1;
    }
    assert(visible_tiles@.take(i as int) =~= visible_tiles@);
    keys
}

/// The tiles of a list that have no hint yet, each once, in the order of the list.
pub fn tiles_without_hint(visible_tiles: &[TileId], hints: &Vec<TileHint>) -> (missing: Vec<TileId>)
    ensures
        missing@ == seqs::distinct(visible_tiles@.filter(|tile: TileId| !has_hint(hints@, tile))),
{
    let ghost lacking = |tile: TileId| !has_hint(hints@, tile);
    let ghost wanted = visible_tiles@.filter(lacking);
    let mut missing: Vec<TileId> = Vec::new();
    let mut i: usize = 0;
    proof {
        reveal(Seq::filter);
        assert(visible_tiles@.take(0).filter(lacking) =~= Seq::<TileId>::empty());
    }
    while i < visible_tiles.len()
        invariant
            i <= visible_tiles@.len(),
            lacking == (|tile: TileId| !has_hint(hints@, tile)),
            missing@ == seqs::distinct(visible_tiles@.take(i as int).filter(lacking)),
        decreases visible_tiles@.len() - i,
    {
        let tile = visible_tiles[i];
        let ghost done = visible_tiles@.take(i as int).filter(lacking);
        proof {
            seqs::lemma_filter_take(visible_tiles@, i as int, lacking);
        }
        if hint_position(hints, tile).is_none() {
            proof {
                assert(done.push(tile).drop_last() =~= done);
            }
            if !contains_tile(&missing, tile) {
                missing.push(tile);
            }
        }
        i += 1;
    }
    assert(visible_tiles@.take(i as int) =~= visible_tiles@);
    missing
}

/// Adds the hints of the visible tiles that have none yet; the others stay as they are.
pub fn ensure_hierarchy_tile_layer_hints<
    W: Fn(&Vec<PlacementStep>, Bounds) -> Bounds,
    B: Fn(&Vec<PlacementStep>, LayoutCellId, usize) -> Bounds,
    S: Fn(Bounds, SubtreeScreenLod) -> bool,
    G: Fn(Bounds) -> CellSpan,
    T: Fn(TileId) -> Bounds,
>(
    hints: &mut Vec<TileHint>,
    bundle: &LayoutBundle,
    options: LayoutViewBuildOptions,
    tile_grid: &TileGridIndex,
    visible_tiles: &[TileId],
    world: &W,
    shape: &B,
    small: &S,
    span: &G,
    tile_bounds: &T,
)
    requires
        view_builder::answers(*world, *shape, *small),
        forall|b: Bounds| #[trigger] span.requires((b,)),
        forall|t: TileId| #[trigger] tile_bounds.requires((t,)),
    ensures
        ({
            let known = old(hints)@;
            let missing = seqs::distinct(
                visible_tiles@.filter(|tile: TileId| !has_hint(known, tile)),
            );
            &&& final(hints)@.len() == known.len() + missing.len()
            &&& final(hints)@.take(known.len() as int) == known
            &&& forall|k: int|
                0 <= k < missing.len() ==> (#[trigger] final(hints)@[known.len() + k]).tile
                    == missing[k]
            &&& forall|
                d: Placing,
                spans: spec_fn(Bounds) -> CellSpan,
                boxes: spec_fn(TileId) -> Bounds,
                k: int,
            |
                #![trigger view_builder::places(*world, *shape, *small, d), decides_span(span, spans), decides_box(tile_bounds, boxes), final(hints)@[known.len() + k]]
                view_builder::places(*world, *shape, *small, d) && decides_span(span, spans)
                    && decides_box(tile_bounds, boxes) && 0 <= k < missing.len()
                    ==> final(hints)@[known.len() + k].layers@ == layers::ascending(
                    layers_in_tile(
                        shapes_in_area(*bundle, options, around_tiles(missing, boxes), d),
                        *tile_grid,
                        spans,
                        missing[k],
                    ),
                )
        }),
{
    let ghost known = hints@;
    let missing = tiles_without_hint(visible_tiles, hints);
    let mut fresh = build_hierarchy_tile_layer_hints_for_tiles(
        bundle,
        options,
        tile_grid,
        missing.as_slice(),
        world,
        shape,
        small,
        span,
        tile_bounds,
    );
    let ghost made = fresh@;
    hints.append(&mut fresh);
    assert(hints@ =~= known + made);
    assert(hints@.take(known.len() as int) =~= known);
    assert forall|k: int| 0 <= k < made.len() implies #[trigger] hints@[known.len() + k]
        == made[k] by {}
}

/// Whether the tile is in the list.
pub fn contains_tile(tiles: &[TileId], tile: TileId) -> (found: bool)
    ensures
        found == tiles@.contains(tile),
{
    let mut i: usize = 0;
    while i < tiles.len()
        invariant
            i <= tiles@.len(),
            forall|k: int| 0 <= k < i ==> tiles@[k] != tile,
        decreases tiles@.len() - i,
    {
        if tiles[i] == tile {
            assert(tiles@[i as int] == tile);
            return true;
        }
        i += 1;
    }
    false
}

/// Whether the function answers every rectangle, and as `spans` says.
pub open spec fn decides_span<G: Fn(Bounds) -> CellSpan>(
    span: &G,
    spans: spec_fn(Bounds) -> CellSpan,
) -> bool {
    &&& forall|b: Bounds| #[trigger] span.requires((b,))
    &&& forall|b: Bounds, r: CellSpan| #[trigger] span.ensures((b,), r) ==> r == spans(b)
}

/// Whether the function answers every tile, and as `boxes` says.
pub open spec fn decides_box<T: Fn(TileId) -> Bounds>(
    tile_bounds: &T,
    boxes: spec_fn(TileId) -> Bounds,
) -> bool {
    &&& forall|t: TileId| #[trigger] tile_bounds.requires((t,))
    &&& forall|t: TileId, r: Bounds| #[trigger] tile_bounds.ensures((t,), r) ==> r == boxes(t)
}

/// The rectangle around these tiles.
pub open spec fn around_tiles(tiles: Seq<TileId>, boxes: spec_fn(TileId) -> Bounds) -> Option<
    Bounds,
> {
    scene::union_of(tiles.map_values(boxes))
}

/// The shapes of a layout that lie in an area; none where the view cannot be built.
pub open spec fn shapes_in_area(
    bundle: LayoutBundle,
    options: LayoutViewBuildOptions,
    area: Option<Bounds>,
    d: Placing,
) -> Seq<view_builder::ViewShapeModel> {
    let within = LayoutViewBuildOptions { visible_world_bounds: area, ..options };
    if view_builder::build_error(bundle, within) is Some {
        Seq::empty()
    } else {
        view_builder::view_contribution(
            bundle,
            LayoutViewBuildOptions { subtree_screen_lod: None, ..within },
            d,
        )
    }
}

/// The layers of the shapes that touch a tile of the grid.
pub open spec fn layers_in_tile(
    shapes: Seq<view_builder::ViewShapeModel>,
    grid: TileGridIndex,
    spans: spec_fn(Bounds) -> CellSpan,
    tile: TileId,
) -> Set<LayerId> {
    Set::new(
        |layer: LayerId|
            grid.has(tile) && exists|k: int|
                0 <= k < shapes.len() && (#[trigger] shapes[k]).layer == layer && grid::covers(
                    spans(shapes[k].bounds),
                    grid.side(),
                    grid.side(),
                    tile,
                ),
    )
}

/// The layers of the shapes that touch a tile of the grid.
fn collect_tile_layers(shapes: &Vec<ViewShape>, shape_spans: &Vec<CellSpan>, grid: &TileGridIndex, tile: TileId) -> (found:
    LayerSet)
    requires
        shapes@.len() == shape_spans@.len(),
    ensures
        found@ == Set::new(
            |layer: LayerId|
                grid.has(tile) && exists|k: int|
                    0 <= k < shapes@.len() && (#[trigger] shapes@[k]).layer == layer
                        && grid::covers(shape_spans@[k], grid.side(), grid.side(), tile),
        ),
{
    let mut found = LayerSet::new();
    if !grid.has_tile(tile) {
        assert(found@ =~= Set::new(
            |layer: LayerId|
                grid.has(tile) && exists|k: int|
                    0 <= k < shapes@.len() && (#[trigger] shapes@[k]).layer == layer
                        && grid::covers(shape_spans@[k], grid.side(), grid.side(), tile),
        ));
        return found;
    }
    let side: i32 = grid.divisions() as i32;
    let mut i: usize = 0;
    while i < shapes.len()
        invariant
            i <= shapes@.len(),
            shapes@.len() == shape_spans@.len(),
            side == grid.side(),
            side > 0,
            grid.has(tile),
            forall|layer: LayerId| #[trigger]
                found@.contains(layer) <==> exists|k: int|
                    0 <= k < i && (#[trigger] shapes@[k]).layer == layer && grid::covers(
                        shape_spans@[k],
                        side,
                        side,
                        tile,
                    ),
        decreases shapes@.len() - i,
    {
        let span = shape_spans[i];
        let ghost before = found@;
        let touches = grid::hold_cell(span.min_col, side) <= tile.col && tile.col
            <= grid::hold_cell(span.max_col, side) && grid::hold_cell(span.min_row, side)
            <= tile.row && tile.row <= grid::hold_cell(span.max_row, side);
        if touches {
            found.insert(shapes[i].layer);
        }
        proof {
            assert forall|layer: LayerId| #[trigger] found@.contains(layer) <==> exists|k: int|
                0 <= k < i + 1 && (#[trigger] shapes@[k]).layer == layer && grid::covers(
                    shape_spans@[k],
                    side,
                    side,
                    tile,
                ) by {
                if before.contains(layer) {
                    let k = choose|k: int|
                        0 <= k < i && (#[trigger] shapes@[k]).layer == layer && grid::covers(
                            shape_spans@[k],
                            side,
                            side,
                            tile,
                        );
                    assert(shapes@[k].layer == layer);
                }
                if touches && layer == shapes@[i as int].layer {
                    assert(grid::covers(shape_spans@[i as int], side, side, tile));
                }
            }
        }
        i += 1;
    }
    assert(found@ =~= Set::new(
        |layer: LayerId|
            grid.has(tile) && exists|k: int|
                0 <= k < shapes@.len() && (#[trigger] shapes@[k]).layer == layer && grid::covers(
                    shape_spans@[k],
                    grid.side(),
                    grid.side(),
                    tile,
                ),
    ));
    found
}

/// The hints of the requested tiles: which layers of the layout have a shape that touches each.
pub fn build_hierarchy_tile_layer_hints_for_tiles<
    W: Fn(&Vec<PlacementStep>, Bounds) -> Bounds,
    B: Fn(&Vec<PlacementStep>, LayoutCellId, usize) -> Bounds,
    S: Fn(Bounds, SubtreeScreenLod) -> bool,
    G: Fn(Bounds) -> CellSpan,
    T: Fn(TileId) -> Bounds,
>(
    bundle: &LayoutBundle,
    options: LayoutViewBuildOptions,
    tile_grid: &TileGridIndex,
    requested_tiles: &[TileId],
    world: &W,
    shape: &B,
    small: &S,
    span: &G,
    tile_bounds: &T,
) -> (hints: Vec<TileHint>)
    requires
        view_builder::answers(*world, *shape, *small),
        forall|b: Bounds| #[trigger] span.requires((b,)),
        forall|t: TileId| #[trigger] tile_bounds.requires((t,)),
    ensures
        hints@.len() == requested_tiles@.len(),
        forall|k: int|
            0 <= k < hints@.len() ==> (#[trigger] hints@[k]).tile == requested_tiles@[k],
        forall|
            d: Placing,
            spans: spec_fn(Bounds) -> CellSpan,
            boxes: spec_fn(TileId) -> Bounds,
            k: int,
        |
            #![trigger view_builder::places(*world, *shape, *small, d), decides_span(span, spans), decides_box(tile_bounds, boxes), hints@[k]]
            view_builder::places(*world, *shape, *small, d) && decides_span(span, spans)
                && decides_box(tile_bounds, boxes) && 0 <= k < hints@.len() ==> hints@[k].layers@
                == layers::ascending(
                layers_in_tile(
                    shapes_in_area(*bundle, options, around_tiles(requested_tiles@, boxes), d),
                    *tile_grid,
                    spans,
                    requested_tiles@[k],
                ),
            ),
{
    let mut hints: Vec<TileHint> = Vec::new();
    if requested_tiles.len() == 0 {
        return hints;
    }
    let mut area: Option<Bounds> = None;
    let mut t: usize = 0;
    proof {
        assert forall|boxes: spec_fn(TileId) -> Bounds| #[trigger]
            decides_box(tile_bounds, boxes) implies area == around_tiles(
            requested_tiles@.take(0),
            boxes,
        ) by {
            assert(requested_tiles@.take(0).map_values(boxes) =~= Seq::<Bounds>::empty());
        }
    }
    while t < requested_tiles.len()
        invariant
            t <= requested_tiles@.len(),
            forall|t: TileId| #[trigger] tile_bounds.requires((t,)),
            forall|boxes: spec_fn(TileId) -> Bounds| #[trigger]
                decides_box(tile_bounds, boxes) ==> area == around_tiles(
                    requested_tiles@.take(t as int),
                    boxes,
                ),
        decreases requested_tiles@.len() - t,
    {
        let ghost before = area;
        let here = tile_bounds(requested_tiles[t]);
        area =
        match area {
            Some(bounds) => Some(bounds.union(here)),
            None => Some(here),
        };
        proof {
            assert forall|boxes: spec_fn(TileId) -> Bounds| #[trigger]
                decides_box(tile_bounds, boxes) implies area == around_tiles(
                requested_tiles@.take(t + 1),
                boxes,
            ) by {
                let all = requested_tiles@.take(t + 1).map_values(boxes);
                assert(all.drop_last() =~= requested_tiles@.take(t as int).map_values(boxes));
                assert(all.last() == here);
                assert(before == around_tiles(requested_tiles@.take(t as int), boxes));
            }
        }
        t += 1;
    }
    assert(requested_tiles@.take(t as int) =~= requested_tiles@);
    let within = options.with_visible_world_bounds(area);
    let shapes: Vec<ViewShape> = match visit_layout_shape_bounds_in_view(
        bundle,
        within,
        world,
        shape,
        small,
    ) {
        Ok(shapes) => shapes,
        Err(_) => Vec::new(),
    };
    proof {
        assert forall|d: Placing, boxes: spec_fn(TileId) -> Bounds| #[trigger]
            view_builder::places(*world, *shape, *small, d) && #[trigger] decides_box(
                tile_bounds,
                boxes,
            ) implies view_builder::view_shapes(shapes@) == shapes_in_area(
            *bundle,
            options,
            around_tiles(requested_tiles@, boxes),
            d,
        ) by {
            assert(within == (LayoutViewBuildOptions { visible_world_bounds: area, ..options }));
            if view_builder::build_error(*bundle, within) is Some {
                assert(view_builder::view_shapes(shapes@) =~= Seq::empty());
            }
        }
    }
    let mut shape_spans: Vec<CellSpan> = Vec::new();
    let mut s: usize = 0;
    while s < shapes.len()
        invariant
            s <= shapes@.len(),
            shape_spans@.len() == s,
            forall|b: Bounds| #[trigger] span.requires((b,)),
            forall|spans: spec_fn(Bounds) -> CellSpan, k: int|
                #![trigger decides_span(span, spans), shape_spans@[k]]
                decides_span(span, spans) && 0 <= k < s ==> shape_spans@[k] == spans(
                    shapes@[k].bounds,
                ),
        decreases shapes@.len() - s,
    {
        let found = span(shapes[s].bounds);
        shape_spans.push(found);
        s += 1;
    }
    let mut i: usize = 0;
    while i < requested_tiles.len()
        invariant
            i <= requested_tiles@.len(),
            hints@.len() == i,
            shapes@.len() == shape_spans@.len(),
            forall|k: int| 0 <= k < i ==> (#[trigger] hints@[k]).tile == requested_tiles@[k],
            forall|k: int|
                0 <= k < i ==> (#[trigger] hints@[k]).layers@ == layers::ascending(
                    Set::new(
                        |layer: LayerId|
                            tile_grid.has(requested_tiles@[k]) && exists|m: int|
                                0 <= m < shapes@.len() && (#[trigger] shapes@[m]).layer == layer
                                    && grid::covers(
                                    shape_spans@[m],
                                    tile_grid.side(),
                                    tile_grid.side(),
                                    requested_tiles@[k],
                                ),
                    ),
                ),
        decreases requested_tiles@.len() - i,
    {
        let tile = requested_tiles[i];
        let found = collect_tile_layers(&shapes, &shape_spans, tile_grid, tile);
        hints.push(TileHint { tile, layers: found.into_ids() });
        i += 1;
    }
    proof {
        assert forall|
            d: Placing,
            spans: spec_fn(Bounds) -> CellSpan,
            boxes: spec_fn(TileId) -> Bounds,
            k: int,
        |
            #![trigger view_builder::places(*world, *shape, *small, d), decides_span(span, spans), decides_box(tile_bounds, boxes), hints@[k]]
            view_builder::places(*world, *shape, *small, d) && decides_span(span, spans)
                && decides_box(tile_bounds, boxes) && 0 <= k < hints@.len() implies hints@[k].layers@
            == layers::ascending(
            layers_in_tile(
                shapes_in_area(*bundle, options, around_tiles(requested_tiles@, boxes), d),
                *tile_grid,
                spans,
                requested_tiles@[k],
            ),
        ) by {
            let listed = shapes_in_area(*bundle, options, around_tiles(requested_tiles@, boxes), d);
            assert(view_builder::view_shapes(shapes@) == listed);
            let tile = requested_tiles@[k];
            let seen = Set::new(
                |layer: LayerId|
                    tile_grid.has(tile) && exists|m: int|
                        0 <= m < shapes@.len() && (#[trigger] shapes@[m]).layer == layer
                            && grid::covers(
                            shape_spans@[m],
                            tile_grid.side(),
                            tile_grid.side(),
                            tile,
                        ),
            );
            let named = layers_in_tile(listed, *tile_grid, spans, tile);
            assert forall|layer: LayerId| seen.contains(layer) <==> named.contains(layer) by {
                if seen.contains(layer) {
                    let m = choose|m: int|
                        0 <= m < shapes@.len() && (#[trigger] shapes@[m]).layer == layer
                            && grid::covers(
                            shape_spans@[m],
                            tile_grid.side(),
                            tile_grid.side(),
                            tile,
                        );
                    assert(listed[m] == shapes@[m]@);
                    assert(listed[m].layer == layer);
                }
                if named.contains(layer) {
                    let m = choose|m: int|
                        0 <= m < listed.len() && (#[trigger] listed[m]).layer == layer
                            && grid::covers(
                            spans(listed[m].bounds),
                            tile_grid.side(),
                            tile_grid.side(),
                            tile,
                        );
                    assert(listed[m] == shapes@[m]@);
                    assert(shapes@[m].layer == layer);
                }
            }
            assert(seen =~= named);
        }
    }
    hints
}

/// Whether the function answers every tile, and as `distance` says.
pub open spec fn decides_rank<R: Fn(TileId) -> u64>(
    rank: &R,
    distance: spec_fn(TileId) -> u64,
) -> bool {
    &&& forall|t: TileId| #[trigger] rank.requires((t,))
    &&& forall|t: TileId, r: u64| #[trigger] rank.ensures((t,), r) ==> r == distance(t)
}

/// The keys of one layer, in the order of the list.
pub open spec fn keys_of_layer(keys: Seq<TileCacheKey>, layer: LayerId) -> Seq<TileCacheKey>
    decreases keys.len(),
{
    if keys.len() == 0 {
        Seq::empty()
    } else {
        let rest = keys_of_layer(keys.drop_last(), layer);
        if keys.last().layer == layer {
            rest.push(keys.last())
        } else {
            rest
        }
    }
}

/// The keys with the distances of their tiles.
pub open spec fn ranked_keys(
    keys: Seq<TileCacheKey>,
    distance: spec_fn(TileId) -> u64,
) -> Seq<(u64, TileCacheKey)> {
    keys.map_values(|key: TileCacheKey| (distance(key.tile_id), key))
}

/// The keys by growing distance of their tiles; keys at one distance keep their order.
pub open spec fn nearest_first(
    keys: Seq<TileCacheKey>,
    distance: spec_fn(TileId) -> u64,
) -> Seq<TileCacheKey> {
    seqs::sort_ranked(ranked_keys(keys, distance)).map_values(|item: (u64, TileCacheKey)| item.1)
}

/// The keys by growing distance of their tiles; keys at one distance keep their order.
pub fn sort_tile_keys_by_world_center<R: Fn(TileId) -> u64>(keys: &[TileCacheKey], rank: &R) -> (sorted:
    Vec<TileCacheKey>)
    requires
        forall|t: TileId| #[trigger] rank.requires((t,)),
    ensures
        forall|distance: spec_fn(TileId) -> u64| #[trigger]
            decides_rank(rank, distance) ==> sorted@ == nearest_first(keys@, distance),
{
    let mut ranked: Vec<(u64, TileCacheKey)> = Vec::new();
    let mut i: usize = 0;
    while i < keys.len()
        invariant
            i <= keys@.len(),
            ranked@.len() == i,
            forall|t: TileId| #[trigger] rank.requires((t,)),
            forall|distance: spec_fn(TileId) -> u64, k: int|
                #![trigger decides_rank(rank, distance), ranked@[k]]
                decides_rank(rank, distance) && 0 <= k < i ==> ranked@[k] == (
                    distance(keys@[k].tile_id),
                    keys@[k],
                ),
        decreases keys@.len() - i,
    {
        let key = keys[i];
        let far: u64 = rank(key.tile_id);
        ranked.push((far, key));
        i += 1;
    }
    proof {
        assert forall|distance: spec_fn(TileId) -> u64| #[trigger]
            decides_rank(rank, distance) implies ranked@ == ranked_keys(keys@, distance) by {
            assert(ranked@ =~= ranked_keys(keys@, distance));
        }
    }
    let ordered = sort_ranked_items(ranked);
    let mut sorted: Vec<TileCacheKey> = Vec::new();
    let mut j: usize = 0;
    while j < ordered.len()
        invariant
            j <= ordered@.len(),
            sorted@.len() == j,
            forall|k: int| 0 <= k < j ==> #[trigger] sorted@[k] == ordered@[k].1,
        decreases ordered@.len() - j,
    {
        sorted.push(ordered[j].1);
        j += 1;
    }
    proof {
        assert forall|distance: spec_fn(TileId) -> u64| #[trigger]
            decides_rank(rank, distance) implies sorted@ == nearest_first(keys@, distance) by {
            assert(sorted@ =~= nearest_first(keys@, distance));
        }
    }
    sorted
}

/// The keys layer by layer, each layer from the nearest tile.
pub open spec fn layer_major(
    keys: Seq<TileCacheKey>,
    order: Seq<LayerId>,
    distance: spec_fn(TileId) -> u64,
) -> Seq<TileCacheKey>
    decreases order.len(),
{
    if order.len() == 0 {
        Seq::empty()
    } else {
        layer_major(keys, order.drop_last(), distance) + nearest_first(
            keys_of_layer(keys, order.last()),
            distance,
        )
    }
}

/// The layers in which keys are asked for: those of the scene in their order, then the others in
/// ascending order.
pub open spec fn layer_order(keys: Seq<TileCacheKey>, scene_layers: Seq<LayerId>) -> Seq<LayerId> {
    seqs::distinct(scene_layers) + layers::ascending(
        queue::key_layers(keys).to_set().difference(scene_layers.to_set()),
    )
}

/// The layers in which keys are asked for.
fn collect_layer_order(keys: &[TileCacheKey], scene_layers: &[LayerId]) -> (order: Vec<LayerId>)
    ensures
        order@ == layer_order(keys@, scene_layers@),
{
    let mut order: Vec<LayerId> = Vec::new();
    let mut i: usize = 0;
    assert(scene_layers@.take(0) =~= Seq::<LayerId>::empty());
    while i < scene_layers.len()
        invariant
            i <= scene_layers@.len(),
            order@ == seqs::distinct(scene_layers@.take(i as int)),
        decreases scene_layers@.len() - i,
    {
        proof {
            seqs::lemma_append_new_take(Seq::<LayerId>::empty(), scene_layers@, i as int);
        }
        if !contains_layer(&order, scene_layers[i]) {
            order.push(scene_layers[i]);
        }
        i += 1;
    }
    assert(scene_layers@.take(i as int) =~= scene_layers@);
    let mut others = LayerSet::new();
    let ghost key_ids = queue::key_layers(keys@);
    let mut j: usize = 0;
    proof {
        assert(others@ =~= key_ids.take(0).to_set().difference(scene_layers@.to_set()));
    }
    while j < keys.len()
        invariant
            j <= keys@.len(),
            key_ids == queue::key_layers(keys@),
            others@ == key_ids.take(j as int).to_set().difference(scene_layers@.to_set()),
        decreases keys@.len() - j,
    {
        let layer = keys[j].layer;
        proof {
            assert(key_ids.take(j + 1) =~= key_ids.take(j as int).push(layer));
            assert forall|x: LayerId| #[trigger] key_ids.take(j + 1).contains(x) <==> key_ids.take(
                j as int,
            ).contains(x) || x == layer by {
                seqs::lemma_push_contains(key_ids.take(j as int), layer, x);
            }
        }
        if !contains_layer(scene_layers, layer) {
            others.insert(layer);
        }
        assert(others@ =~= key_ids.take(j + 1).to_set().difference(scene_layers@.to_set()));
        j += 1;
    }
    assert(key_ids.take(j as int) =~= key_ids);
    let ghost head = order@;
    let rest = others.into_ids();
    let mut k: usize = 0;
    assert(order@ =~= head + rest@.take(0));
    while k < rest.len()
        invariant
            k <= rest@.len(),
            order@ == head + rest@.take(k as int),
        decreases rest@.len() - k,
    {
        order.push(rest[k]);
        assert(order@ =~= head + rest@.take(k + 1));
        k += 1;
    }
    assert(rest@.take(k as int) =~= rest@);
    order
}

/// The keys layer by layer, in the order of the scene's layers and the others after them, each
/// layer from the tile nearest to the middle of the view.
pub fn flatten_layer_major_requested_tile_keys<R: Fn(TileId) -> u64>(
    keys: &[TileCacheKey],
    scene_layers: &[LayerId],
    rank: &R,
) -> (ordered: Vec<TileCacheKey>)
    requires
        forall|t: TileId| #[trigger] rank.requires((t,)),
    ensures
        forall|distance: spec_fn(TileId) -> u64| #[trigger]
            decides_rank(rank, distance) ==> ordered@ == layer_major(
                keys@,
                layer_order(keys@, scene_layers@),
                distance,
            ),
{
    let order = collect_layer_order(keys, scene_layers);
    let mut ordered: Vec<TileCacheKey> = Vec::new();
    let mut i: usize = 0;
    while i < order.len()
        invariant
            i <= order@.len(),
            forall|t: TileId| #[trigger] rank.requires((t,)),
            forall|distance: spec_fn(TileId) -> u64| #[trigger]
                decides_rank(rank, distance) ==> ordered@ == layer_major(
                    keys@,
                    order@.take(i as int),
                    distance,
                ),
        decreases order@.len() - i,
    {
        let layer = order[i];
        let mut own: Vec<TileCacheKey> = Vec::new();
        let mut j: usize = 0;
        while j < keys.len()
            invariant
                j <= keys@.len(),
                own@ == keys_of_layer(keys@.take(j as int), layer),
            decreases keys@.len() - j,
        {
            if keys[j].layer == layer {
                own.push(keys[j]);
            }
            assert(keys@.take(j + 1).drop_last() =~= keys@.take(j as int));
            j += 1;
        }
        assert(keys@.take(j as int) =~= keys@);
        let mut sorted = sort_tile_keys_by_world_center(&own, rank);
        let ghost before = ordered@;
        let ghost row = sorted@;
        ordered.append(&mut sorted);
        proof {
            assert(order@.take(i + 1).drop_last() =~= order@.take(i as int));
            assert(ordered@ =~= before + row);
        }
        i += 1;
    }
    assert(order@.take(i as int) =~= order@);
    ordered
}

/// The tiles of the builds of one layer that wait, in queue order.
pub open spec fn waiting_tiles(pending: Seq<PendingTileBuild>, layer: LayerId) -> Seq<TileId>
    decreases pending.len(),
{
    if pending.len() == 0 {
        Seq::empty()
    } else {
        let rest = waiting_tiles(pending.drop_last(), layer);
        if pending.last().tile_key.layer == layer {
            rest.push(pending.last().tile_key.tile_id)
        } else {
            rest
        }
    }
}

/// How many pieces the tiles have on a layer.
pub open spec fn piece_total(
    tiles: Seq<TileId>,
    prepared: PreparedTileFragments,
    layer: LayerId,
) -> nat
    decreases tiles.len(),
{
    if tiles.len() == 0 {
        0
    } else {
        piece_total(tiles.drop_last(), prepared, layer) + prepared.fragments(
            tiles.last(),
            layer,
        ).len()
    }
}

/// How many shapes of a layer are drawn whole in the tiles, counted for each tile.
pub open spec fn shape_total(
    tiles: Seq<TileId>,
    grid: TileGridIndex,
    prepared: PreparedTileFragments,
    layer: LayerId,
) -> nat
    decreases tiles.len(),
{
    if tiles.len() == 0 {
        0
    } else {
        shape_total(tiles.drop_last(), grid, prepared, layer) + uncut(
            grid.bucket(tiles.last(), layer),
            prepared.shapes(),
        ).len()
    }
}

/// What is left to do for a layer: its builds that wait, the pieces and the shapes in their tiles,
/// and the three weighed together. The counts stop at the largest that a `usize` holds.
pub open spec fn pending_stats(
    layer: LayerId,
    pending: Seq<PendingTileBuild>,
    prepared: PreparedTileFragments,
    grid: TileGridIndex,
) -> LayerPendingStats {
    let tiles = seqs::distinct(waiting_tiles(pending, layer));
    let entries = waiting_tiles(pending, layer).len();
    let pieces = counters::capped(piece_total(tiles, prepared, layer));
    let shapes = counters::capped(shape_total(tiles, grid, prepared, layer));
    LayerPendingStats {
        pending_entries: entries as usize,
        estimated_work_units: counters::capped(
            (entries * crate::renderer::LAYER_WORK_ENTRY_WEIGHT + pieces
                * crate::renderer::LAYER_WORK_PREPARED_WEIGHT + shapes
                * crate::renderer::LAYER_WORK_REGULAR_WEIGHT) as nat,
        ),
        prepared_fragment_count: pieces,
        regular_shape_count: shapes,
    }
}

/// What is left to do for a layer.
pub fn estimate_active_layer_pending_stats(
    active_layer: LayerId,
    pending: &VecDeque<PendingTileBuild>,
    prepared: &PreparedTileFragments,
    tile_grid: &TileGridIndex,
) -> (stats: LayerPendingStats)
    ensures
        stats == pending_stats(active_layer, pending@, *prepared, *tile_grid),
        stats.pending_entries == waiting_tiles(pending@, active_layer).len(),
{
    let mut tiles: Vec<TileId> = Vec::new();
    let mut entries: usize = 0;
    let mut i: usize = 0;
    proof {
        assert(waiting_tiles(pending@.take(0), active_layer) =~= Seq::<TileId>::empty());
    }
    while i < pending.len()
        invariant
            i <= pending@.len(),
            entries <= i,
            entries == waiting_tiles(pending@.take(i as int), active_layer).len(),
            tiles@ == seqs::distinct(waiting_tiles(pending@.take(i as int), active_layer)),
        decreases pending@.len() - i,
    {
        let item = pending[i];
        proof {
            let done = waiting_tiles(pending@.take(i as int), active_layer);
            assert(pending@.take(i + 1).drop_last() =~= pending@.take(i as int));
            assert(done.push(item.tile_key.tile_id).drop_last() =~= done);
        }
        if item.tile_key.layer == active_layer {
            entries += 1;
            if !contains_tile(&tiles, item.tile_key.tile_id) {
                tiles.push(item.tile_key.tile_id);
            }
        }
        i += 1;
    }
    assert(pending@.take(i as int) =~= pending@);
    let mut pieces: usize = 0;
    let mut shapes: usize = 0;
    let mut t: usize = 0;
    while t < tiles.len()
        invariant
            t <= tiles@.len(),
            pieces == counters::capped(piece_total(tiles@.take(t as int), *prepared, active_layer)),
            shapes == counters::capped(
                shape_total(tiles@.take(t as int), *tile_grid, *prepared, active_layer),
            ),
        decreases tiles@.len() - t,
    {
        let tile = tiles[t];
        assert(tiles@.take(t + 1).drop_last() =~= tiles@.take(t as int));
        let piece_count: usize = match prepared.fragments_for_tile_layer(tile, active_layer) {
            Some(list) => list.len(),
            None => 0,
        };
        pieces = capped_sum(pieces, piece_count);
        let whole = uncut_shape_indices(tile_grid, prepared, tile, active_layer);
        shapes = capped_sum(shapes, whole.len());
        t += 1;
    }
    assert(tiles@.take(t as int) =~= tiles@);
    let work: usize = capped_sum(
        capped_sum(
            capped_product(entries, crate::renderer::LAYER_WORK_ENTRY_WEIGHT),
            capped_product(pieces, crate::renderer::LAYER_WORK_PREPARED_WEIGHT),
        ),
        capped_product(shapes, crate::renderer::LAYER_WORK_REGULAR_WEIGHT),
    );
    LayerPendingStats {
        pending_entries: entries,
        estimated_work_units: work,
        prepared_fragment_count: pieces,
        regular_shape_count: shapes,
    }
}

/// What is left to do for the active layer; nothing where no layer is active.
pub open spec fn pending_stats_for(
    layer: Option<LayerId>,
    pending: Seq<PendingTileBuild>,
    prepared: PreparedTileFragments,
    grid: TileGridIndex,
) -> LayerPendingStats {
    match layer {
        Some(layer) => pending_stats(layer, pending, prepared, grid),
        None => LayerPendingStats {
            pending_entries: 0,
            estimated_work_units: 0,
            prepared_fragment_count: 0,
            regular_shape_count: 0,
        },
    }
}

/// What is left to do for the active layer; nothing where no layer is active.
pub fn estimate_active_layer_pending_stats_for_option(
    active_layer: Option<LayerId>,
    pending: &VecDeque<PendingTileBuild>,
    prepared: &PreparedTileFragments,
    tile_grid: &TileGridIndex,
) -> (stats: LayerPendingStats)
    ensures
        stats == pending_stats_for(active_layer, pending@, *prepared, *tile_grid),
{
    match active_layer {
        Some(layer) => estimate_active_layer_pending_stats(layer, pending, prepared, tile_grid),
        None => LayerPendingStats::default(),
    }
}

proof fn lemma_keys_of_layer_contains(keys: Seq<TileCacheKey>, layer: LayerId, key: TileCacheKey)
    ensures
        keys_of_layer(keys, layer).contains(key) <==> keys.contains(key) && key.layer == layer,
    decreases keys.len(),
{
    if keys.len() > 0 {
        let head = keys.drop_last();
        lemma_keys_of_layer_contains(head, layer, key);
        assert(head.push(keys.last()) =~= keys);
        seqs::lemma_push_contains(head, keys.last(), key);
        seqs::lemma_push_contains(keys_of_layer(head, layer), keys.last(), key);
    }
}

proof fn lemma_nearest_first(
    keys: Seq<TileCacheKey>,
    distance: spec_fn(TileId) -> u64,
    key: TileCacheKey,
)
    ensures
        nearest_first(keys, distance).len() == keys.len(),
        nearest_first(keys, distance).contains(key) <==> keys.contains(key),
{
    let ranked = ranked_keys(keys, distance);
    let sorted = seqs::sort_ranked(ranked);
    seqs::lemma_sort_ranked(ranked);
    let listed = nearest_first(keys, distance);
    if listed.contains(key) {
        let k = choose|k: int| 0 <= k < listed.len() && listed[k] == key;
        assert(sorted.contains(sorted[k]));
        assert(ranked.contains(sorted[k]));
        let j = choose|j: int| 0 <= j < ranked.len() && ranked[j] == sorted[k];
        assert(keys[j] == key);
    }
    if keys.contains(key) {
        let j = choose|j: int| 0 <= j < keys.len() && keys[j] == key;
        assert(ranked.contains(ranked[j]));
        assert(sorted.contains(ranked[j]));
        let k = choose|k: int| 0 <= k < sorted.len() && sorted[k] == ranked[j];
        assert(listed[k] == key);
    }
}

proof fn lemma_layer_major_contains(
    keys: Seq<TileCacheKey>,
    order: Seq<LayerId>,
    distance: spec_fn(TileId) -> u64,
    key: TileCacheKey,
)
    ensures
        layer_major(keys, order, distance).contains(key) <==> keys.contains(key) && order.contains(
            key.layer,
        ),
    decreases order.len(),
{
    if order.len() > 0 {
        let head = order.drop_last();
        let before = layer_major(keys, head, distance);
        let row = nearest_first(keys_of_layer(keys, order.last()), distance);
        lemma_layer_major_contains(keys, head, distance, key);
        lemma_nearest_first(keys_of_layer(keys, order.last()), distance, key);
        lemma_keys_of_layer_contains(keys, order.last(), key);
        assert(head.push(order.last()) =~= order);
        seqs::lemma_push_contains(head, order.last(), key.layer);
        let all = before + row;
        if all.contains(key) {
            let k = choose|k: int| 0 <= k < all.len() && all[k] == key;
            if k < before.len() {
                assert(before[k] == key);
            } else {
                assert(row[k - before.len()] == key);
            }
        }
        if before.contains(key) {
            let k = choose|k: int| 0 <= k < before.len() && before[k] == key;
            assert(all[k] == key);
        }
        if row.contains(key) {
            let k = choose|k: int| 0 <= k < row.len() && row[k] == key;
            assert(all[before.len() + k] == key);
        }
    }
}

proof fn lemma_layer_major_len(
    keys: Seq<TileCacheKey>,
    order: Seq<LayerId>,
    distance: spec_fn(TileId) -> u64,
)
    requires
        order.no_duplicates(),
        forall|key: TileCacheKey| #[trigger] keys.contains(key) ==> order.contains(key.layer),
    ensures
        layer_major(keys, order, distance).len() == keys.len(),
    decreases keys.len(),
{
    if keys.len() == 0 {
        lemma_layer_major_of_none(keys, order, distance);
    } else {
        let head = keys.drop_last();
        assert(head.push(keys.last()) =~= keys);
        assert forall|key: TileCacheKey| #[trigger] head.contains(key) implies order.contains(
            key.layer,
        ) by {
            seqs::lemma_push_contains(head, keys.last(), key);
            assert(keys.contains(key));
        }
        lemma_layer_major_len(head, order, distance);
        seqs::lemma_push_contains(head, keys.last(), keys.last());
        assert(keys.contains(keys.last()));
        lemma_layer_major_step(head, keys.last(), order, distance);
    }
}

proof fn lemma_layer_major_of_none(
    keys: Seq<TileCacheKey>,
    order: Seq<LayerId>,
    distance: spec_fn(TileId) -> u64,
)
    requires
        keys.len() == 0,
    ensures
        layer_major(keys, order, distance).len() == 0,
    decreases order.len(),
{
    if order.len() > 0 {
        lemma_layer_major_of_none(keys, order.drop_last(), distance);
        seqs::lemma_sort_ranked(ranked_keys(keys_of_layer(keys, order.last()), distance));
    }
}

proof fn lemma_layer_major_step(
    keys: Seq<TileCacheKey>,
    key: TileCacheKey,
    order: Seq<LayerId>,
    distance: spec_fn(TileId) -> u64,
)
    requires
        order.no_duplicates(),
    ensures
        layer_major(keys.push(key), order, distance).len() == layer_major(
            keys,
            order,
            distance,
        ).len() + (if order.contains(key.layer) {
            1nat
        } else {
            0nat
        }),
    decreases order.len(),
{
    let more = keys.push(key);
    if order.len() > 0 {
        let head = order.drop_last();
        lemma_layer_major_step(keys, key, head, distance);
        assert(more.drop_last() =~= keys);
        seqs::lemma_sort_ranked(ranked_keys(keys_of_layer(keys, order.last()), distance));
        seqs::lemma_sort_ranked(ranked_keys(keys_of_layer(more, order.last()), distance));
        assert(head.push(order.last()) =~= order);
        seqs::lemma_push_contains(head, order.last(), key.layer);
        if head.contains(key.layer) {
            let k = choose|k: int| 0 <= k < head.len() && head[k] == key.layer;
            assert(order[k] != order[order.len() - 1]);
        }
    }
}

/// Putting the keys in order loses none, adds none and repeats none: whatever the distances, the
/// list has as many keys as before, and the same ones.
pub proof fn law_requests_are_only_reordered(
    keys: Seq<TileCacheKey>,
    scene_layers: Seq<LayerId>,
    distance: spec_fn(TileId) -> u64,
    key: TileCacheKey,
)
    ensures
        layer_major(keys, layer_order(keys, scene_layers), distance).len() == keys.len(),
        layer_major(keys, layer_order(keys, scene_layers), distance).contains(key)
            <==> keys.contains(key),
{
    let order = layer_order(keys, scene_layers);
    let first = seqs::distinct(scene_layers);
    let missing = queue::key_layers(keys).to_set().difference(scene_layers.to_set());
    let rest = layers::ascending(missing);
    seqs::lemma_append_new(Seq::<LayerId>::empty(), scene_layers);
    layers::lemma_ascending_exists(queue::key_layers(keys), scene_layers);
    assert forall|k: TileCacheKey| #[trigger] keys.contains(k) implies order.contains(k.layer) by {
        let i = choose|i: int| 0 <= i < keys.len() && keys[i] == k;
        assert(queue::key_layers(keys)[i] == k.layer);
        assert(queue::key_layers(keys).contains(k.layer));
        if scene_layers.contains(k.layer) {
            assert(first.contains(k.layer));
            let j = choose|j: int| 0 <= j < first.len() && first[j] == k.layer;
            assert(order[j] == k.layer);
        } else {
            assert(missing.contains(k.layer));
            assert(rest.to_set().contains(k.layer));
            let j = choose|j: int| 0 <= j < rest.len() && rest[j] == k.layer;
            assert(order[first.len() + j] == k.layer);
        }
    }
    assert forall|i: int, j: int| 0 <= i < order.len() && 0 <= j < order.len() && i
        != j implies order[i] != order[j] by {
        if i < first.len() && j < first.len() {
            assert(first[i] != first[j]);
        } else if i >= first.len() && j >= first.len() {
            let a = i - first.len();
            let b = j - first.len();
            if a < b {
                assert(layers::layer_lt(rest[a], rest[b]));
            } else {
                assert(layers::layer_lt(rest[b], rest[a]));
            }
        } else {
            let (p, q) = if i < first.len() {
                (i, j - first.len())
            } else {
                (j, i - first.len())
            };
            assert(first.contains(first[p]));
            assert(scene_layers.contains(first[p]));
            assert(rest.contains(rest[q]));
            assert(rest.to_set().contains(rest[q]));
            assert(missing.contains(rest[q]));
        }
    }
    lemma_layer_major_len(keys, order, distance);
    lemma_layer_major_contains(keys, order, distance, key);
}

} // verus!
