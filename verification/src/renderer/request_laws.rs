//! What holds of tiles, of the entries that a view asks for, and of their order.

use crate::layers;
use crate::renderer::fragments::PreparedTileFragments;
use crate::renderer::geometry::{ClosedShapeDrawMode, HatchStylePreset, TileId};
use crate::renderer::grid;
use crate::renderer::grid::{CellSpan, ShapeSpatialIndex, TileGridIndex};
use crate::renderer::queue;
use crate::renderer::queue::TileCacheKey;
use crate::renderer::queue_laws;
use crate::renderer::requests;
use crate::renderer::requests::{TileHint, TileLook};
use crate::renderer::table;
use crate::scene;
use crate::scene::{Bounds, LayerId, Scene};
use crate::seqs;
use vstd::prelude::*;

verus! {

/// A span takes in the tiles from its first to its last column and row, as far as the grid goes;
/// one that lies off the grid takes in those at that edge of it.
pub proof fn law_spans_take_in_tiles(span: CellSpan, cols: i32, rows: i32, tile: TileId)
    requires
        0 <= tile.col < cols,
        0 <= tile.row < rows,
        span.min_col <= span.max_col,
        span.min_row <= span.max_row,
    ensures
        grid::covers(span, cols, rows, tile) <==> (span.min_col <= tile.col || tile.col == cols - 1)
            && (tile.col <= span.max_col || tile.col == 0) && (span.min_row <= tile.row || tile.row
            == rows - 1) && (tile.row <= span.max_row || tile.row == 0),
{
}

/// The shapes of a tile and layer are those of the layer whose span takes the tile in, each once
/// and in scene order.
pub proof fn law_tiles_hold_their_shapes(
    layer_of: Seq<LayerId>,
    spans: Seq<CellSpan>,
    cols: i32,
    rows: i32,
    tile: TileId,
    layer: LayerId,
    shape: u32,
    i: int,
    j: int,
)
    requires
        layer_of.len() == spans.len(),
        spans.len() <= u32::MAX,
    ensures
        ({
            let bucket = grid::tile_bucket(
                layer_of,
                spans,
                spans.len(),
                cols,
                rows,
                tile,
                layer,
            );
            &&& bucket.contains(shape) <==> shape < spans.len() && layer_of[shape as int] == layer
                && grid::covers(spans[shape as int], cols, rows, tile)
            &&& 0 <= i < j < bucket.len() ==> bucket[i] < bucket[j]
        }),
{
    grid::lemma_tile_bucket(layer_of, spans, spans.len(), cols, rows, tile, layer);
}

/// The search gives the shapes in scene order, each once: those that a cell of the area holds, and
/// of them as visible those whose box meets the visible area.
pub proof fn law_search_keeps_scene_order(
    index: ShapeSpatialIndex,
    scene: Scene,
    visible: Bounds,
    area: CellSpan,
    count: nat,
    shape: usize,
    i: int,
    j: int,
)
    requires
        count <= usize::MAX,
    ensures
        ({
            let near = index.candidates(area, count);
            let shown = index.visible(scene, visible, area, count);
            &&& near.contains(shape) <==> shape < count && index.is_candidate(area, shape as int)
            &&& shown.contains(shape) <==> near.contains(shape) && scene::bounds_meet(
                scene@[shape as int].bounds,
                visible,
            )
            &&& 0 <= i < j < near.len() ==> near[i] < near[j]
            &&& 0 <= i < j < shown.len() ==> shown[i] < shown[j]
        }),
{
    lemma_search(index, scene, visible, area, count);
}

proof fn lemma_search(
    index: ShapeSpatialIndex,
    scene: Scene,
    visible: Bounds,
    area: CellSpan,
    count: nat,
)
    requires
        count <= usize::MAX,
    ensures
        ({
            let near = index.candidates(area, count);
            let shown = index.visible(scene, visible, area, count);
            &&& forall|shape: usize| #[trigger]
                near.contains(shape) <==> shape < count && index.is_candidate(area, shape as int)
            &&& forall|shape: usize| #[trigger]
                shown.contains(shape) <==> shape < count && index.is_candidate(area, shape as int)
                    && scene::bounds_meet(scene@[shape as int].bounds, visible)
            &&& forall|i: int, j: int|
                0 <= i < j < near.len() ==> (#[trigger] near[i]) < (#[trigger] near[j])
            &&& forall|i: int, j: int|
                0 <= i < j < shown.len() ==> (#[trigger] shown[i]) < (#[trigger] shown[j])
        }),
    decreases count,
{
    if count > 0 {
        let c = (count - 1) as nat;
        let last = c as usize;
        lemma_search(index, scene, visible, area, c);
        let old_near = index.candidates(area, c);
        let old_shown = index.visible(scene, visible, area, c);
        let near = index.candidates(area, count);
        let shown = index.visible(scene, visible, area, count);
        assert forall|shape: usize| #[trigger] near.contains(shape) <==> shape < count
            && index.is_candidate(area, shape as int) by {
            seqs::lemma_push_contains(old_near, last, shape);
            assert(old_near.contains(shape) <==> shape < c && index.is_candidate(
                area,
                shape as int,
            ));
        }
        assert forall|shape: usize| #[trigger] shown.contains(shape) <==> shape < count
            && index.is_candidate(area, shape as int) && scene::bounds_meet(
            scene@[shape as int].bounds,
            visible,
        ) by {
            seqs::lemma_push_contains(old_shown, last, shape);
            assert(old_shown.contains(shape) <==> shape < c && index.is_candidate(
                area,
                shape as int,
            ) && scene::bounds_meet(scene@[shape as int].bounds, visible));
        }
        assert forall|i: int, j: int| 0 <= i < j < near.len() implies (#[trigger] near[i]) < (
        #[trigger] near[j]) by {
            if j < old_near.len() {
                assert(old_near[i] < old_near[j]);
            } else {
                assert(old_near.contains(old_near[i]));
            }
        }
        assert forall|i: int, j: int| 0 <= i < j < shown.len() implies (#[trigger] shown[i]) < (
        #[trigger] shown[j]) by {
            if j < old_shown.len() {
                assert(old_shown[i] < old_shown[j]);
            } else {
                assert(old_shown.contains(old_shown[i]));
            }
        }
    }
}

/// The side of a grid without shapes is that which is asked for, between one and thirty-two.
pub proof fn law_side_of_an_empty_grid(divisions: u32)
    ensures
        1 <= grid::area_side(divisions) <= 32,
        1 <= divisions <= 32 ==> grid::area_side(divisions) == divisions,
        divisions == 0 ==> grid::area_side(divisions) == 1,
        divisions > 32 ==> grid::area_side(divisions) == 32,
{
}

/// The side of the shape grid is the least that gives each shape a cell, within the limit; there is
/// only one such side.
pub proof fn law_one_side_fits(a: i32, b: i32, count: nat)
    requires
        grid::is_grid_side(a, count),
        grid::is_grid_side(b, count),
    ensures
        a == b,
        a * a < count ==> a == grid::MAX_SHAPE_GRID_SIDE,
{
    if a < b {
        lemma_squares(a as int, b - 1);
    }
    if b < a {
        lemma_squares(b as int, a - 1);
    }
}

proof fn lemma_squares(a: int, b: int)
    requires
        0 <= a <= b,
    ensures
        a * a <= b * b,
{
    assert(a * a <= b * b) by (nonlinear_arith)
        requires
            0 <= a <= b,
    ;
}

/// A grid has the tiles from the first to the last column and row.
pub proof fn law_tiles_on_a_grid(tile: TileId, cols: i32, rows: i32)
    ensures
        table::on_grid(tile, cols, rows) <==> tile.col >= 0 && tile.row >= 0 && tile.col <= cols - 1
            && tile.row <= rows - 1,
{
}

/// The index of a scene has just the tiles of the grid that the span of some shape takes in.
pub proof fn law_indexed_tiles_hold_shapes(
    index: TileGridIndex,
    scene: Scene,
    spans: Seq<CellSpan>,
    side: i32,
    tile: TileId,
)
    requires
        index.indexes(scene, spans, side),
        spans.len() == scene@.len(),
        spans.len() <= u32::MAX,
        0 <= tile.col < side,
        0 <= tile.row < side,
    ensures
        index.has(tile) <==> exists|i: int|
            0 <= i < spans.len() && #[trigger] grid::covers(spans[i], side, side, tile),
{
    let layer_of = scene::shape_layers(scene@);
    if exists|i: int| 0 <= i < spans.len() && #[trigger] grid::covers(spans[i], side, side, tile) {
        let i = choose|i: int|
            0 <= i < spans.len() && #[trigger] grid::covers(spans[i], side, side, tile);
        let layer = layer_of[i];
        grid::lemma_tile_bucket(layer_of, spans, spans.len(), side, side, tile, layer);
        assert(layer_of[i as u32 as int] == layer);
        assert(index.bucket(tile, layer).contains(i as u32));
        assert(index.layers(tile).contains(layer));
        assert(index.layers(tile).len() > 0);
    }
    if index.has(tile) {
        let layer = index.layers(tile)[0];
        assert(index.layers(tile).contains(layer));
        assert(index.bucket(tile, layer).len() > 0);
        let shape = index.bucket(tile, layer)[0];
        grid::lemma_tile_bucket(layer_of, spans, spans.len(), side, side, tile, layer);
        assert(index.bucket(tile, layer).contains(shape));
        assert(grid::covers(spans[shape as int], side, side, tile));
    }
}

/// Tiles of a grid have different places in the list of tiles, and none stands beyond its end.
pub proof fn law_tiles_have_places_of_their_own(a: TileId, b: TileId, cols: i32, rows: i32)
    requires
        table::on_grid(a, cols, rows),
        table::on_grid(b, cols, rows),
    ensures
        0 <= table::flat_index(a, rows) < cols * rows,
        table::flat_index(a, rows) == table::flat_index(b, rows) ==> a == b,
        a.col < b.col || (a.col == b.col && a.row < b.row) ==> table::flat_index(a, rows)
            < table::flat_index(b, rows),
{
    let x = a.col as int;
    let y = b.col as int;
    let r = rows as int;
    assert(0 <= x * r && x * r + r <= cols * r) by (nonlinear_arith)
        requires
            0 <= x < cols,
            r > 0,
    ;
    assert(x < y ==> x * r + r <= y * r) by (nonlinear_arith)
        requires
            r > 0,
    ;
    assert(y < x ==> y * r + r <= x * r) by (nonlinear_arith)
        requires
            r > 0,
    ;
}

/// A search comes across the shapes whose spans share a cell with the area, and across the cells
/// of the area that some span takes in.
pub proof fn law_search_finds_shared_cells(
    index: ShapeSpatialIndex,
    spans: Seq<CellSpan>,
    area: CellSpan,
    i: int,
    cell: TileId,
)
    requires
        index.indexes(spans),
        spans.len() <= u32::MAX,
        0 <= i < spans.len(),
    ensures
        ({
            let side = index.side();
            let shared = |c: TileId|
                grid::covers(spans[i], side, side, c) && grid::covers(area, side, side, c);
            &&& shared(cell) ==> index.is_candidate(area, i)
            &&& index.is_candidate(area, i) ==> exists|c: TileId|
                #![trigger grid::covers(area, side, side, c)]
                shared(c)
            &&& shared(cell) ==> index.hits(area).contains(cell)
            &&& index.hits(area).contains(cell) ==> grid::covers(area, side, side, cell) && exists|
                k: int,
            | 0 <= k < spans.len() && #[trigger] grid::covers(spans[k], side, side, cell)
        }),
{
    let side = index.side();
    assert(spans[i as u32 as int] == spans[i]);
    if grid::covers(spans[i], side, side, cell) && grid::covers(area, side, side, cell) {
        assert(index.cell(cell).contains(i as u32));
        assert(index.cell(cell).len() > 0);
    }
    if index.is_candidate(area, i) {
        let c = choose|c: TileId| #[trigger]
            index.cell(c).contains(i as u32) && grid::covers(area, index.side(), index.side(), c);
        assert(grid::covers(spans[i], side, side, c));
    }
    if index.hits(area).contains(cell) {
        let k = index.cell(cell)[0];
        assert(index.cell(cell).contains(k));
        assert(grid::covers(spans[k as int], side, side, cell));
    }
}

/// The key of an entry holds its tile and layer, the revision, zoom and hatch of the view, and how
/// its layer is drawn: in its own way where it has one, else in the common way.
pub proof fn law_keys_tell_what_is_drawn(
    look: TileLook,
    modes: Map<LayerId, ClosedShapeDrawMode>,
    styles: Map<LayerId, HatchStylePreset>,
    tile: TileId,
    layer: LayerId,
)
    ensures
        ({
            let key = requests::key_for(look, modes, styles, tile, layer);
            &&& key.tile_id == tile
            &&& key.layer == layer
            &&& key.scene_revision == look.scene_revision
            &&& key.zoom_bits == look.zoom_bits
            &&& key.hatch_signature == look.hatch_signature
            &&& modes.dom().contains(layer) ==> key.effective_mode_tag == modes[layer].tag()
            &&& !modes.dom().contains(layer) ==> key.effective_mode_tag == look.draw_mode.tag()
            &&& styles.dom().contains(layer) ==> key.effective_hatch_style_tag
                == styles[layer].tag()
            &&& !styles.dom().contains(layer) ==> key.effective_hatch_style_tag
                == look.hatch_style.tag()
        }),
{
}

/// Whether a tile of a scene has something to draw on a layer that is not hidden: a shape that was
/// not cut ahead of drawing, or a piece of one that was.
pub open spec fn has_something(
    grid: TileGridIndex,
    prepared: PreparedTileFragments,
    hidden: Set<LayerId>,
    tile: TileId,
    layer: LayerId,
) -> bool {
    !hidden.contains(layer) && (prepared.fragments(tile, layer).len() > 0 || exists|k: int|
        0 <= k < grid.bucket(tile, layer).len() && !prepared.shapes().contains(
            #[trigger] grid.bucket(tile, layer)[k],
        ))
}

/// The layers that a tile of a scene has something to draw on.
pub open spec fn drawn_layers(
    grid: TileGridIndex,
    prepared: PreparedTileFragments,
    hidden: Set<LayerId>,
    tile: TileId,
) -> Set<LayerId> {
    Set::new(|layer: LayerId| has_something(grid, prepared, hidden, tile, layer))
}

/// A view of a scene asks for an entry for every tile and every layer that the tile has something
/// to draw on, and for nothing else.
pub proof fn law_scenes_ask_for_what_they_draw(
    tiles: Seq<TileId>,
    grid: TileGridIndex,
    prepared: PreparedTileFragments,
    hidden: Set<LayerId>,
    look: TileLook,
    modes: Map<LayerId, ClosedShapeDrawMode>,
    styles: Map<LayerId, HatchStylePreset>,
    key: TileCacheKey,
)
    requires
        forall|k: int|
            0 <= k < tiles.len() ==> drawn_layers(
                grid,
                prepared,
                hidden,
                #[trigger] tiles[k],
            ).finite(),
    ensures
        requests::scene_keys(tiles, grid, prepared, hidden, look, modes, styles).contains(key)
            <==> tiles.contains(key.tile_id) && has_something(
            grid,
            prepared,
            hidden,
            key.tile_id,
            key.layer,
        ) && key == requests::key_for(look, modes, styles, key.tile_id, key.layer),
    decreases tiles.len(),
{
    let all = requests::scene_keys(tiles, grid, prepared, hidden, look, modes, styles);
    if tiles.len() > 0 {
        let init = tiles.drop_last();
        let last = tiles.last();
        assert forall|k: int| 0 <= k < init.len() implies drawn_layers(
            grid,
            prepared,
            hidden,
            #[trigger] init[k],
        ).finite() by {
            assert(init[k] == tiles[k]);
        }
        law_scenes_ask_for_what_they_draw(
            init,
            grid,
            prepared,
            hidden,
            look,
            modes,
            styles,
            key,
        );
        let wanted = Set::new(
            |layer: LayerId| requests::scene_wants(grid, prepared, hidden, last, layer),
        );
        assert(tiles[tiles.len() - 1] == last);
        assert(wanted =~= drawn_layers(grid, prepared, hidden, last)) by {
            assert forall|layer: LayerId| wanted.contains(layer) <==> drawn_layers(
                grid,
                prepared,
                hidden,
                last,
            ).contains(layer) by {
                assert(requests::scene_wants(grid, prepared, hidden, last, layer)
                    <==> has_something(grid, prepared, hidden, last, layer));
            }
        }
        lemma_tile_keys(look, modes, styles, last, wanted, key);
        lemma_tiles_push(tiles, key.tile_id);
        let before = requests::scene_keys(init, grid, prepared, hidden, look, modes, styles);
        let more = requests::tile_keys(look, modes, styles, last, wanted);
        lemma_add_contains(before, more, key);
    }
}

proof fn lemma_add_contains<A>(a: Seq<A>, b: Seq<A>, x: A)
    ensures
        (a + b).contains(x) <==> a.contains(x) || b.contains(x),
{
    if a.contains(x) {
        let k = choose|k: int| 0 <= k < a.len() && a[k] == x;
        assert((a + b)[k] == x);
    }
    if b.contains(x) {
        let k = choose|k: int| 0 <= k < b.len() && b[k] == x;
        assert((a + b)[a.len() + k] == x);
    }
    if (a + b).contains(x) {
        let k = choose|k: int| 0 <= k < (a + b).len() && (a + b)[k] == x;
        if k < a.len() {
            assert(a[k] == x);
        } else {
            assert(b[k - a.len()] == x);
        }
    }
}

proof fn lemma_tiles_push(tiles: Seq<TileId>, tile: TileId)
    requires
        tiles.len() > 0,
    ensures
        tiles.contains(tile) <==> tiles.drop_last().contains(tile) || tile == tiles.last(),
{
    assert(tiles.drop_last().push(tiles.last()) =~= tiles);
    seqs::lemma_push_contains(tiles.drop_last(), tiles.last(), tile);
}

proof fn lemma_tile_keys(
    look: TileLook,
    modes: Map<LayerId, ClosedShapeDrawMode>,
    styles: Map<LayerId, HatchStylePreset>,
    tile: TileId,
    wanted: Set<LayerId>,
    key: TileCacheKey,
)
    requires
        wanted.finite(),
    ensures
        requests::tile_keys(look, modes, styles, tile, wanted).contains(key) <==> key.tile_id
            == tile && wanted.contains(key.layer) && key == requests::key_for(
            look,
            modes,
            styles,
            key.tile_id,
            key.layer,
        ),
{
    let ids = layers::ascending(wanted);
    let found = wanted.to_seq();
    wanted.lemma_to_seq_to_set_id();
    layers::lemma_ascending_exists(found, Seq::empty());
    assert(found.to_set().difference(Seq::<LayerId>::empty().to_set()) =~= wanted);
    assert(ids.to_set() == wanted);
    let keys = requests::tile_keys(look, modes, styles, tile, wanted);
    if keys.contains(key) {
        let k = choose|k: int| 0 <= k < keys.len() && keys[k] == key;
        assert(ids.to_set().contains(ids[k]));
    }
    if key.tile_id == tile && wanted.contains(key.layer) {
        assert(ids.to_set().contains(key.layer));
        let k = choose|k: int| 0 <= k < ids.len() && ids[k] == key.layer;
        assert(keys[k] == requests::key_for(look, modes, styles, tile, key.layer));
    }
}

/// Whether the first hint for the tile names the layer.
pub open spec fn is_hinted(hints: Seq<TileHint>, tile: TileId, layer: LayerId) -> bool {
    exists|k: int|
        0 <= k < hints.len() && (#[trigger] hints[k]).tile == tile && hints[k].layers@.contains(layer)
            && forall|j: int| 0 <= j < k ==> (#[trigger] hints[j]).tile != tile
}

proof fn lemma_hinted(hints: Seq<TileHint>, tile: TileId, layer: LayerId)
    ensures
        requests::hinted_layers(hints, tile).contains(layer) <==> is_hinted(hints, tile, layer),
    decreases hints.len(),
{
    if hints.len() > 0 {
        let rest = hints.skip(1);
        lemma_hinted(rest, tile, layer);
        if hints[0].tile != tile {
            if is_hinted(rest, tile, layer) {
                let k = choose|k: int|
                    0 <= k < rest.len() && (#[trigger] rest[k]).tile == tile
                        && rest[k].layers@.contains(layer) && forall|j: int|
                        0 <= j < k ==> (#[trigger] rest[j]).tile != tile;
                assert(hints[k + 1] == rest[k]);
                assert forall|j: int| 0 <= j < k + 1 implies (#[trigger] hints[j]).tile != tile by {
                    if j > 0 {
                        assert(rest[j - 1] == hints[j]);
                    }
                }
            }
            if is_hinted(hints, tile, layer) {
                let k = choose|k: int|
                    0 <= k < hints.len() && (#[trigger] hints[k]).tile == tile
                        && hints[k].layers@.contains(layer) && forall|j: int|
                        0 <= j < k ==> (#[trigger] hints[j]).tile != tile;
                assert(rest[k - 1] == hints[k]);
                assert forall|j: int| 0 <= j < k - 1 implies (#[trigger] rest[j]).tile != tile by {
                    assert(rest[j] == hints[j + 1]);
                }
            }
        } else {
            if is_hinted(hints, tile, layer) {
                let k = choose|k: int|
                    0 <= k < hints.len() && (#[trigger] hints[k]).tile == tile
                        && hints[k].layers@.contains(layer) && forall|j: int|
                        0 <= j < k ==> (#[trigger] hints[j]).tile != tile;
                assert(k == 0) by {
                    if k > 0 {
                        assert(hints[0].tile != tile);
                    }
                }
            }
            if hints[0].layers@.contains(layer) {
                assert(hints[0].tile == tile);
            }
        }
    }
}

/// A view of a layout asks for an entry for every tile and every layer that the tile's hint names
/// and that is not hidden, and for nothing else.
pub proof fn law_layouts_ask_for_what_is_hinted(
    tiles: Seq<TileId>,
    hints: Seq<TileHint>,
    hidden: Set<LayerId>,
    look: TileLook,
    modes: Map<LayerId, ClosedShapeDrawMode>,
    styles: Map<LayerId, HatchStylePreset>,
    key: TileCacheKey,
)
    ensures
        requests::hinted_keys(tiles, hints, hidden, look, modes, styles).contains(key)
            <==> tiles.contains(key.tile_id) && is_hinted(hints, key.tile_id, key.layer)
            && !hidden.contains(key.layer) && key == requests::key_for(
            look,
            modes,
            styles,
            key.tile_id,
            key.layer,
        ),
    decreases tiles.len(),
{
    if tiles.len() > 0 {
        let init = tiles.drop_last();
        let last = tiles.last();
        law_layouts_ask_for_what_is_hinted(init, hints, hidden, look, modes, styles, key);
        let named = requests::hinted_layers(hints, last);
        let wanted = named.to_set().difference(hidden);
        vstd::seq_lib::seq_to_set_is_finite(named);
        lemma_tile_keys(look, modes, styles, last, wanted, key);
        lemma_hinted(hints, last, key.layer);
        lemma_tiles_push(tiles, key.tile_id);
        lemma_add_contains(
            requests::hinted_keys(init, hints, hidden, look, modes, styles),
            requests::tile_keys(look, modes, styles, last, wanted),
            key,
        );
    }
}

/// Whether one key is asked for before another: its layer comes first, or, within a layer, its tile
/// is no farther.
pub open spec fn goes_first(
    scene_layers: Seq<LayerId>,
    distance: spec_fn(TileId) -> u64,
    a: TileCacheKey,
    b: TileCacheKey,
) -> bool {
    if a.layer == b.layer {
        distance(a.tile_id) <= distance(b.tile_id)
    } else if scene_layers.contains(a.layer) || scene_layers.contains(b.layer) {
        scene_layers.contains(a.layer) && (scene_layers.contains(b.layer)
            ==> queue_laws::turns_up_before(scene_layers, a.layer, b.layer))
    } else {
        a.layer.layer < b.layer.layer || (a.layer.layer == b.layer.layer && a.layer.datatype
            < b.layer.datatype)
    }
}

/// Entries are asked for layer by layer, in the order in which the layers are drawn and then that
/// of their numbers, and within a layer from the nearest tile on.
pub proof fn law_nearest_tiles_come_first(
    keys: Seq<TileCacheKey>,
    scene_layers: Seq<LayerId>,
    distance: spec_fn(TileId) -> u64,
    i: int,
    j: int,
)
    requires
        0 <= i < j < requests::layer_major(
            keys,
            requests::layer_order(keys, scene_layers),
            distance,
        ).len(),
    ensures
        ({
            let all = requests::layer_major(
                keys,
                requests::layer_order(keys, scene_layers),
                distance,
            );
            goes_first(scene_layers, distance, all[i], all[j])
        }),
{
    let order = requests::layer_order(keys, scene_layers);
    let all = requests::layer_major(keys, order, distance);
    let (x, y) = lemma_layer_major_order(keys, order, distance, i, j);
    if x < y {
        let first = seqs::distinct(scene_layers);
        let missing = queue::key_layers(keys).to_set().difference(scene_layers.to_set());
        let rest = layers::ascending(missing);
        seqs::lemma_append_new(Seq::<LayerId>::empty(), scene_layers);
        layers::lemma_ascending_exists(queue::key_layers(keys), scene_layers);
        let a = order[x];
        let b = order[y];
        if y < first.len() {
            assert(first[x] == a && first[y] == b);
            assert(first.contains(a) && first.contains(b));
            queue_laws::lemma_distinct_order(scene_layers, x, y);
        } else {
            let m = y - first.len();
            assert(rest[m] == b);
            assert(rest.to_set().contains(b));
            assert(!scene_layers.contains(b));
            if x < first.len() {
                assert(first[x] == a);
                assert(first.contains(a));
            } else {
                assert(rest[x - first.len()] == a);
                assert(rest.to_set().contains(a));
                assert(layers::layer_lt(rest[x - first.len()], rest[m]));
            }
        }
    }
}

proof fn lemma_layer_major_order(
    keys: Seq<TileCacheKey>,
    order: Seq<LayerId>,
    distance: spec_fn(TileId) -> u64,
    i: int,
    j: int,
) -> (at: (int, int))
    requires
        0 <= i < j < requests::layer_major(keys, order, distance).len(),
    ensures
        ({
            let all = requests::layer_major(keys, order, distance);
            &&& 0 <= at.0 <= at.1 < order.len()
            &&& all[i].layer == order[at.0]
            &&& all[j].layer == order[at.1]
            &&& at.0 == at.1 ==> distance(all[i].tile_id) <= distance(all[j].tile_id)
        }),
    decreases order.len(),
{
    let all = requests::layer_major(keys, order, distance);
    if order.len() == 0 {
        (0, 0)
    } else {
        let init = order.drop_last();
        let last = order.last();
        let head = requests::layer_major(keys, init, distance);
        let own = requests::keys_of_layer(keys, last);
        let tail = requests::nearest_first(own, distance);
        if j < head.len() {
            let at = lemma_layer_major_order(keys, init, distance, i, j);
            assert(all[i] == head[i] && all[j] == head[j]);
            assert(init[at.0] == order[at.0] && init[at.1] == order[at.1]);
            at
        } else {
            lemma_nearest(keys, last, distance, j - head.len());
            let y = order.len() - 1;
            if i < head.len() {
                let x = lemma_layer_of(keys, init, distance, i);
                assert(all[i] == head[i]);
                assert(init[x] == order[x]);
                (x, y)
            } else {
                lemma_nearest(keys, last, distance, i - head.len());
                let ranked = requests::ranked_keys(own, distance);
                let sorted = seqs::sort_ranked(ranked);
                seqs::lemma_sort_ranked(ranked);
                let p = i - head.len();
                let q = j - head.len();
                assert(sorted[p].0 <= sorted[q].0);
                (y, y)
            }
        }
    }
}

proof fn lemma_layer_of(
    keys: Seq<TileCacheKey>,
    order: Seq<LayerId>,
    distance: spec_fn(TileId) -> u64,
    i: int,
) -> (x: int)
    requires
        0 <= i < requests::layer_major(keys, order, distance).len(),
    ensures
        0 <= x < order.len(),
        requests::layer_major(keys, order, distance)[i].layer == order[x],
    decreases order.len(),
{
    let all = requests::layer_major(keys, order, distance);
    if order.len() == 0 {
        0
    } else {
        let init = order.drop_last();
        let head = requests::layer_major(keys, init, distance);
        if i < head.len() {
            let x = lemma_layer_of(keys, init, distance, i);
            assert(all[i] == head[i]);
            x
        } else {
            lemma_nearest(keys, order.last(), distance, i - head.len());
            order.len() - 1
        }
    }
}

proof fn lemma_nearest(
    keys: Seq<TileCacheKey>,
    layer: LayerId,
    distance: spec_fn(TileId) -> u64,
    k: int,
)
    requires
        0 <= k < requests::nearest_first(requests::keys_of_layer(keys, layer), distance).len(),
    ensures
        ({
            let own = requests::keys_of_layer(keys, layer);
            let sorted = seqs::sort_ranked(requests::ranked_keys(own, distance));
            &&& requests::nearest_first(own, distance)[k].layer == layer
            &&& sorted[k].1 == requests::nearest_first(own, distance)[k]
            &&& sorted[k].0 == distance(sorted[k].1.tile_id)
        }),
{
    let own = requests::keys_of_layer(keys, layer);
    let ranked = requests::ranked_keys(own, distance);
    let sorted = seqs::sort_ranked(ranked);
    seqs::lemma_sort_ranked(ranked);
    assert(sorted.contains(sorted[k]));
    assert(ranked.contains(sorted[k]));
    let m = choose|m: int| 0 <= m < ranked.len() && ranked[m] == sorted[k];
    lemma_own_layer(keys, layer, m);
}

proof fn lemma_own_layer(keys: Seq<TileCacheKey>, layer: LayerId, m: int)
    requires
        0 <= m < requests::keys_of_layer(keys, layer).len(),
    ensures
        requests::keys_of_layer(keys, layer)[m].layer == layer,
    decreases keys.len(),
{
    if keys.len() > 0 {
        let rest = requests::keys_of_layer(keys.drop_last(), layer);
        if m < rest.len() {
            lemma_own_layer(keys.drop_last(), layer, m);
        }
    }
}

} // verus!
