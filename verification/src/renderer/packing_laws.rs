//! What holds of pixels, buffers, and the work that waits.

use crate::layout::LayoutBundle;
use crate::renderer::batch;
use crate::renderer::buffers;
use crate::renderer::content;
use crate::renderer::content::TileContent;
use crate::renderer::fragments::PreparedTileFragments;
use crate::renderer::geometry::TileId;
use crate::renderer::grid::{CellSpan, TileGridIndex};
use crate::renderer::queue::{PendingTileBuild, TileCacheKey};
use crate::renderer::requests;
use crate::renderer::scissor;
use crate::renderer::scissor::ScissorRect;
use crate::renderer::tiles;
use crate::scene::{Bounds, LayerId};
use crate::seqs;
use crate::view_builder;
use crate::view_builder::{LayoutViewBuildOptions, Placing};
use vstd::prelude::*;

verus! {

/// The rectangle of pixels between edges covers just the pixels of the surface that lie between
/// them; where there is none, no pixel does.
pub proof fn law_pixels_between_edges(
    min_x: i64,
    min_y: i64,
    max_x: i64,
    max_y: i64,
    width: u32,
    height: u32,
    rect: Option<ScissorRect>,
    px: int,
    py: int,
)
    requires
        call_ensures(
            scissor::scissor_from_edges,
            (min_x, min_y, max_x, max_y, width, height),
            rect,
        ),
    ensures
        ({
            let inside = min_x <= px < max_x && min_y <= py < max_y && 0 <= px < width && 0 <= py
                < height;
            match rect {
                Some(area) => area.covers(px, py) <==> inside,
                None => !inside,
            }
        }),
{
}

/// The number of pixels of a rectangle that reaches no further than the largest pixel is its width
/// along one side and its height along the other.
pub proof fn law_pixels_of_a_rectangle(rect: ScissorRect, px: int, py: int)
    requires
        rect.x + rect.width <= u32::MAX,
        rect.y + rect.height <= u32::MAX,
    ensures
        rect.covers(px, py) <==> 0 <= px - rect.x < rect.width && 0 <= py - rect.y < rect.height,
{
}

/// Packed buffers are full but for the last, which is not empty, and hold all vertices together.
pub proof fn law_packed_buffers_are_full(vertices: nat, limit: nat, i: int)
    requires
        0 < limit <= usize::MAX,
    ensures
        ({
            let lengths = batch::packed(vertices, limit);
            &&& 0 <= i < lengths.len() - 1 ==> lengths[i] == limit
            &&& lengths.len() > 0 ==> 0 < lengths.last() <= limit
            &&& batch::total(lengths) == vertices
        }),
{
    let lengths = batch::packed(vertices, limit);
    let full = vertices / limit;
    let rest = vertices % limit;
    vstd::arithmetic::div_mod::lemma_fundamental_div_mod(vertices as int, limit as int);
    let first = Seq::new(full, |i: int| limit as usize);
    lemma_total_of_full(full, limit);
    if rest == 0 {
        assert(lengths =~= first);
    } else {
        assert(lengths =~= first.push(rest as usize));
        assert(lengths.drop_last() =~= first);
    }
    assert(limit * full == full * limit) by (nonlinear_arith);
}

proof fn lemma_total_of_full(count: nat, limit: nat)
    requires
        limit <= usize::MAX,
    ensures
        batch::total(Seq::new(count, |i: int| limit as usize)) == count * limit,
    decreases count,
{
    let all = Seq::new(count, |i: int| limit as usize);
    if count > 0 {
        lemma_total_of_full((count - 1) as nat, limit);
        assert(all.drop_last() =~= Seq::new((count - 1) as nat, |i: int| limit as usize));
        assert(count * limit == (count - 1) * limit + limit) by (nonlinear_arith);
    } else {
        assert(0 * limit == 0) by (nonlinear_arith);
    }
}

/// All buffers of a tile but the last are as full as they can be.
pub proof fn law_split_buffers_are_full(vertex_count: nat, most: nat, k: int)
    requires
        most > 0,
        0 <= k < buffers::buffer_lengths(vertex_count, most).len() - 1,
    ensures
        buffers::buffer_lengths(vertex_count, most)[k] == most,
    decreases vertex_count,
{
    if vertex_count > most {
        let rest = (vertex_count - most) as nat;
        if k > 0 {
            law_split_buffers_are_full(rest, most, k - 1);
        }
    }
}

/// The buffers of a tile hold all its vertices together, in no more buffers than are needed.
pub proof fn law_split_buffers_hold_everything(vertex_count: nat, most: nat)
    requires
        most > 0,
    ensures
        buffers::sum_of(buffers::buffer_lengths(vertex_count, most)) == vertex_count,
        (buffers::buffer_lengths(vertex_count, most).len() - 1) * most < vertex_count
            || vertex_count == 0,
    decreases vertex_count,
{
    let all = buffers::buffer_lengths(vertex_count, most);
    if vertex_count == 0 {
    } else if vertex_count <= most {
        assert(all.skip(1) =~= Seq::empty());
        reveal_with_fuel(buffers::sum_of, 2);
        assert((all.len() - 1) * most == 0) by (nonlinear_arith)
            requires
                all.len() == 1,
        ;
    } else {
        let rest = (vertex_count - most) as nat;
        law_split_buffers_hold_everything(rest, most);
        let tail = buffers::buffer_lengths(rest, most);
        assert(all.skip(1) =~= tail);
        assert((all.len() - 1) * most == (tail.len() - 1) * most + most) by (nonlinear_arith)
            requires
                all.len() == tail.len() + 1,
        ;
    }
}

/// Sums add up from the front.
pub proof fn law_sums_add_up(first: nat, rest: Seq<nat>)
    ensures
        buffers::sum_of(seq![first] + rest) == first + buffers::sum_of(rest),
        buffers::sum_of(Seq::empty()) == 0,
{
    assert((seq![first] + rest).skip(1) =~= rest);
}

/// Two keys with the same bytes are the same key, and all keys have equally many bytes.
pub proof fn law_bytes_tell_keys_apart(a: TileCacheKey, b: TileCacheKey)
    ensures
        batch::tile_key_bytes(a).len() == 38,
        batch::tile_key_bytes(a) == batch::tile_key_bytes(b) ==> a == b,
{
    vstd::bytes::lemma_auto_spec_u32_to_from_le_bytes();
    vstd::bytes::lemma_auto_spec_u64_to_from_le_bytes();
    let x = batch::tile_key_bytes(a);
    let y = batch::tile_key_bytes(b);
    if x == y {
        assert(x.subrange(0, 8) =~= vstd::bytes::spec_u64_to_le_bytes(a.scene_revision));
        assert(y.subrange(0, 8) =~= vstd::bytes::spec_u64_to_le_bytes(b.scene_revision));
        assert(x.subrange(8, 12) =~= vstd::bytes::spec_u32_to_le_bytes(a.zoom_bits));
        assert(y.subrange(8, 12) =~= vstd::bytes::spec_u32_to_le_bytes(b.zoom_bits));
        assert(x.subrange(12, 16) =~= vstd::bytes::spec_u32_to_le_bytes(a.tile_id.col as u32));
        assert(y.subrange(12, 16) =~= vstd::bytes::spec_u32_to_le_bytes(b.tile_id.col as u32));
        assert(x.subrange(16, 20) =~= vstd::bytes::spec_u32_to_le_bytes(a.tile_id.row as u32));
        assert(y.subrange(16, 20) =~= vstd::bytes::spec_u32_to_le_bytes(b.tile_id.row as u32));
        assert(x.subrange(20, 24) =~= vstd::bytes::spec_u32_to_le_bytes(a.layer.layer));
        assert(y.subrange(20, 24) =~= vstd::bytes::spec_u32_to_le_bytes(b.layer.layer));
        assert(x.subrange(24, 28) =~= vstd::bytes::spec_u32_to_le_bytes(a.layer.datatype));
        assert(y.subrange(24, 28) =~= vstd::bytes::spec_u32_to_le_bytes(b.layer.datatype));
        assert(x.subrange(28, 36) =~= vstd::bytes::spec_u64_to_le_bytes(a.hatch_signature));
        assert(y.subrange(28, 36) =~= vstd::bytes::spec_u64_to_le_bytes(b.hatch_signature));
        assert(x[36] == a.effective_mode_tag && y[36] == b.effective_mode_tag);
        assert(x[37] == a.effective_hatch_style_tag && y[37] == b.effective_hatch_style_tag);
        lemma_same_bits(a.tile_id.col, b.tile_id.col);
        lemma_same_bits(a.tile_id.row, b.tile_id.row);
    }
}

proof fn lemma_same_bits(a: i32, b: i32)
    ensures
        a as u32 == b as u32 ==> a == b,
{
    assert(a as u32 == b as u32 ==> a == b) by (bit_vector);
}

/// Two lists of keys with the same bytes are the same list: the order counts, and so does how
/// often a key is listed.
pub proof fn law_bytes_tell_lists_apart(a: Seq<TileCacheKey>, b: Seq<TileCacheKey>)
    ensures
        batch::tile_keys_bytes(a).len() == 38 * a.len(),
        batch::tile_keys_bytes(a) == batch::tile_keys_bytes(b) ==> a == b,
    decreases a.len(),
{
    let x = batch::tile_keys_bytes(a);
    let y = batch::tile_keys_bytes(b);
    lemma_bytes_len(a);
    lemma_bytes_len(b);
    if x == y && a.len() > 0 {
        let n = x.len() - 38;
        law_bytes_tell_keys_apart(a.last(), b.last());
        law_bytes_tell_keys_apart(b.last(), a.last());
        lemma_bytes_len(a.drop_last());
        lemma_bytes_len(b.drop_last());
        assert(x.subrange(0, n) =~= batch::tile_keys_bytes(a.drop_last()));
        assert(y.subrange(0, n) =~= batch::tile_keys_bytes(b.drop_last()));
        assert(x.subrange(n, n + 38) =~= batch::tile_key_bytes(a.last()));
        assert(y.subrange(n, n + 38) =~= batch::tile_key_bytes(b.last()));
        law_bytes_tell_lists_apart(a.drop_last(), b.drop_last());
        assert(a =~= a.drop_last().push(a.last()));
        assert(b =~= b.drop_last().push(b.last()));
    } else if x == y {
        assert(a =~= b);
    }
}

proof fn lemma_bytes_len(keys: Seq<TileCacheKey>)
    ensures
        batch::tile_keys_bytes(keys).len() == 38 * keys.len(),
    decreases keys.len(),
{
    if keys.len() > 0 {
        lemma_bytes_len(keys.drop_last());
        law_bytes_tell_keys_apart(keys.last(), keys.last());
    }
}

/// The tiles of a layer that wait are those of its builds, in queue order.
pub proof fn law_waiting_tiles_are_those_of_the_layer(
    pending: Seq<PendingTileBuild>,
    layer: LayerId,
)
    ensures
        seqs::made_in_order(
            pending,
            requests::waiting_tiles(pending, layer),
            |item: PendingTileBuild| item.tile_key.layer == layer,
            |item: PendingTileBuild, tile: TileId| tile == item.tile_key.tile_id,
        ),
    decreases pending.len(),
{
    let of = |item: PendingTileBuild| item.tile_key.layer == layer;
    let is = |item: PendingTileBuild, tile: TileId| tile == item.tile_key.tile_id;
    if pending.len() == 0 {
        seqs::lemma_made_of_nothing(of, is);
        assert(pending =~= Seq::empty());
    } else {
        let init = pending.drop_last();
        let last = pending.last();
        law_waiting_tiles_are_those_of_the_layer(init, layer);
        let more = if last.tile_key.layer == layer {
            seq![last.tile_key.tile_id]
        } else {
            Seq::empty()
        };
        seqs::lemma_made_in_order(
            init,
            requests::waiting_tiles(init, layer),
            last,
            more,
            of,
            is,
        );
        assert(init.push(last) =~= pending);
        assert(requests::waiting_tiles(init, layer) + more =~= requests::waiting_tiles(
            pending,
            layer,
        ));
    }
}

/// A number, no larger than the largest that is counted.
pub open spec fn at_most_largest(n: int) -> int {
    if n > usize::MAX {
        usize::MAX as int
    } else {
        n
    }
}

/// The work of a layer weighs each build once, each piece that was cut ahead four times and each
/// shape that is drawn whole twice, as far as counting goes; pieces and shapes are those of the
/// tiles that wait, each tile once.
pub proof fn law_work_is_weighed(
    layer: LayerId,
    pending: Seq<PendingTileBuild>,
    prepared: PreparedTileFragments,
    grid: TileGridIndex,
    tiles: Seq<TileId>,
)
    requires
        pending.len() <= usize::MAX,
        tiles == seqs::distinct(requests::waiting_tiles(pending, layer)),
    ensures
        ({
            let stats = requests::pending_stats(layer, pending, prepared, grid);
            &&& stats.pending_entries == requests::waiting_tiles(pending, layer).len()
            &&& stats.prepared_fragment_count == at_most_largest(
                requests::piece_total(tiles, prepared, layer) as int,
            )
            &&& stats.regular_shape_count == at_most_largest(
                requests::shape_total(tiles, grid, prepared, layer) as int,
            )
            &&& stats.estimated_work_units == at_most_largest(
                stats.pending_entries + 4 * stats.prepared_fragment_count + 2
                    * stats.regular_shape_count,
            )
        }),
{
    law_waiting_tiles_are_those_of_the_layer(pending, layer);
    seqs::lemma_no_more_is_made(
        pending,
        requests::waiting_tiles(pending, layer),
        |item: PendingTileBuild| item.tile_key.layer == layer,
        |item: PendingTileBuild, tile: TileId| tile == item.tile_key.tile_id,
    );
}

/// One more tile adds the pieces that it has on the layer, and its shapes that were not cut ahead.
pub proof fn law_tiles_add_their_work(
    tiles: Seq<TileId>,
    tile: TileId,
    grid: TileGridIndex,
    prepared: PreparedTileFragments,
    layer: LayerId,
)
    ensures
        requests::piece_total(tiles.push(tile), prepared, layer) == requests::piece_total(
            tiles,
            prepared,
            layer,
        ) + prepared.fragments(tile, layer).len(),
        requests::shape_total(tiles.push(tile), grid, prepared, layer) == requests::shape_total(
            tiles,
            grid,
            prepared,
            layer,
        ) + grid.bucket(tile, layer).filter(|s: u32| !prepared.shapes().contains(s)).len(),
        requests::piece_total(Seq::empty(), prepared, layer) == 0,
        requests::shape_total(Seq::empty(), grid, prepared, layer) == 0,
{
    crate::renderer::queue_laws::law_cut_shapes_are_not_drawn_whole(
        grid.bucket(tile, layer),
        prepared.shapes(),
        0,
    );
    assert(tiles.push(tile).drop_last() =~= tiles);
}

/// What a tile is asked for is what the view is asked for, within the box of the tile and on one
/// layer; what all tiles together are asked for has all layers, without marks for small cells.
pub proof fn law_tiles_ask_for_their_part(
    options: LayoutViewBuildOptions,
    area: Bounds,
    layer: LayerId,
)
    ensures
        ({
            let one = tiles::tile_options(options, area, layer);
            let all = content::tile_base_options(options, area);
            &&& one.root_cell_id == options.root_cell_id && all.root_cell_id
                == options.root_cell_id
            &&& one.min_hierarchy_level == options.min_hierarchy_level && all.min_hierarchy_level
                == options.min_hierarchy_level
            &&& one.max_hierarchy_level == options.max_hierarchy_level && all.max_hierarchy_level
                == options.max_hierarchy_level
            &&& one.visible_world_bounds == Some(area) && all.visible_world_bounds == Some(area)
            &&& one.layer_filter == Some(layer) && all.layer_filter is None
            &&& one.subtree_screen_lod == options.subtree_screen_lod && all.subtree_screen_lod
                is None
        }),
{
}

/// The shapes in an area are those of the view without marks that lie there; there are none where
/// the view is refused.
pub proof fn law_shapes_in_an_area(
    bundle: LayoutBundle,
    options: LayoutViewBuildOptions,
    area: Option<Bounds>,
    d: Placing,
    within: LayoutViewBuildOptions,
)
    requires
        within.root_cell_id == options.root_cell_id,
        within.min_hierarchy_level == options.min_hierarchy_level,
        within.max_hierarchy_level == options.max_hierarchy_level,
        within.layer_filter == options.layer_filter,
        within.visible_world_bounds == area,
        within.subtree_screen_lod is None,
    ensures
        ({
            let shapes = requests::shapes_in_area(bundle, options, area, d);
            let refused = options.min_hierarchy_level > options.max_hierarchy_level
                || !bundle.has(options.root_cell_id);
            &&& refused ==> shapes.len() == 0
            &&& !refused ==> shapes == view_builder::view_contribution(bundle, within, d)
        }),
{
    let limited = LayoutViewBuildOptions { visible_world_bounds: area, ..options };
    assert(within == (LayoutViewBuildOptions { subtree_screen_lod: None, ..limited }));
}

/// A layer is found in a tile of the grid just where one of the shapes of the layer takes the tile
/// in.
pub proof fn law_layers_of_a_tile(
    shapes: Seq<view_builder::ViewShapeModel>,
    grid: TileGridIndex,
    spans: spec_fn(Bounds) -> CellSpan,
    tile: TileId,
    layer: LayerId,
)
    ensures
        ({
            let found = requests::layers_in_tile(shapes, grid, spans, tile);
            let takes_in = |shape: view_builder::ViewShapeModel|
                shape.layer == layer && crate::renderer::grid::covers(
                    spans(shape.bounds),
                    grid.side(),
                    grid.side(),
                    tile,
                );
            &&& found.contains(layer) ==> grid.has(tile) && shapes.filter(takes_in).len() > 0
            &&& grid.has(tile) && shapes.filter(takes_in).len() > 0 ==> found.contains(layer)
        }),
{
    let takes_in = |shape: view_builder::ViewShapeModel|
        shape.layer == layer && crate::renderer::grid::covers(
            spans(shape.bounds),
            grid.side(),
            grid.side(),
            tile,
        );
    let kept = shapes.filter(takes_in);
    if requests::layers_in_tile(shapes, grid, spans, tile).contains(layer) {
        let k = choose|k: int|
            0 <= k < shapes.len() && (#[trigger] shapes[k]).layer == layer
                && crate::renderer::grid::covers(
                spans(shapes[k].bounds),
                grid.side(),
                grid.side(),
                tile,
            );
        assert(shapes.contains(shapes[k]));
        seqs::lemma_filter_contains(shapes, takes_in, shapes[k]);
    }
    if kept.len() > 0 {
        let x = kept[0];
        assert(kept.contains(x));
        seqs::lemma_filter_contains(shapes, takes_in, x);
        let k = choose|k: int| 0 <= k < shapes.len() && shapes[k] == x;
        assert(shapes[k].layer == layer);
    }
}

/// The search for visible shapes reports how many it came across; none is made in a layout, which
/// is drawn tile by tile, and has as many shapes as were estimated.
pub proof fn law_search_reports_what_it_found(
    content: TileContent,
    visible_world: Bounds,
    area: CellSpan,
    visible_tiles: nat,
)
    requires
        content.scene@.len() <= usize::MAX,
        visible_tiles <= usize::MAX,
        content.index.candidates(area, content.scene@.len()).len() <= usize::MAX,
        content.index.hits(area).len() <= usize::MAX,
    ensures
        ({
            let found = content.search(visible_world, area, visible_tiles);
            &&& found.visible_tiles == visible_tiles
            &&& content.hierarchy is Some ==> found.candidate_shapes == 0 && found.visible_shapes
                == 0 && found.bucket_hits == 0
            &&& content.hierarchy is None ==> found.candidate_shapes == content.index.candidates(
                area,
                content.scene@.len(),
            ).len() && found.bucket_hits == content.index.hits(area).len() && found.visible_shapes
                <= found.candidate_shapes
            &&& content.hierarchy is None ==> content.shape_count() == content.scene@.len()
            &&& content.hierarchy matches Some(layout) ==> content.shape_count()
                == layout.total_shape_estimate && content.drawing_order() == layout.layer_ids@
        }),
{
    lemma_fewer_visible(content, visible_world, area, content.scene@.len());
}

proof fn lemma_fewer_visible(
    content: TileContent,
    visible_world: Bounds,
    area: CellSpan,
    count: nat,
)
    ensures
        content.index.visible(*content.scene, visible_world, area, count).len()
            <= content.index.candidates(area, count).len(),
    decreases count,
{
    if count > 0 {
        lemma_fewer_visible(content, visible_world, area, (count - 1) as nat);
    }
}

} // verus!
