//! What holds of the entries that a frame asks for, gives up and drops.

use crate::renderer::content::TileContent;
use crate::renderer::fragments::PreparedTileFragments;
use crate::renderer::geometry;
use crate::renderer::geometry::TileId;
use crate::renderer::grid;
use crate::renderer::grid::{CellSpan, TileGridIndex};
use crate::renderer::queue;
use crate::renderer::queue::TileCacheKey;
use crate::renderer::requests;
use crate::renderer::schedule;
use crate::renderer::schedule::frame;
use crate::renderer::schedule::laws;
use crate::renderer::schedule::refresh;
use crate::renderer::schedule::refresh::FrameSight;
use crate::renderer::schedule::work_laws;
use crate::renderer::schedule::{BuiltTile, CachedTile, ScheduleModel};
use crate::renderer::ActiveLayerProgressMode;
use crate::scene::LayerId;
use crate::seqs;
use vstd::prelude::*;

verus! {

/// The visible tiles are those of the grid that the span takes in, each once, column by column.
pub proof fn law_visible_tiles_are_taken_in(
    index: TileGridIndex,
    span: CellSpan,
    tile: TileId,
    i: int,
    j: int,
)
    ensures
        ({
            let tiles = grid::visible_tiles(index, span);
            &&& tiles.contains(tile) <==> index.has(tile) && grid::covers(
                span,
                index.side(),
                index.side(),
                tile,
            )
            &&& 0 <= i < j < tiles.len() ==> tiles[i].col < tiles[j].col || (tiles[i].col
                == tiles[j].col && tiles[i].row < tiles[j].row)
        }),
{
    let tiles = grid::visible_tiles(index, span);
    grid::law_tiles_of_a_span(index, span);
    assert(grid::are_visible_tiles(index.tiles_in(span), index, span));
    assert(grid::are_visible_tiles(tiles, index, span));
}

/// A frame of a new view asks for the entries that its visible tiles want, and for no others,
/// however it was come by; a frame of the same view goes on asking for what it asked for.
pub proof fn law_frames_ask_for_their_tiles(
    m: ScheduleModel,
    content: TileContent,
    sight: FrameSight,
    hidden: Set<LayerId>,
    distance: spec_fn(TileId) -> u64,
    made: spec_fn(TileCacheKey) -> Option<BuiltTile>,
    taken: spec_fn(u64, TileCacheKey) -> bool,
    key: TileCacheKey,
)
    ensures
        ({
            let after = refresh::after_frame(m, content, sight, hidden, distance, made, taken);
            let same = m.scene_key == Some(
                refresh::frame_key(m, sight, hidden, content.hierarchy is Some),
            );
            let wanted = content.keys_for(
                grid::visible_tiles(content.grid, sight.tile_span),
                hidden,
                refresh::frame_look(m, sight, content.hierarchy is Some),
                m.display.layer_draw_modes,
                m.display.layer_hatch_styles,
            );
            &&& same ==> after.requested == m.requested
            &&& !same ==> (after.requested.contains(key) <==> wanted.contains(key))
        }),
{
    let start = refresh::entered(m, refresh::frame_domain(m, sight));
    let ready = refresh::asked(start, content, sight, hidden, distance);
    let plan = frame::build_plan(ready, content.prepared, content.grid);
    let hierarchical = content.hierarchy is Some;
    let view = refresh::frame_key(start, sight, hidden, hierarchical);
    assert(view == refresh::frame_key(m, sight, hidden, hierarchical));
    if frame::refresh_kind(start, view) != frame::RefreshKind::Skip {
        if hierarchical {
            work_laws::law_handed_out_builds_come_from_the_queue(ready, plan.budget as nat, taken);
        } else {
            work_laws::law_builds_come_from_the_queue(
                ScheduleModel { tick: ready.tick.wrapping_add(1), ..ready },
                plan.budget as nat,
                made,
            );
        }
        let wanted = content.keys_for(
            grid::visible_tiles(content.grid, sight.tile_span),
            hidden,
            refresh::frame_look(m, sight, hierarchical),
            m.display.layer_draw_modes,
            m.display.layer_hatch_styles,
        );
        requests::law_requests_are_only_reordered(
            wanted,
            content.drawing_order(),
            distance,
            key,
        );
        let next = refresh::frame_requests(start, content, sight, hidden, distance);
        laws::law_pan_asks_for_the_view(start.requested, next, key);
    }
}

/// A frame of the same view gives up no build for it; one of a new view gives up those that it does
/// not ask for.
pub proof fn law_builds_that_are_given_up(
    m: ScheduleModel,
    content: TileContent,
    sight: FrameSight,
    hidden: Set<LayerId>,
    distance: spec_fn(TileId) -> u64,
)
    ensures
        m.scene_key == Some(refresh::frame_key(m, sight, hidden, content.hierarchy is Some))
            ==> refresh::gives_up(m, content, sight, hidden, distance) == 0,
        m.pending.len() == 0 ==> refresh::gives_up(m, content, sight, hidden, distance) == 0,
{
    let key = refresh::frame_key(m, sight, hidden, content.hierarchy is Some);
    let next = refresh::frame_requests(m, content, sight, hidden, distance);
    if m.pending.len() == 0 {
        let keys = queue::pending_keys(m.pending);
        assert(keys =~= Seq::empty());
        reveal(Seq::filter);
        let requested = queue::panned_requests(m.requested, next);
        assert(keys.filter(|key: TileCacheKey| !requested.contains(key)) =~= Seq::empty());
        assert(keys.filter(|key: TileCacheKey| !next.contains(key)) =~= Seq::empty());
    }
}

/// What a frame drops to make room is no longer there after it.
pub proof fn law_dropped_entries_are_gone(
    m: ScheduleModel,
    content: TileContent,
    sight: FrameSight,
    hidden: Set<LayerId>,
    distance: spec_fn(TileId) -> u64,
    made: spec_fn(TileCacheKey) -> Option<BuiltTile>,
    taken: spec_fn(u64, TileCacheKey) -> bool,
    key: TileCacheKey,
)
    requires
        refresh::dropped_in_frame(m, content, sight, hidden, distance, made, taken).contains(key),
    ensures
        !work_laws::is_there(
            refresh::after_frame(m, content, sight, hidden, distance, made, taken).cache,
            key,
        ),
{
    let gone = refresh::dropped_in_frame(m, content, sight, hidden, distance, made, taken);
    let after = refresh::after_frame(m, content, sight, hidden, distance, made, taken);
    let start = refresh::entered(m, refresh::frame_domain(m, sight));
    let ready = refresh::asked(start, content, sight, hidden, distance);
    let plan = frame::build_plan(ready, content.prepared, content.grid);
    let worked = refresh::after_work(
        ready,
        content.hierarchy is Some,
        plan.budget as nat,
        made,
        taken,
    );
    assert(after.cache == schedule::outside(worked.cache, gone));
    if work_laws::is_there(after.cache, key) {
        let i = choose|i: int| 0 <= i < after.cache.len() && (#[trigger] after.cache[i]).key == key;
        let kept = |tile: CachedTile| !gone.contains(tile.key);
        assert(after.cache.contains(after.cache[i]));
        seqs::lemma_filter_contains(worked.cache, kept, after.cache[i]);
    }
}

/// How the active layer advances: not at all where none is active, at once where the frame
/// completes everything or the layer is light, and else step by step.
pub proof fn law_how_a_layer_advances(
    m: ScheduleModel,
    bypassed: bool,
    prepared: PreparedTileFragments,
    grid: TileGridIndex,
)
    ensures
        ({
            let mode = frame::progress_mode(m, bypassed, prepared, grid);
            let layer = queue::active_layer_for(m.building_layer, m.pending);
            let stats = requests::pending_stats_for(layer, m.pending, prepared, grid);
            let light = 0 < stats.pending_entries <= m.limits.layer_bypass.entry_threshold
                && stats.estimated_work_units <= m.limits.layer_bypass.work_threshold;
            &&& mode is None <==> layer is None
            &&& layer is Some && (bypassed || light) ==> mode == Some(
                ActiveLayerProgressMode::Bypassed,
            )
            &&& layer is Some && !bypassed && !light ==> mode == Some(
                ActiveLayerProgressMode::Progressive,
            )
        }),
{
}

/// The keys and the domain of a frame hold the revision of the scene, the zoom of the cache and the
/// signature of the hatches; the key of the frame holds where it looks.
pub proof fn law_looks_of_a_frame(
    m: ScheduleModel,
    sight: FrameSight,
    hidden: Set<LayerId>,
    hierarchical: bool,
)
    ensures
        ({
            let look = refresh::frame_look(m, sight, hierarchical);
            let domain = refresh::frame_domain(m, sight);
            let key = refresh::frame_key(m, sight, hidden, hierarchical);
            let hatches = geometry::hatch_signature(m.display.hatch_params) as u64;
            &&& look.scene_revision == m.scene_revision && domain.scene_revision
                == m.scene_revision && key.scene_revision == m.scene_revision
            &&& look.zoom_bits == sight.cache_zoom_bits && domain.zoom_bits
                == sight.cache_zoom_bits
            &&& look.hatch_signature == hatches && domain.hatch_signature == hatches
            &&& look.hatch_style == m.display.hatch_style
            &&& look.draw_mode == refresh::frame_mode(m.display, hierarchical, sight.zoom)
            &&& key.pan_x_bits == sight.view.pan_x && key.pan_y_bits == sight.view.pan_y
            &&& key.zoom_bits == sight.view.zoom
            &&& key.canvas_origin_x_bits == sight.view.canvas_origin_x && key.canvas_origin_y_bits
                == sight.view.canvas_origin_y
        }),
{
}

} // verus!
