//! What a frame reports of itself.

use crate::renderer::ActiveLayerProgressMode;
use crate::scene::LayerId;
use vstd::prelude::*;

verus! {

/// What a frame reports of itself.
#[derive(Debug, Clone, Copy, PartialEq, Eq, Structural)]
pub struct RenderDebugStats {
    /// Shapes of the source.
    pub total_shapes: usize,
    /// Shapes that the grid search came across.
    pub candidate_shapes: usize,
    /// Shapes that meet the visible area.
    pub visible_shapes: usize,
    /// Grid cells that the search looked into.
    pub bucket_hits: usize,
    /// Vertices that are drawn.
    pub vertex_count: usize,
    /// Draws that are issued.
    pub draw_calls: usize,
    /// Tiles that the visible area touches.
    pub visible_tiles: usize,
    /// Requested tiles that miss no entry.
    pub tile_cache_hits: usize,
    /// Requested tiles that miss an entry.
    pub tile_cache_misses: usize,
    /// Requested entries that are there.
    pub layer_cache_hits: usize,
    /// Requested entries that are missing.
    pub layer_cache_misses: usize,
    /// Entries in the cache.
    pub cache_entries: usize,
    /// How many entries the cache may hold.
    pub cache_capacity: usize,
    /// Bytes in the cache.
    pub cache_bytes: usize,
    /// Entries dropped so far.
    pub cache_evictions: usize,
    /// Shapes that were cut ahead of drawing.
    pub prepared_shapes: usize,
    /// Tiles that have pieces of them.
    pub prepared_tiles: usize,
    /// Pieces of them.
    pub prepared_fragments: usize,
    /// Entries that wait to be built or shown.
    pub pending_entries: usize,
    /// Entries that this frame may build.
    pub build_budget: usize,
    /// Builds given up so far.
    pub dropped_stale_entries: usize,
    /// The layer that is being completed.
    pub active_layer: Option<LayerId>,
    /// Builds of that layer that wait.
    pub active_layer_pending: usize,
    /// The work that they are expected to take.
    pub active_layer_estimated_work: usize,
    /// How that layer advances.
    pub active_layer_progress_mode: Option<ActiveLayerProgressMode>,
    /// Whether this frame completes everything that is missing.
    pub progressive_bypassed: bool,
    /// Up to how many entries a layer is completed at once.
    pub layer_bypass_entry_threshold: usize,
    /// Up to how much work a layer is completed at once.
    pub layer_bypass_work_threshold: usize,
    /// Whether this frame found everything ready: the view was that of the frame before, and nothing
    /// had to be built, handed out or taken in.
    pub cache_hit: bool,
    /// Spacing of the hatch, as a coordinate key.
    pub hatch_spacing: i32,
    /// Line width of the hatch, as a coordinate key.
    pub hatch_width: i32,
}

impl RenderDebugStats {
    /// The report with these numbers.
    pub fn new(
        total_shapes: usize,
        candidate_shapes: usize,
        visible_shapes: usize,
        bucket_hits: usize,
        vertex_count: usize,
        draw_calls: usize,
        visible_tiles: usize,
        tile_cache_hits: usize,
        tile_cache_misses: usize,
        layer_cache_hits: usize,
        layer_cache_misses: usize,
        cache_entries: usize,
        cache_capacity: usize,
        cache_bytes: usize,
        cache_evictions: usize,
        prepared_shapes: usize,
        prepared_tiles: usize,
        prepared_fragments: usize,
        pending_entries: usize,
        build_budget: usize,
        dropped_stale_entries: usize,
        active_layer: Option<LayerId>,
        active_layer_pending: usize,
        active_layer_estimated_work: usize,
        active_layer_progress_mode: Option<ActiveLayerProgressMode>,
        progressive_bypassed: bool,
        layer_bypass_entry_threshold: usize,
        layer_bypass_work_threshold: usize,
        cache_hit: bool,
        hatch_spacing: i32,
        hatch_width: i32,
    ) -> (stats: Self)
        ensures
            stats == (RenderDebugStats {
                total_shapes,
                candidate_shapes,
                visible_shapes,
                bucket_hits,
                vertex_count,
                draw_calls,
                visible_tiles,
                tile_cache_hits,
                tile_cache_misses,
                layer_cache_hits,
                layer_cache_misses,
                cache_entries,
                cache_capacity,
                cache_bytes,
                cache_evictions,
                prepared_shapes,
                prepared_tiles,
                prepared_fragments,
                pending_entries,
                build_budget,
                dropped_stale_entries,
                active_layer,
                active_layer_pending,
                active_layer_estimated_work,
                active_layer_progress_mode,
                progressive_bypassed,
                layer_bypass_entry_threshold,
                layer_bypass_work_threshold,
                cache_hit,
                hatch_spacing,
                hatch_width,
            }),
    {
        RenderDebugStats {
            total_shapes,
            candidate_shapes,
            visible_shapes,
            bucket_hits,
            vertex_count,
            draw_calls,
            visible_tiles,
            tile_cache_hits,
            tile_cache_misses,
            layer_cache_hits,
            layer_cache_misses,
            cache_entries,
            cache_capacity,
            cache_bytes,
            cache_evictions,
            prepared_shapes,
            prepared_tiles,
            prepared_fragments,
            pending_entries,
            build_budget,
            dropped_stale_entries,
            active_layer,
            active_layer_pending,
            active_layer_estimated_work,
            active_layer_progress_mode,
            progressive_bypassed,
            layer_bypass_entry_threshold,
            layer_bypass_work_threshold,
            cache_hit,
            hatch_spacing,
            hatch_width,
        }
    }

    /// The report of nothing.
    pub open spec fn blank() -> Self {
        RenderDebugStats {
            total_shapes: 0,
            candidate_shapes: 0,
            visible_shapes: 0,
            bucket_hits: 0,
            vertex_count: 0,
            draw_calls: 0,
            visible_tiles: 0,
            tile_cache_hits: 0,
            tile_cache_misses: 0,
            layer_cache_hits: 0,
            layer_cache_misses: 0,
            cache_entries: 0,
            cache_capacity: 0,
            cache_bytes: 0,
            cache_evictions: 0,
            prepared_shapes: 0,
            prepared_tiles: 0,
            prepared_fragments: 0,
            pending_entries: 0,
            build_budget: 0,
            dropped_stale_entries: 0,
            active_layer: None,
            active_layer_pending: 0,
            active_layer_estimated_work: 0,
            active_layer_progress_mode: None,
            progressive_bypassed: false,
            layer_bypass_entry_threshold: 0,
            layer_bypass_work_threshold: 0,
            cache_hit: false,
            hatch_spacing: 0,
            hatch_width: 0,
        }
    }
}

impl Default for RenderDebugStats {
    fn default() -> (stats: Self)
        ensures
            stats == RenderDebugStats::blank(),
    {
        RenderDebugStats {
            total_shapes: 0,
            candidate_shapes: 0,
            visible_shapes: 0,
            bucket_hits: 0,
            vertex_count: 0,
            draw_calls: 0,
            visible_tiles: 0,
            tile_cache_hits: 0,
            tile_cache_misses: 0,
            layer_cache_hits: 0,
            layer_cache_misses: 0,
            cache_entries: 0,
            cache_capacity: 0,
            cache_bytes: 0,
            cache_evictions: 0,
            prepared_shapes: 0,
            prepared_tiles: 0,
            prepared_fragments: 0,
            pending_entries: 0,
            build_budget: 0,
            dropped_stale_entries: 0,
            active_layer: None,
            active_layer_pending: 0,
            active_layer_estimated_work: 0,
            active_layer_progress_mode: None,
            progressive_bypassed: false,
            layer_bypass_entry_threshold: 0,
            layer_bypass_work_threshold: 0,
            cache_hit: false,
            hatch_spacing: 0,
            hatch_width: 0,
        }
    }
}

} // verus!
