//! Rendering decisions: which tiles are asked for, built, shown and dropped.

pub mod batch;
pub mod buffers;
pub mod clip_laws;
pub mod content;
pub mod cutting_laws;
pub mod drawing;
pub mod drawing_laws;
pub mod ear_laws;
pub mod emission;
pub mod eviction;
pub mod fragments;
pub mod geometry;
pub mod grid;
pub mod hash_laws;
pub mod packing_laws;
pub mod piece_laws;
pub mod plan_laws;
pub mod polygon;
pub mod prepared_laws;
pub mod primitives;
pub mod queue;
pub mod queue_laws;
pub mod request_laws;
pub mod requests;
pub mod scene_vertices;
pub mod schedule;
pub mod scissor;
pub mod stats;
pub mod table;
pub mod tiles;
pub mod vertex_laws;
pub mod vertices;

use crate::coords;
use crate::coords::key_at_most;
use crate::renderer::geometry::{ClosedShapeDrawMode, RenderCacheKey};
use crate::scene::LayerId;
use vstd::prelude::*;

verus! {

/// How many tile entries the cache holds by default.
pub const DEFAULT_TILE_CACHE_CAPACITY: usize = 512;

/// How many bytes one tile entry may take on average.
pub const TILE_CACHE_BYTES_PER_ENTRY_BUDGET: usize = 524_288;

/// How many `tile + layer` entries one frame builds at most.
pub const DEFAULT_PROGRESSIVE_BUILD_BUDGET: usize = 16;

/// Up to how many missing entries a frame completes at once.
pub const DEFAULT_PROGRESSIVE_BYPASS_THRESHOLD: usize = 16;

pub const MIN_TILE_CACHE_CAPACITY: usize = 32;

pub const MAX_TILE_CACHE_CAPACITY: usize = 4096;

pub const MIN_PROGRESSIVE_BYPASS_THRESHOLD: usize = 0;

pub const MAX_PROGRESSIVE_BYPASS_THRESHOLD: usize = 256;

pub const DEFAULT_LAYER_BYPASS_ENTRY_THRESHOLD: usize = 8;

pub const DEFAULT_LAYER_BYPASS_WORK_THRESHOLD: usize = 128;

pub const MIN_LAYER_BYPASS_ENTRY_THRESHOLD: usize = 0;

pub const MAX_LAYER_BYPASS_ENTRY_THRESHOLD: usize = 64;

pub const MIN_LAYER_BYPASS_WORK_THRESHOLD: usize = 0;

pub const MAX_LAYER_BYPASS_WORK_THRESHOLD: usize = 1024;

/// Weights of the work estimate: per entry, per prepared fragment, per regular shape.
pub const LAYER_WORK_ENTRY_WEIGHT: usize = 1;

pub const LAYER_WORK_PREPARED_WEIGHT: usize = 4;

pub const LAYER_WORK_REGULAR_WEIGHT: usize = 2;

/// The coarsest tile grid of the direct hierarchy mode.
pub const DIRECT_HIERARCHY_MAX_TILE_GRID_DIVISIONS: u32 = 1;

/// Up to which zoom, 0.02, the direct hierarchy mode draws outlines only; a coordinate key.
pub const DIRECT_HIERARCHY_OUTLINE_ONLY_MAX_ZOOM: i32 = 0x3ca3_d70a;

/// How the active layer advances.
#[derive(Debug, Clone, Copy, PartialEq, Eq, Structural)]
pub enum ActiveLayerProgressMode {
    /// The layer is light enough to be completed in one frame.
    Bypassed,
    /// The layer is completed step by step.
    Progressive,
}

/// What is left to do for the active layer.
#[derive(Debug, Clone, Copy, PartialEq, Eq, Structural)]
pub struct LayerPendingStats {
    pub pending_entries: usize,
    pub estimated_work_units: usize,
    pub prepared_fragment_count: usize,
    pub regular_shape_count: usize,
}

impl Default for LayerPendingStats {
    fn default() -> (stats: Self)
        ensures
            stats.pending_entries == 0,
            stats.estimated_work_units == 0,
            stats.prepared_fragment_count == 0,
            stats.regular_shape_count == 0,
    {
        LayerPendingStats {
            pending_entries: 0,
            estimated_work_units: 0,
            prepared_fragment_count: 0,
            regular_shape_count: 0,
        }
    }
}

/// Up to where a layer is completed in one frame.
#[derive(Debug, Clone, Copy, PartialEq, Eq, Structural)]
pub struct LayerAdaptiveBypassConfig {
    pub entry_threshold: usize,
    pub work_threshold: usize,
}

/// The tile grid density in use: the direct hierarchy mode caps it.
pub fn effective_tile_grid_divisions(
    requested_divisions: u32,
    hierarchy_tile_source_active: bool,
) -> (divisions: u32)
    ensures
        divisions == (if hierarchy_tile_source_active && requested_divisions
            > DIRECT_HIERARCHY_MAX_TILE_GRID_DIVISIONS {
            DIRECT_HIERARCHY_MAX_TILE_GRID_DIVISIONS
        } else {
            requested_divisions
        }),
{
    if hierarchy_tile_source_active && requested_divisions
        > DIRECT_HIERARCHY_MAX_TILE_GRID_DIVISIONS {
        DIRECT_HIERARCHY_MAX_TILE_GRID_DIVISIONS
    } else {
        requested_divisions
    }
}

/// The draw mode in use: far out, the direct hierarchy mode draws outlines only. The zoom is a
/// coordinate key.
pub fn effective_draw_mode_for_current_view(
    base_mode: ClosedShapeDrawMode,
    hierarchy_tile_source_active: bool,
    zoom: i32,
) -> (mode: ClosedShapeDrawMode)
    ensures
        mode == (if hierarchy_tile_source_active && coords::at_most(
            zoom,
            DIRECT_HIERARCHY_OUTLINE_ONLY_MAX_ZOOM,
        ) {
            ClosedShapeDrawMode::Outline
        } else {
            base_mode
        }),
{
    if hierarchy_tile_source_active && key_at_most(
        zoom,
        DIRECT_HIERARCHY_OUTLINE_ONLY_MAX_ZOOM,
    ) {
        ClosedShapeDrawMode::Outline
    } else {
        base_mode
    }
}

/// Tiles are clipped one by one outside the direct hierarchy mode only.
pub fn should_use_per_tile_scissor(hierarchy_tile_source_active: bool) -> (clipped: bool)
    ensures
        clipped == !hierarchy_tile_source_active,
{
    !hierarchy_tile_source_active
}

/// A frame needs no bookkeeping where the view, the cache domain and both queues are settled.
pub fn should_skip_static_cache_refresh(
    cached_scene_key: Option<RenderCacheKey>,
    next_scene_key: RenderCacheKey,
    tile_cache_domain_matches: bool,
    pending_tile_builds: usize,
    in_flight_tile_builds: usize,
) -> (skipped: bool)
    ensures
        skipped == (tile_cache_domain_matches && cached_scene_key == Some(next_scene_key)
            && pending_tile_builds == 0 && in_flight_tile_builds == 0),
{
    tile_cache_domain_matches && cached_scene_key == Some(next_scene_key) && pending_tile_builds
        == 0 && in_flight_tile_builds == 0
}

/// Display batches pay off on settled frames of the direct hierarchy mode only.
pub fn should_use_static_visible_display_batch(
    hierarchy_tile_source_active: bool,
    freeze_interaction_view: bool,
    visible_tile_key_count: usize,
    pending_tile_builds: usize,
    in_flight_tile_builds: usize,
) -> (batched: bool)
    ensures
        batched == (hierarchy_tile_source_active && !freeze_interaction_view
            && visible_tile_key_count > 0 && pending_tile_builds == 0 && in_flight_tile_builds
            == 0),
{
    hierarchy_tile_source_active && !freeze_interaction_view && visible_tile_key_count > 0
        && pending_tile_builds == 0 && in_flight_tile_builds == 0
}

/// An interaction freezes the view only where a settled view is there to be frozen.
pub fn should_freeze_interaction_view(interaction_degraded: bool, has_stable_view: bool) -> (frozen:
    bool)
    ensures
        frozen == (interaction_degraded && has_stable_view),
{
    interaction_degraded && has_stable_view
}

/// How many vertices one buffer holds: whole triangles, and one triangle at least.
pub fn max_vertices_per_buffer_for_limit(max_buffer_size: usize, vertex_size: usize) -> (count:
    usize)
    requires
        vertex_size > 0,
    ensures
        count % 3 == 0,
        count >= 3,
        max_buffer_size / vertex_size >= 3 ==> count <= max_buffer_size / vertex_size < count + 3,
        max_buffer_size / vertex_size < 3 ==> count == 3,
{
    let max_vertices: usize = max_buffer_size / vertex_size;
    let triangle_aligned: usize = max_vertices - (max_vertices % 3);
    if triangle_aligned >= 3 {
        triangle_aligned
    } else {
        3
    }
}

/// The byte budget of a cache with so many entries.
pub fn tile_cache_byte_budget(capacity: usize) -> (budget: usize)
    ensures
        budget == (if capacity * TILE_CACHE_BYTES_PER_ENTRY_BUDGET > usize::MAX {
            usize::MAX as int
        } else {
            capacity * TILE_CACHE_BYTES_PER_ENTRY_BUDGET
        }),
{
    match capacity.checked_mul(TILE_CACHE_BYTES_PER_ENTRY_BUDGET) {
        Some(budget) => budget,
        None => usize::MAX,
    }
}

/// The build budget of a frame, and whether it completes everything that is missing.
pub fn compute_effective_build_budget(
    pending_entries: usize,
    progressive_build_budget: usize,
    progressive_bypass_threshold: usize,
) -> (result: (usize, bool))
    ensures
        pending_entries <= progressive_bypass_threshold ==> result == (
            pending_entries,
            pending_entries > 0,
        ),
        pending_entries > progressive_bypass_threshold ==> result == (
            if progressive_build_budget <= pending_entries {
                progressive_build_budget
            } else {
                pending_entries
            },
            false,
        ),
{
    if pending_entries <= progressive_bypass_threshold {
        return (pending_entries, pending_entries > 0);
    }
    if progressive_build_budget <= pending_entries {
        (progressive_build_budget, false)
    } else {
        (pending_entries, false)
    }
}

/// Whether a layer is light by both thresholds.
pub open spec fn layer_is_light(
    stats: LayerPendingStats,
    config: LayerAdaptiveBypassConfig,
) -> bool {
    &&& stats.pending_entries > 0
    &&& stats.pending_entries <= config.entry_threshold
    &&& stats.estimated_work_units <= config.work_threshold
}

/// A layer is completed in one frame where few entries are left and their estimated work is
/// small: neither alone is enough.
pub fn should_bypass_progressive_for_layer(
    stats: LayerPendingStats,
    config: LayerAdaptiveBypassConfig,
) -> (bypassed: bool)
    ensures
        bypassed == layer_is_light(stats, config),
{
    stats.pending_entries > 0 && stats.pending_entries <= config.entry_threshold
        && stats.estimated_work_units <= config.work_threshold
}

/// The build budget where the frame as a whole is not completed at once.
pub fn effective_build_budget_for_active_layer(
    pending_entries_total: usize,
    active_layer: Option<LayerId>,
    active_layer_stats: LayerPendingStats,
    progressive_build_budget: usize,
    bypass: LayerAdaptiveBypassConfig,
) -> (budget: usize)
    ensures
        budget == (if pending_entries_total == 0 {
            0
        } else if active_layer is Some && layer_is_light(active_layer_stats, bypass) {
            active_layer_stats.pending_entries
        } else if progressive_build_budget <= pending_entries_total {
            progressive_build_budget
        } else {
            pending_entries_total
        }),
{
    if pending_entries_total == 0 {
        return 0;
    }
    if active_layer.is_some() && should_bypass_progressive_for_layer(active_layer_stats, bypass) {
        return active_layer_stats.pending_entries;
    }
    if progressive_build_budget <= pending_entries_total {
        progressive_build_budget
    } else {
        pending_entries_total
    }
}

/// The display budget of the active layer after one more frame.
pub open spec fn advanced_display_budget(
    budget: usize,
    same_layer: bool,
    progressive_bypassed: bool,
    mode: Option<ActiveLayerProgressMode>,
    effective_build_budget: usize,
) -> usize {
    let start: int = if same_layer {
        budget as int
    } else {
        0
    };
    let step: int = if effective_build_budget == 0 {
        1
    } else {
        effective_build_budget as int
    };
    match mode {
        Some(ActiveLayerProgressMode::Bypassed) => usize::MAX,
        Some(ActiveLayerProgressMode::Progressive) => if start + step > usize::MAX {
            usize::MAX
        } else {
            (start + step) as usize
        },
        None => if progressive_bypassed {
            usize::MAX
        } else {
            0
        },
    }
}

/// Opens the display of the active layer by one more step.
pub fn advance_active_display_budget(
    active_display_layer: &mut Option<LayerId>,
    active_display_budget: &mut usize,
    active_layer: Option<LayerId>,
    progressive_bypassed: bool,
    active_layer_progress_mode: Option<ActiveLayerProgressMode>,
    effective_build_budget: usize,
)
    ensures
        *final(active_display_layer) == active_layer,
        *final(active_display_budget) == advanced_display_budget(
            *old(active_display_budget),
            *old(active_display_layer) == active_layer,
            progressive_bypassed,
            active_layer_progress_mode,
            effective_build_budget,
        ),
{
    if *active_display_layer != active_layer {
        *active_display_layer = active_layer;
        *active_display_budget = 0;
    }
    match active_layer_progress_mode {
        Some(ActiveLayerProgressMode::Bypassed) => {
            *active_display_budget = usize::MAX;
        },
        Some(ActiveLayerProgressMode::Progressive) => {
            let step: usize = if effective_build_budget == 0 {
                1
            } else {
                effective_build_budget
            };
            *active_display_budget = (*active_display_budget).saturating_add(step);
        },
        None => {
            *active_display_budget = if progressive_bypassed {
                usize::MAX
            } else {
                0
            };
        },
    }
}

} // verus!
