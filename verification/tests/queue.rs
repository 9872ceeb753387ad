//! Queues, budgets, the cache and what is revealed while a view is completed.

use std::collections::VecDeque;

use flayout_wgpu::coords::coord_from_bits;
use flayout_wgpu::layers::{LayerMap, LayerSet};
use flayout_wgpu::renderer::batch::{
    batch_is_current, batch_visible_vertex_segments, hash_visible_tile_keys, plan_batch_copies,
    BatchCopy,
};
use flayout_wgpu::renderer::buffers::split_tile_vertices;
use flayout_wgpu::renderer::eviction::{select_tile_eviction_victims, TileUsage};
use flayout_wgpu::renderer::geometry::{
    build_render_cache_key_with_hatch_styles, ClosedShapeDrawMode, HatchParams, TileId, ViewBits,
    DEFAULT_HATCH_SPACING, DEFAULT_HATCH_STYLE_PRESET, DEFAULT_HATCH_WIDTH,
};
use flayout_wgpu::renderer::queue::{
    active_layer_pending_count, compute_revealed_layers_for_display, enqueue_unique_pending,
    merge_requested_tile_keys_for_incremental_pan, next_active_progressive_layer,
    pop_next_pending_for_layer, refresh_progressive_queue, refresh_progressive_queue_incremental,
    requested_layers_in_order, should_display_cached_tile_key,
    stabilize_visible_tile_keys_during_transition, PendingTileBuild, TileCacheKey,
};
use flayout_wgpu::renderer::scissor::ScissorRect;
use flayout_wgpu::renderer::stats::RenderDebugStats;
use flayout_wgpu::renderer::{
    advance_active_display_budget, compute_effective_build_budget,
    effective_build_budget_for_active_layer, effective_draw_mode_for_current_view,
    effective_tile_grid_divisions, max_vertices_per_buffer_for_limit,
    should_bypass_progressive_for_layer, should_freeze_interaction_view,
    should_skip_static_cache_refresh, should_use_per_tile_scissor,
    should_use_static_visible_display_batch, tile_cache_byte_budget, ActiveLayerProgressMode,
    LayerAdaptiveBypassConfig, LayerPendingStats,
};
use flayout_wgpu::scene::LayerId;

fn k(value: f32) -> i32 {
    coord_from_bits((value + 0.0).to_bits())
}

fn key_for_layer(col: i32, layer: LayerId) -> TileCacheKey {
    TileCacheKey {
        scene_revision: 1,
        zoom_bits: 1.0f32.to_bits(),
        tile_id: TileId { col, row: 0 },
        layer,
        effective_mode_tag: 0,
        hatch_signature: 0,
        effective_hatch_style_tag: 0,
    }
}

fn key(col: i32, last_used_tick: u64) -> TileCacheKey {
    let _ = last_used_tick;
    TileCacheKey {
        scene_revision: 1,
        zoom_bits: 1.0f32.to_bits(),
        tile_id: TileId { col, row: 0 },
        layer: LayerId {
            layer: 1,
            datatype: 2,
        },
        effective_mode_tag: 0,
        hatch_signature: 0,
        effective_hatch_style_tag: 0,
    }
}

fn usage(key: TileCacheKey, last_used_tick: u64, byte_size: usize) -> TileUsage {
    TileUsage {
        key,
        last_used_tick,
        byte_size,
    }
}

#[test]
fn disjoint_scissor_intersection_returns_none_without_overflow() {
    let a = ScissorRect {
        x: 100,
        y: 100,
        width: 20,
        height: 20,
    };
    let b = ScissorRect {
        x: 10,
        y: 10,
        width: 5,
        height: 5,
    };

    assert_eq!(a.intersect(b), None);
    assert_eq!(b.intersect(a), None);
}

#[test]
fn tile_cache_key_now_distinguishes_layers_and_modes_within_same_tile() {
    let tile = TileId { col: 0, row: 0 };
    let a = TileCacheKey {
        scene_revision: 1,
        zoom_bits: 1.0f32.to_bits(),
        tile_id: tile,
        layer: LayerId {
            layer: 1,
            datatype: 1,
        },
        effective_mode_tag: 0,
        hatch_signature: 7,
        effective_hatch_style_tag: 0,
    };
    let b = TileCacheKey {
        scene_revision: 1,
        zoom_bits: 1.0f32.to_bits(),
        tile_id: tile,
        layer: LayerId {
            layer: 1,
            datatype: 2,
        },
        effective_mode_tag: 0,
        hatch_signature: 7,
        effective_hatch_style_tag: 0,
    };
    let c = TileCacheKey {
        scene_revision: 1,
        zoom_bits: 1.0f32.to_bits(),
        tile_id: tile,
        layer: LayerId {
            layer: 1,
            datatype: 1,
        },
        effective_mode_tag: 2,
        hatch_signature: 7,
        effective_hatch_style_tag: 0,
    };

    assert_ne!(a, b);
    assert_ne!(a, c);
}

#[test]
fn direct_hierarchy_uses_coarser_internal_tile_grid() {
    assert_eq!(effective_tile_grid_divisions(8, true), 1);
    assert_eq!(effective_tile_grid_divisions(4, true), 1);
    assert_eq!(effective_tile_grid_divisions(2, true), 1);
    assert_eq!(effective_tile_grid_divisions(8, false), 8);
}

#[test]
fn direct_hierarchy_skips_per_tile_scissor_state_churn() {
    assert!(!should_use_per_tile_scissor(true));
    assert!(should_use_per_tile_scissor(false));
}

#[test]
fn static_display_batch_only_enables_for_fully_stable_direct_hierarchy_views() {
    assert!(should_use_static_visible_display_batch(
        true, false, 4, 0, 0
    ));
    assert!(!should_use_static_visible_display_batch(
        false, false, 4, 0, 0
    ));
    assert!(!should_use_static_visible_display_batch(
        true, true, 4, 0, 0
    ));
    assert!(!should_use_static_visible_display_batch(
        true, false, 0, 0, 0
    ));
    assert!(!should_use_static_visible_display_batch(
        true, false, 4, 1, 0
    ));
    assert!(!should_use_static_visible_display_batch(
        true, false, 4, 0, 1
    ));
}

#[test]
fn static_display_batch_merges_visible_segments_until_buffer_limit() {
    let merged = batch_visible_vertex_segments(&[3, 3, 3, 3, 3], 6);
    assert_eq!(merged, vec![6, 6, 3]);

    let merged = batch_visible_vertex_segments(&[4, 4, 1, 2], 8);
    assert_eq!(merged, vec![8, 3]);
}

#[test]
fn enqueue_skips_duplicate_tile_keys() {
    let pending = enqueue_unique_pending(
        VecDeque::from([PendingTileBuild {
            view_revision: 3,
            tile_key: key(0, 0),
        }]),
        PendingTileBuild {
            view_revision: 3,
            tile_key: key(0, 0),
        },
    );

    assert_eq!(pending.len(), 1);
}

#[test]
fn transition_keeps_previous_visible_tiles_while_new_view_is_still_pending() {
    let previous = vec![key(0, 0), key(1, 0)];
    let current = vec![key(2, 0)];

    let stabilized = stabilize_visible_tile_keys_during_transition(current, &previous, 3);

    assert_eq!(stabilized, vec![key(2, 0), key(0, 0), key(1, 0)]);
}

#[test]
fn transition_does_not_keep_previous_tiles_once_view_is_stable() {
    let previous = vec![key(0, 0), key(1, 0)];
    let current = vec![key(2, 0)];

    let stabilized = stabilize_visible_tile_keys_during_transition(current, &previous, 0);

    assert_eq!(stabilized, vec![key(2, 0)]);
}

#[test]
fn refresh_progressive_queue_drops_stale_entries_on_new_view() {
    let old = VecDeque::from([
        PendingTileBuild {
            view_revision: 1,
            tile_key: key(0, 0),
        },
        PendingTileBuild {
            view_revision: 1,
            tile_key: key(1, 0),
        },
    ]);
    let requested = vec![key(2, 0), key(3, 0)];
    let cached: Vec<TileCacheKey> = Vec::new();
    let (pending, dropped) = refresh_progressive_queue(7, old, &requested, &cached);

    assert_eq!(dropped, 2);
    assert_eq!(pending.len(), 2);
    assert!(pending.iter().all(|item| item.view_revision == 7));
    let cols: Vec<_> = pending
        .iter()
        .map(|item| item.tile_key.tile_id.col)
        .collect();
    assert_eq!(cols, vec![2, 3]);
}

#[test]
fn refresh_progressive_queue_preserves_overlap_without_counting_it_as_stale() {
    let old = VecDeque::from([
        PendingTileBuild {
            view_revision: 1,
            tile_key: key(0, 0),
        },
        PendingTileBuild {
            view_revision: 1,
            tile_key: key(1, 0),
        },
        PendingTileBuild {
            view_revision: 1,
            tile_key: key(2, 0),
        },
    ]);
    let requested = vec![key(1, 0), key(2, 0), key(3, 0)];
    let cached: Vec<TileCacheKey> = Vec::new();
    let (pending, dropped) = refresh_progressive_queue(7, old, &requested, &cached);

    assert_eq!(dropped, 1);
    assert_eq!(pending.len(), 3);
    assert!(pending.iter().all(|item| item.view_revision == 7));
    let cols: Vec<_> = pending
        .iter()
        .map(|item| item.tile_key.tile_id.col)
        .collect();
    assert_eq!(cols, vec![1, 2, 3]);
}

#[test]
fn refresh_progressive_queue_skips_already_cached_tiles() {
    let old = VecDeque::new();
    let requested = vec![key(1, 0), key(2, 0), key(3, 0)];
    let cached = vec![key(2, 0)];

    let (pending, dropped) = refresh_progressive_queue(7, old, &requested, &cached);

    assert_eq!(dropped, 0);
    let cols: Vec<_> = pending
        .iter()
        .map(|item| item.tile_key.tile_id.col)
        .collect();
    assert_eq!(cols, vec![1, 3]);
}

#[test]
fn incremental_refresh_keeps_only_uncached_newly_visible_tiles() {
    let old = VecDeque::from([
        PendingTileBuild {
            view_revision: 3,
            tile_key: key(0, 0),
        },
        PendingTileBuild {
            view_revision: 3,
            tile_key: key(1, 0),
        },
    ]);
    let requested = vec![key(1, 0), key(2, 0), key(3, 0)];
    let cached = vec![key(1, 0), key(2, 0)];

    let (pending, dropped) = refresh_progressive_queue_incremental(3, old, &requested, &cached);

    assert_eq!(dropped, 1);
    let cols: Vec<_> = pending
        .iter()
        .map(|item| item.tile_key.tile_id.col)
        .collect();
    assert_eq!(cols, vec![3]);
}

#[test]
fn incremental_pan_keeps_overlap_tile_order_stable() {
    let previous = vec![key(1, 0), key(2, 0), key(3, 0), key(4, 0)];
    let next = vec![key(4, 0), key(3, 0), key(2, 0), key(5, 0)];

    let merged = merge_requested_tile_keys_for_incremental_pan(&previous, next);
    let cols: Vec<_> = merged.iter().map(|item| item.tile_id.col).collect();

    assert_eq!(cols, vec![2, 3, 4, 5]);
}

#[test]
fn stable_overlap_tile_stays_visible_even_when_later_layers_are_not_revealed() {
    let active_layer = LayerId {
        layer: 1,
        datatype: 0,
    };
    let later_layer = LayerId {
        layer: 2,
        datatype: 0,
    };
    let overlap_key = TileCacheKey {
        scene_revision: 1,
        zoom_bits: 1.0f32.to_bits(),
        tile_id: TileId { col: 4, row: 0 },
        layer: later_layer,
        effective_mode_tag: 0,
        hatch_signature: 0,
        effective_hatch_style_tag: 0,
    };
    let revealed_layers = vec![active_layer];
    let stable_overlap = vec![overlap_key];

    assert!(should_display_cached_tile_key(
        overlap_key,
        &stable_overlap,
        false,
        Some(active_layer),
        0,
        0,
        &revealed_layers,
    ));
}

#[test]
fn non_overlap_later_layer_tile_stays_hidden_until_revealed() {
    let active_layer = LayerId {
        layer: 1,
        datatype: 0,
    };
    let later_layer = LayerId {
        layer: 2,
        datatype: 0,
    };
    let later_key = TileCacheKey {
        scene_revision: 1,
        zoom_bits: 1.0f32.to_bits(),
        tile_id: TileId { col: 5, row: 0 },
        layer: later_layer,
        effective_mode_tag: 0,
        hatch_signature: 0,
        effective_hatch_style_tag: 0,
    };
    let revealed_layers = vec![active_layer];

    assert!(!should_display_cached_tile_key(
        later_key,
        &[],
        false,
        Some(active_layer),
        0,
        0,
        &revealed_layers,
    ));
}

#[test]
fn small_pending_sets_bypass_progressive_mode() {
    assert_eq!(compute_effective_build_budget(4, 16, 8), (4, true));
    assert_eq!(compute_effective_build_budget(0, 16, 8), (0, false));
    assert_eq!(compute_effective_build_budget(20, 16, 8), (16, false));
}

#[test]
fn interaction_view_freezes_only_when_we_have_a_stable_view() {
    assert!(should_freeze_interaction_view(true, true));
    assert!(!should_freeze_interaction_view(true, false));
    assert!(!should_freeze_interaction_view(false, true));
}

#[test]
fn active_display_budget_grows_progressively_for_same_layer() {
    let layer = LayerId {
        layer: 5,
        datatype: 0,
    };
    let mut active_display_layer = None;
    let mut active_display_budget = 0usize;

    advance_active_display_budget(
        &mut active_display_layer,
        &mut active_display_budget,
        Some(layer),
        false,
        Some(ActiveLayerProgressMode::Progressive),
        3,
    );
    advance_active_display_budget(
        &mut active_display_layer,
        &mut active_display_budget,
        Some(layer),
        false,
        Some(ActiveLayerProgressMode::Progressive),
        3,
    );

    assert_eq!(active_display_layer, Some(layer));
    assert_eq!(active_display_budget, 6);
}

#[test]
fn bypassed_active_display_layer_reveals_all_entries_immediately() {
    let layer = LayerId {
        layer: 5,
        datatype: 0,
    };
    let mut active_display_layer = None;
    let mut active_display_budget = 0usize;

    advance_active_display_budget(
        &mut active_display_layer,
        &mut active_display_budget,
        Some(layer),
        false,
        Some(ActiveLayerProgressMode::Bypassed),
        2,
    );

    assert_eq!(active_display_layer, Some(layer));
    assert_eq!(active_display_budget, usize::MAX);
}

#[test]
fn display_gate_reveals_only_completed_prefix_and_active_layer() {
    let layer_a = LayerId {
        layer: 1,
        datatype: 0,
    };
    let layer_b = LayerId {
        layer: 2,
        datatype: 0,
    };
    let layer_c = LayerId {
        layer: 3,
        datatype: 0,
    };
    let requested = vec![
        key_for_layer(0, layer_a),
        key_for_layer(1, layer_a),
        key_for_layer(2, layer_b),
        key_for_layer(3, layer_b),
        key_for_layer(4, layer_c),
    ];
    let pending = VecDeque::from([
        PendingTileBuild {
            view_revision: 1,
            tile_key: key_for_layer(2, layer_b),
        },
        PendingTileBuild {
            view_revision: 1,
            tile_key: key_for_layer(4, layer_c),
        },
    ]);

    let revealed = compute_revealed_layers_for_display(&requested, &pending, Some(layer_b));

    assert!(revealed.contains(&layer_a));
    assert!(revealed.contains(&layer_b));
    assert!(!revealed.contains(&layer_c));
}

#[test]
fn requested_layers_keep_layer_major_order_without_duplicates() {
    let layer_a = LayerId {
        layer: 1,
        datatype: 0,
    };
    let layer_b = LayerId {
        layer: 2,
        datatype: 0,
    };
    let ordered = requested_layers_in_order(&[
        key_for_layer(0, layer_a),
        key_for_layer(1, layer_a),
        key_for_layer(2, layer_b),
        key_for_layer(3, layer_b),
    ]);

    assert_eq!(ordered, vec![layer_a, layer_b]);
}

#[test]
fn next_active_layer_prefers_existing_layer_until_it_is_empty() {
    let layer_a = LayerId {
        layer: 1,
        datatype: 1,
    };
    let layer_b = LayerId {
        layer: 2,
        datatype: 0,
    };
    let pending = VecDeque::from([
        PendingTileBuild {
            view_revision: 1,
            tile_key: key_for_layer(0, layer_a),
        },
        PendingTileBuild {
            view_revision: 1,
            tile_key: key_for_layer(1, layer_a),
        },
        PendingTileBuild {
            view_revision: 1,
            tile_key: key_for_layer(2, layer_b),
        },
    ]);

    assert_eq!(next_active_progressive_layer(None, &pending), Some(layer_a));
    assert_eq!(
        next_active_progressive_layer(Some(layer_a), &pending),
        Some(layer_a)
    );
}

#[test]
fn active_layer_switches_after_previous_layer_finishes() {
    let layer_a = LayerId {
        layer: 1,
        datatype: 1,
    };
    let layer_b = LayerId {
        layer: 2,
        datatype: 0,
    };
    let mut pending = VecDeque::from([
        PendingTileBuild {
            view_revision: 1,
            tile_key: key_for_layer(0, layer_a),
        },
        PendingTileBuild {
            view_revision: 1,
            tile_key: key_for_layer(1, layer_b),
        },
    ]);

    let first = pop_next_pending_for_layer(&mut pending, layer_a).expect("first layer item");
    assert_eq!(first.tile_key.layer, layer_a);
    assert_eq!(
        next_active_progressive_layer(Some(layer_a), &pending),
        Some(layer_b)
    );
    assert_eq!(active_layer_pending_count(Some(layer_b), &pending), 1);
}

#[test]
fn small_active_layer_with_small_work_is_bypassed() {
    let stats = LayerPendingStats {
        pending_entries: 4,
        estimated_work_units: 32,
        prepared_fragment_count: 2,
        regular_shape_count: 6,
    };

    assert!(should_bypass_progressive_for_layer(
        stats,
        LayerAdaptiveBypassConfig {
            entry_threshold: 8,
            work_threshold: 64,
        },
    ));
}

#[test]
fn small_active_layer_with_large_work_stays_progressive() {
    let stats = LayerPendingStats {
        pending_entries: 4,
        estimated_work_units: 160,
        prepared_fragment_count: 20,
        regular_shape_count: 10,
    };

    assert!(!should_bypass_progressive_for_layer(
        stats,
        LayerAdaptiveBypassConfig {
            entry_threshold: 8,
            work_threshold: 64,
        },
    ));
}

#[test]
fn large_active_layer_with_small_work_stays_progressive() {
    let stats = LayerPendingStats {
        pending_entries: 12,
        estimated_work_units: 24,
        prepared_fragment_count: 0,
        regular_shape_count: 12,
    };

    assert!(!should_bypass_progressive_for_layer(
        stats,
        LayerAdaptiveBypassConfig {
            entry_threshold: 8,
            work_threshold: 64,
        },
    ));
}

#[test]
fn active_layer_can_bypass_with_temporary_full_layer_budget() {
    let layer = LayerId {
        layer: 10,
        datatype: 0,
    };
    let pending = VecDeque::from([
        PendingTileBuild {
            view_revision: 1,
            tile_key: key_for_layer(0, layer),
        },
        PendingTileBuild {
            view_revision: 1,
            tile_key: key_for_layer(1, layer),
        },
        PendingTileBuild {
            view_revision: 1,
            tile_key: key_for_layer(2, layer),
        },
    ]);

    let stats = LayerPendingStats {
        pending_entries: 3,
        estimated_work_units: 20,
        prepared_fragment_count: 1,
        regular_shape_count: 3,
    };

    let budget = effective_build_budget_for_active_layer(
        pending.len(),
        Some(layer),
        stats,
        2,
        LayerAdaptiveBypassConfig {
            entry_threshold: 4,
            work_threshold: 32,
        },
    );

    assert_eq!(budget, 3);
}

#[test]
fn eviction_prefers_oldest_non_visible_tiles() {
    let a = key(0, 1);
    let b = key(1, 5);
    let c = key(2, 3);
    let tiles = vec![usage(a, 1, 10), usage(b, 5, 10), usage(c, 3, 10)];

    let protected = vec![b];
    let victims = select_tile_eviction_victims(&tiles, 2, usize::MAX, &protected);

    assert_eq!(victims, vec![a]);
}

#[test]
fn tile_cache_eviction_also_respects_byte_budget() {
    let tiles = vec![
        usage(key(0, 0), 1, 70),
        usage(key(1, 0), 2, 60),
        usage(key(2, 0), 3, 10),
    ];

    let victims = select_tile_eviction_victims(&tiles, 8, 100, &[]);

    assert_eq!(victims, vec![key(0, 0)]);
}

#[test]
fn eviction_keeps_everything_within_the_limits() {
    let tiles = vec![usage(key(0, 0), 1, 50), usage(key(1, 0), 2, 50)];
    assert!(select_tile_eviction_victims(&tiles, 2, 100, &[]).is_empty());
    let all = vec![key(0, 0), key(1, 0)];
    assert!(select_tile_eviction_victims(&tiles, 0, 0, &all).is_empty());
    assert_eq!(
        select_tile_eviction_victims(&tiles, 0, 100, &[]),
        vec![key(0, 0), key(1, 0)]
    );
    let huge = vec![usage(key(0, 0), 1, usize::MAX), usage(key(1, 0), 2, usize::MAX)];
    assert_eq!(
        select_tile_eviction_victims(&huge, 2, usize::MAX, &[]),
        vec![key(0, 0)]
    );
}

#[test]
fn direct_hierarchy_far_zoom_suppresses_fill_to_outline() {
    assert_eq!(
        effective_draw_mode_for_current_view(ClosedShapeDrawMode::HatchOutline, true, k(0.01)),
        ClosedShapeDrawMode::Outline
    );
    assert_eq!(
        effective_draw_mode_for_current_view(ClosedShapeDrawMode::Hatch, true, k(0.01)),
        ClosedShapeDrawMode::Outline
    );
    assert_eq!(
        effective_draw_mode_for_current_view(ClosedShapeDrawMode::HatchOutline, true, k(0.2)),
        ClosedShapeDrawMode::HatchOutline
    );
}

#[test]
fn static_cache_hit_can_skip_scene_cache_refresh_work() {
    let view = ViewBits {
        pan_x: 0.0f32.to_bits(),
        pan_y: 0.0f32.to_bits(),
        zoom: 1.0f32.to_bits(),
        canvas_origin_x: 0.0f32.to_bits(),
        canvas_origin_y: 0.0f32.to_bits(),
        canvas_width: 100.0f32.to_bits(),
        canvas_height: 100.0f32.to_bits(),
        viewport_width: 100.0f32.to_bits(),
        viewport_height: 100.0f32.to_bits(),
    };
    let key = build_render_cache_key_with_hatch_styles(
        1,
        view,
        &LayerSet::new(),
        &LayerMap::new(),
        &LayerMap::new(),
        ClosedShapeDrawMode::Outline,
        HatchParams {
            spacing: DEFAULT_HATCH_SPACING,
            width: DEFAULT_HATCH_WIDTH,
        },
        DEFAULT_HATCH_STYLE_PRESET,
    );
    assert!(should_skip_static_cache_refresh(Some(key), key, true, 0, 0));
    assert!(!should_skip_static_cache_refresh(None, key, true, 0, 0));
    assert!(!should_skip_static_cache_refresh(
        Some(key),
        key,
        false,
        0,
        0
    ));
    assert!(!should_skip_static_cache_refresh(
        Some(key),
        key,
        true,
        1,
        0
    ));
    assert!(!should_skip_static_cache_refresh(
        Some(key),
        key,
        true,
        0,
        1
    ));
}

#[test]
fn max_vertices_per_buffer_respects_limit_and_triangle_alignment() {
    let vertex_size = 36;
    let max_vertices = max_vertices_per_buffer_for_limit(vertex_size * 10 + 1, vertex_size);

    assert_eq!(max_vertices, 9);
    assert!(max_vertices * vertex_size <= vertex_size * 10 + 1);
    assert_eq!(max_vertices % 3, 0);
}

#[test]
fn render_debug_stats_include_active_layer_bypass_details() {
    let stats = RenderDebugStats::new(
        9,
        3,
        2,
        1,
        24,
        2,
        2,
        1,
        1,
        4,
        2,
        12,
        64,
        768,
        3,
        2,
        5,
        9,
        6,
        16,
        2,
        Some(LayerId {
            layer: 1,
            datatype: 0,
        }),
        5,
        32,
        Some(ActiveLayerProgressMode::Bypassed),
        false,
        8,
        128,
        true,
        k(10.0),
        k(1.5),
    );

    assert_eq!(
        stats.active_layer,
        Some(LayerId {
            layer: 1,
            datatype: 0
        })
    );
    assert_eq!(stats.active_layer_pending, 5);
    assert_eq!(stats.active_layer_estimated_work, 32);
    assert_eq!(
        stats.active_layer_progress_mode,
        Some(ActiveLayerProgressMode::Bypassed)
    );
    assert_eq!(stats.layer_bypass_entry_threshold, 8);
    assert_eq!(stats.layer_bypass_work_threshold, 128);
}

#[test]
fn overlapping_scissors_meet_in_their_common_part() {
    let a = ScissorRect {
        x: 0,
        y: 0,
        width: 10,
        height: 10,
    };
    let b = ScissorRect {
        x: 4,
        y: 6,
        width: 10,
        height: 10,
    };
    assert_eq!(
        a.intersect(b),
        Some(ScissorRect {
            x: 4,
            y: 6,
            width: 6,
            height: 4,
        })
    );
    let touching = ScissorRect {
        x: 10,
        y: 0,
        width: 5,
        height: 5,
    };
    assert_eq!(a.intersect(touching), None);
}

#[test]
fn byte_budget_grows_with_the_capacity_and_stops_at_the_limit() {
    assert_eq!(tile_cache_byte_budget(2), 2 * 524_288);
    assert_eq!(tile_cache_byte_budget(usize::MAX), usize::MAX);
}

#[test]
fn batch_copies_fill_the_buffers_in_order() {
    let copies = plan_batch_copies(&[4, 4, 1], 6);
    assert_eq!(
        copies,
        vec![
            BatchCopy {
                segment: 0,
                segment_offset: 0,
                buffer: 0,
                buffer_offset: 0,
                vertex_count: 4,
            },
            BatchCopy {
                segment: 1,
                segment_offset: 0,
                buffer: 0,
                buffer_offset: 4,
                vertex_count: 2,
            },
            BatchCopy {
                segment: 1,
                segment_offset: 2,
                buffer: 1,
                buffer_offset: 0,
                vertex_count: 2,
            },
            BatchCopy {
                segment: 2,
                segment_offset: 0,
                buffer: 1,
                buffer_offset: 2,
                vertex_count: 1,
            },
        ]
    );
}

#[test]
fn batch_is_kept_while_the_visible_tiles_are_the_same() {
    let keys = vec![key(0, 0), key(1, 0)];
    let other = vec![key(1, 0), key(0, 0)];
    let hash = hash_visible_tile_keys(&keys);
    assert_eq!(hash, hash_visible_tile_keys(&keys));
    assert_ne!(hash, hash_visible_tile_keys(&other));
    assert!(batch_is_current(Some((hash, 2)), hash, 2));
    assert!(!batch_is_current(Some((hash, 3)), hash, 2));
    assert!(!batch_is_current(None, hash, 2));
}

#[test]
fn vertices_are_split_over_buffers() {
    assert_eq!(split_tile_vertices(0, 6), []);
    assert_eq!(split_tile_vertices(6, 6), [6]);
    assert_eq!(split_tile_vertices(15, 6), [6, 6, 3]);
}
