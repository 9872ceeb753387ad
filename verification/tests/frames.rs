//! Frames: what is asked for, built, kept and shown.

use std::cell::RefCell;
use std::collections::VecDeque;
use std::sync::Arc;

use flayout_wgpu::coords::coord_from_bits;
use flayout_wgpu::layers::{LayerMap, LayerSet};
use flayout_wgpu::layout::{
    LayoutBundle, LayoutCell, LayoutCellId, LayoutShape, LayoutView, LayoutViewMetadata,
};
use flayout_wgpu::renderer::content::TileContent;
use flayout_wgpu::renderer::fragments::PreparedTileFragments;
use flayout_wgpu::renderer::geometry::{
    build_hatch_signature, ClosedShapeDrawMode, HatchParams, HatchStylePreset, TileId, ViewBits,
};
use flayout_wgpu::renderer::grid::{CellSpan, TileGridIndex};
use flayout_wgpu::renderer::polygon::ClipEdge;
use flayout_wgpu::renderer::queue::{PendingTileBuild, TileCacheKey};
use flayout_wgpu::renderer::requests::{
    ensure_hierarchy_tile_layer_hints, estimate_active_layer_pending_stats,
    estimate_active_layer_pending_stats_for_option, flatten_layer_major_requested_tile_keys,
    requested_hinted_keys, requested_scene_keys, shown_layers, sort_tile_keys_by_world_center,
    tile_key_for, tiles_without_hint, TileHint, TileLook,
};
use flayout_wgpu::renderer::schedule::frame::{BatchReview, RefreshKind};
use flayout_wgpu::renderer::schedule::refresh::{CacheUpdate, FrameSight};
use flayout_wgpu::renderer::schedule::{BuiltTile, TileSchedule};
use flayout_wgpu::scene::{Bounds, LayerId, Point, RectShape, Scene};
use flayout_wgpu::view_builder::{LayoutViewBuildOptions, PlacementStep, SubtreeScreenLod};

fn k(value: f32) -> i32 {
    coord_from_bits((value + 0.0).to_bits())
}

fn bounds(min_x: f32, min_y: f32, max_x: f32, max_y: f32) -> Bounds {
    Bounds::new(k(min_x), k(min_y), k(max_x), k(max_y))
}

fn layer(layer: u32) -> LayerId {
    LayerId { layer, datatype: 0 }
}

fn tile(col: i32, row: i32) -> TileId {
    TileId { col, row }
}

fn span(min_col: i32, min_row: i32, max_col: i32, max_row: i32) -> CellSpan {
    CellSpan {
        min_col,
        max_col,
        min_row,
        max_row,
    }
}

/// A scene of unit squares on a grid of the given side, one per tile on each layer.
fn squares(side: i32, layers: &[u32]) -> TileContent {
    let mut shapes = Vec::new();
    let mut tile_spans = Vec::new();
    for on in layers {
        for col in 0..side {
            for row in 0..side {
                let (x, y) = (col as f32 * 10.0, row as f32 * 10.0);
                shapes.push(RectShape::rectangle(
                    layer(*on),
                    bounds(x, y, x + 1.0, y + 1.0),
                ));
                tile_spans.push(span(col, row, col, row));
            }
        }
    }
    let shape_spans = vec![span(0, 0, 0, 0); shapes.len()];
    TileContent::of_scene(
        Arc::new(Scene::from_shapes(shapes)),
        side as u32,
        &shape_spans,
        &tile_spans,
        &|_: Point, _: Point| false,
        &|_: ClipEdge, _: Bounds, a: Point, _: Point| a,
        &|_: Bounds, a: Point, b: Point| Some((a, b)),
        &|_: TileId| bounds(0.0, 0.0, 1.0, 1.0),
    )
}

fn sight(pan: f32, zoom: f32, tiles: CellSpan) -> FrameSight {
    FrameSight {
        view: ViewBits {
            pan_x: pan.to_bits(),
            pan_y: 0,
            zoom: zoom.to_bits(),
            canvas_origin_x: 0,
            canvas_origin_y: 0,
            canvas_width: 0,
            canvas_height: 0,
            viewport_width: 0,
            viewport_height: 0,
        },
        zoom: k(zoom),
        cache_zoom_bits: zoom.to_bits(),
        visible_world: bounds(-1.0, -1.0, 1000.0, 1000.0),
        tile_span: tiles,
        shape_span: span(0, 0, 100, 100),
    }
}

fn everything() -> CellSpan {
    span(0, 0, 100, 100)
}

const BUILT: BuiltTile = BuiltTile {
    vertex_count: 6,
    segment_count: 1,
    byte_size: 100,
};

struct Frame {
    update: CacheUpdate,
    built: Vec<TileCacheKey>,
    sent: Vec<TileCacheKey>,
}

fn run(
    schedule: &mut TileSchedule,
    content: &TileContent,
    sight: FrameSight,
    hidden: &[u32],
) -> Frame {
    let built = RefCell::new(Vec::new());
    let sent = RefCell::new(Vec::new());
    let hidden: Vec<LayerId> = hidden.iter().map(|on| layer(*on)).collect();
    let update = schedule.update_scene_cache(
        content,
        &sight,
        &LayerSet::from_layers(&hidden),
        &|at: TileId| (at.col + at.row) as u64,
        &|key: TileCacheKey| {
            built.borrow_mut().push(key);
            Some(BUILT)
        },
        &|_: u64, key: TileCacheKey| {
            sent.borrow_mut().push(key);
            true
        },
    );
    Frame {
        update,
        built: built.into_inner(),
        sent: sent.into_inner(),
    }
}

#[test]
fn first_frame_builds_and_the_second_has_nothing_to_do() {
    let content = squares(3, &[1]);
    let mut schedule = TileSchedule::new();
    let first = run(&mut schedule, &content, sight(0.0, 1.0, everything()), &[]);
    assert!(first.update.started_over);
    assert_eq!(first.update.kind, RefreshKind::Rebuild);
    assert_eq!(first.built.len(), 9);
    assert_eq!(schedule.visible_tile_keys().len(), 9);
    assert_eq!(schedule.pending_count(), 0);
    let stats = schedule.debug_stats();
    assert_eq!(stats.total_shapes, 9);
    assert_eq!(stats.visible_shapes, 9);
    assert_eq!(stats.visible_tiles, 9);
    assert_eq!(stats.layer_cache_hits, 9);
    assert_eq!(stats.vertex_count, 54);
    assert_eq!(stats.cache_bytes, 900);
    assert!(stats.progressive_bypassed);
    assert!(!stats.cache_hit);
    assert!(schedule.has_stable_view());

    let second = run(&mut schedule, &content, sight(0.0, 1.0, everything()), &[]);
    assert!(!second.update.started_over);
    assert_eq!(second.update.kind, RefreshKind::Skip);
    assert!(second.built.is_empty());
    assert!(schedule.debug_stats().cache_hit);
}

#[test]
fn large_views_are_completed_layer_by_layer() {
    let content = squares(6, &[1, 2]);
    let mut schedule = TileSchedule::new();
    schedule.set_progressive_bypass_threshold(0);
    schedule.set_layer_bypass_thresholds(0, 0);
    let view = sight(0.0, 1.0, everything());

    let first = run(&mut schedule, &content, view, &[]);
    assert_eq!(first.built.len(), 16);
    assert!(first.built.iter().all(|key| key.layer == layer(1)));
    assert_eq!(schedule.pending_count(), 56);
    assert_eq!(schedule.visible_tile_keys().len(), 16);
    assert!(!schedule.debug_stats().cache_hit);

    let mut frames = 1;
    let mut order = first.built.clone();
    while schedule.pending_count() > 0 {
        let next = run(&mut schedule, &content, view, &[]);
        assert_eq!(next.update.kind, RefreshKind::Keep);
        assert!(next.built.len() <= 16);
        order.extend(next.built);
        frames += 1;
        assert!(frames < 10);
    }
    assert_eq!(order.len(), 72);
    assert!(order[..36].iter().all(|key| key.layer == layer(1)));
    assert!(order[36..].iter().all(|key| key.layer == layer(2)));
    assert_eq!(frames, 5);
    assert_eq!(schedule.visible_tile_keys().len(), 72);
    assert_eq!(
        run(&mut schedule, &content, view, &[]).update.kind,
        RefreshKind::Skip
    );
}

#[test]
fn light_layers_are_completed_at_once() {
    let content = squares(5, &[1]);
    let mut schedule = TileSchedule::new();
    schedule.set_progressive_bypass_threshold(0);
    schedule.set_layer_bypass_thresholds(25, 1024);
    let first = run(&mut schedule, &content, sight(0.0, 1.0, everything()), &[]);
    assert_eq!(first.built.len(), 25);
    assert!(!schedule.debug_stats().progressive_bypassed);
}

#[test]
fn pan_keeps_what_was_built() {
    let content = squares(4, &[1]);
    let mut schedule = TileSchedule::new();
    run(&mut schedule, &content, sight(0.0, 1.0, span(0, 0, 1, 1)), &[]);
    assert_eq!(schedule.visible_tile_keys().len(), 4);
    let revision = schedule.view_revision();

    let panned = run(&mut schedule, &content, sight(5.0, 1.0, span(1, 0, 2, 1)), &[]);
    assert_eq!(panned.update.kind, RefreshKind::Rebuild);
    assert!(!panned.update.started_over);
    assert_eq!(schedule.view_revision(), revision);
    assert_eq!(panned.built.len(), 2);
    assert!(panned.built.iter().all(|key| key.tile_id.col == 2));
    assert_eq!(schedule.cached_tiles().len(), 6);
    assert_eq!(schedule.visible_tile_keys().len(), 4);

    let zoomed = run(&mut schedule, &content, sight(5.0, 2.0, span(1, 0, 2, 1)), &[]);
    assert!(zoomed.update.started_over);
    assert_eq!(zoomed.built.len(), 4);
    assert_eq!(schedule.cached_tiles().len(), 4);
}

#[test]
fn hidden_layers_are_not_asked_for() {
    let content = squares(2, &[1, 2]);
    let mut schedule = TileSchedule::new();
    let shown = run(&mut schedule, &content, sight(0.0, 1.0, everything()), &[1]);
    assert_eq!(shown.built.len(), 4);
    assert!(shown.built.iter().all(|key| key.layer == layer(2)));
    let both = run(&mut schedule, &content, sight(0.0, 1.0, everything()), &[]);
    assert_eq!(both.built.len(), 4);
    assert!(both.built.iter().all(|key| key.layer == layer(1)));
    assert_eq!(schedule.visible_tile_keys().len(), 8);
}

#[test]
fn empty_entries_are_remembered() {
    let content = squares(2, &[1]);
    let mut schedule = TileSchedule::new();
    let calls = RefCell::new(0);
    for _ in 0..3 {
        schedule.update_scene_cache(
            &content,
            &sight(0.0, 1.0, everything()),
            &LayerSet::new(),
            &|_: TileId| 0,
            &|_: TileCacheKey| {
                *calls.borrow_mut() += 1;
                None
            },
            &|_: u64, _: TileCacheKey| false,
        );
    }
    assert_eq!(*calls.borrow(), 4);
    assert!(schedule.visible_tile_keys().is_empty());
    assert_eq!(schedule.pending_count(), 0);
}

#[test]
fn settings_drop_what_was_built() {
    let content = squares(2, &[1]);
    let mut schedule = TileSchedule::new();
    let view = sight(0.0, 1.0, everything());
    run(&mut schedule, &content, view, &[]);
    assert_eq!(schedule.draw_mode(), ClosedShapeDrawMode::HatchOutline);
    schedule.set_draw_mode(ClosedShapeDrawMode::Hatch);
    assert_eq!(schedule.draw_mode(), ClosedShapeDrawMode::Hatch);
    assert!(schedule.cached_tiles().is_empty());
    assert!(!schedule.has_stable_view());
    assert_eq!(run(&mut schedule, &content, view, &[]).built.len(), 4);

    schedule.set_draw_mode(ClosedShapeDrawMode::Hatch);
    assert_eq!(schedule.cached_tiles().len(), 4);
    schedule.set_hatch_style(HatchStylePreset::Cross);
    assert!(schedule.cached_tiles().is_empty());
    assert_eq!(schedule.hatch_style(), HatchStylePreset::Cross);
    schedule.set_hatch_params(HatchParams {
        spacing: k(1.0),
        width: k(9.0),
    });
    assert_eq!(schedule.hatch_params().spacing, k(2.0));
    assert_eq!(schedule.hatch_params().width, k(2.0));
    run(&mut schedule, &content, view, &[]);
    let same = schedule.hatch_params();
    schedule.set_hatch_params(same);
    assert!(schedule.has_stable_view());
    schedule.set_hatch_params(HatchParams {
        spacing: k(f32::NAN),
        width: k(f32::NAN),
    });
    assert_eq!(schedule.hatch_params().spacing, k(2.0));
    assert!(!schedule.has_stable_view());
    run(&mut schedule, &content, view, &[]);
    let odd = schedule.hatch_params();
    schedule.set_hatch_params(odd);
    assert!(!schedule.has_stable_view());
    assert!(schedule.set_tile_grid_divisions(5));
    assert!(!schedule.set_tile_grid_divisions(5));
    assert_eq!(schedule.tile_grid_divisions(), 5);

    let mut modes = LayerMap::new();
    modes.insert(layer(1), ClosedShapeDrawMode::Hatch);
    modes.insert(layer(9), ClosedShapeDrawMode::Hatch);
    schedule.set_layer_draw_modes(modes);
    let mut styles = LayerMap::new();
    styles.insert(layer(9), HatchStylePreset::Dots);
    schedule.set_layer_hatch_styles(styles);
    let revision = schedule.scene_revision();
    schedule.update_scene(&[layer(1)]);
    assert_eq!(schedule.scene_revision(), revision.wrapping_add(1));
    assert_eq!(schedule.layer_draw_modes().entries().len(), 1);
    assert!(schedule.layer_hatch_styles().entries().is_empty());
    schedule.update_hierarchy_tile_source();
    assert!(schedule.layer_draw_modes().entries().is_empty());
}

#[test]
fn surplus_entries_are_dropped_and_shown_ones_kept() {
    let content = squares(8, &[1]);
    let mut schedule = TileSchedule::new();
    assert_eq!(schedule.tile_cache_capacity(), 512);
    schedule.set_tile_cache_capacity(1);
    assert_eq!(schedule.tile_cache_capacity(), 32);
    schedule.set_progressive_bypass_threshold(256);
    let all = run(&mut schedule, &content, sight(0.0, 1.0, everything()), &[]);
    assert!(all.update.dropped.is_empty());
    assert_eq!(schedule.cached_tiles().len(), 64);

    let part = run(&mut schedule, &content, sight(1.0, 1.0, span(0, 0, 1, 7)), &[]);
    assert_eq!(part.update.dropped.len(), 32);
    assert!(part.update.dropped.iter().all(|key| key.tile_id.col > 1));
    assert_eq!(schedule.cached_tiles().len(), 32);
    assert_eq!(schedule.debug_stats().cache_evictions, 32);

    schedule.set_tile_cache_capacity(5000);
    assert_eq!(schedule.tile_cache_capacity(), 4096);
}

fn layout_content(layers: &[u32]) -> TileContent {
    let options = LayoutViewBuildOptions::new(LayoutCellId::new(1), 0, 3);
    let mut content = TileContent::of_layout(
        options,
        layers.iter().map(|on| layer(*on)).collect(),
        bounds(0.0, 0.0, 100.0, 100.0),
        1234,
        8,
    );
    assert_eq!(content.grid.divisions(), 1);
    let tiles = content.hierarchy.as_mut().expect("layout");
    assert_eq!(
        tiles.base_options.visible_world_bounds,
        Some(bounds(0.0, 0.0, 100.0, 100.0))
    );
    tiles.hints.push(TileHint {
        tile: tile(0, 0),
        layers: layers.iter().map(|on| layer(*on)).collect(),
    });
    content
}

#[test]
fn builds_of_layouts_are_handed_out_and_taken_back() {
    let content = layout_content(&[1, 2]);
    assert_eq!(content.total_shapes(), 1234);
    let mut schedule = TileSchedule::new();
    let view = sight(0.0, 1.0, everything());
    let first = run(&mut schedule, &content, view, &[]);
    assert!(first.built.is_empty());
    assert_eq!(first.sent.len(), 2);
    assert_eq!(schedule.in_flight_count(), 2);
    assert_eq!(schedule.pending_count(), 0);
    assert!(schedule.visible_tile_keys().is_empty());

    let waiting = run(&mut schedule, &content, view, &[]);
    assert_eq!(waiting.update.kind, RefreshKind::Keep);
    assert!(waiting.sent.is_empty());

    schedule.advance_tick();
    let revision = schedule.view_revision();
    assert!(schedule.accept_result(revision, first.sent[0], Some(BUILT)));
    assert_eq!(schedule.in_flight_count(), 1);
    let partly = run(&mut schedule, &content, view, &[]);
    assert_eq!(partly.update.kind, RefreshKind::Keep);
    assert_eq!(schedule.visible_tile_keys(), &vec![first.sent[0]]);
    assert_eq!(schedule.debug_stats().total_shapes, 1234);
    assert!(schedule.accept_result(revision, first.sent[1], None));
    assert_eq!(schedule.in_flight_count(), 0);
    let taken = run(&mut schedule, &content, view, &[]);
    assert_eq!(taken.update.kind, RefreshKind::Skip);
    assert!(!schedule.debug_stats().cache_hit);
    let settled = run(&mut schedule, &content, view, &[]);
    assert_eq!(settled.update.kind, RefreshKind::Skip);
    assert!(schedule.debug_stats().cache_hit);

    let late = first.sent[0];
    assert!(!schedule.accept_result(revision.wrapping_sub(1), late, Some(BUILT)));
    assert_eq!(schedule.cached_tiles().len(), 1);
}

#[test]
fn finished_builds_are_shown_while_others_are_under_way() {
    let content = layout_content(&[1, 2, 3]);
    let mut schedule = TileSchedule::new();
    let view = sight(0.0, 1.0, everything());
    let first = run(&mut schedule, &content, view, &[]);
    assert_eq!(first.sent.len(), 3);
    assert!(!schedule.debug_stats().cache_hit);
    let revision = schedule.view_revision();
    for key in &first.sent[..2] {
        assert!(schedule.accept_result(revision, *key, Some(BUILT)));
    }
    let shown = run(&mut schedule, &content, view, &[]);
    assert_eq!(shown.update.kind, RefreshKind::Keep);
    assert_eq!(schedule.visible_tile_keys(), &first.sent[..2].to_vec());

    assert!(schedule.accept_result(revision, first.sent[2], Some(BUILT)));
    let last = run(&mut schedule, &content, view, &[]);
    assert_eq!(last.update.kind, RefreshKind::Skip);
    assert!(!schedule.debug_stats().cache_hit);
    assert_eq!(schedule.visible_tile_keys().len(), 2);
    assert_eq!(schedule.cached_tiles().len(), 3);

    let moved = run(&mut schedule, &content, sight(1.0, 1.0, everything()), &[]);
    assert_eq!(moved.update.kind, RefreshKind::Rebuild);
    assert_eq!(schedule.visible_tile_keys().len(), 3);
}

#[test]
fn frames_tell_what_they_drop() {
    let content = squares(8, &[1]);
    let mut schedule = TileSchedule::new();
    schedule.set_progressive_bypass_threshold(64);
    schedule.set_tile_cache_capacity(32);
    let left = run(&mut schedule, &content, sight(0.0, 1.0, span(0, 0, 3, 7)), &[]);
    assert_eq!(left.built.len(), 32);
    assert!(left.update.dropped.is_empty());
    let right = run(&mut schedule, &content, sight(5.0, 1.0, span(4, 0, 7, 7)), &[]);
    assert_eq!(right.built.len(), 32);
    assert_eq!(right.update.dropped.len(), 32);
    assert!(right.update.dropped.iter().all(|key| left.built.contains(key)));
    assert_eq!(schedule.cached_tiles().len(), 32);
    let still = run(&mut schedule, &content, sight(5.0, 1.0, span(4, 0, 7, 7)), &[]);
    assert_eq!(still.update.kind, RefreshKind::Skip);
    assert!(still.update.dropped.is_empty());
}

#[test]
fn layouts_far_out_are_drawn_by_their_outlines() {
    let content = layout_content(&[1]);
    let mut schedule = TileSchedule::new();
    schedule.set_draw_mode(ClosedShapeDrawMode::Hatch);
    let near = run(&mut schedule, &content, sight(0.0, 1.0, everything()), &[]);
    assert_eq!(
        near.sent[0].effective_mode_tag,
        ClosedShapeDrawMode::Hatch.as_tag()
    );
    let far = run(&mut schedule, &content, sight(0.0, 0.01, everything()), &[]);
    assert_eq!(
        far.sent[0].effective_mode_tag,
        ClosedShapeDrawMode::Outline.as_tag()
    );
}

#[test]
fn builds_that_are_not_taken_wait() {
    let content = layout_content(&[1, 2, 3]);
    let mut schedule = TileSchedule::new();
    schedule.update_scene_cache(
        &content,
        &sight(0.0, 1.0, everything()),
        &LayerSet::new(),
        &|_: TileId| 0,
        &|_: TileCacheKey| None,
        &|_: u64, key: TileCacheKey| key.layer == layer(1),
    );
    assert_eq!(schedule.in_flight_count(), 1);
    assert_eq!(schedule.pending_count(), 2);
}

#[test]
fn batch_follows_the_visible_set() {
    let content = layout_content(&[1, 2]);
    let mut schedule = TileSchedule::new();
    let view = sight(0.0, 1.0, everything());
    let first = run(&mut schedule, &content, view, &[]);
    let revision = schedule.view_revision();
    schedule.accept_result(revision, first.sent[0], Some(BUILT));
    run(&mut schedule, &content, view, &[]);
    assert_eq!(schedule.review_display_batch(false), BatchReview::Dropped);
    assert_eq!(schedule.review_display_batch(true), BatchReview::Wanted);
    schedule.install_display_batch(true);
    assert_eq!(schedule.review_display_batch(true), BatchReview::Kept);
    assert_eq!(schedule.visible_draw_segment_count_for_current_view(), 1);
    schedule.report_draws(3, Some(50));
    assert_eq!(schedule.debug_stats().draw_calls, 3);
    assert_eq!(schedule.debug_stats().cache_bytes, 150);
    assert!(schedule.resize(10, 10));
    assert!(!schedule.resize(0, 10));
    assert_eq!(schedule.review_display_batch(true), BatchReview::Wanted);
}

fn look() -> TileLook {
    TileLook {
        scene_revision: 3,
        zoom_bits: 7,
        hatch_signature: build_hatch_signature(HatchParams {
            spacing: k(8.0),
            width: k(1.0),
        }),
        draw_mode: ClosedShapeDrawMode::Outline,
        hatch_style: HatchStylePreset::LeftDiagonal,
    }
}

fn plain_key(at: TileId, on: u32) -> TileCacheKey {
    tile_key_for(look(), &LayerMap::new(), &LayerMap::new(), at, layer(on))
}

#[test]
fn keys_tell_how_their_layer_is_drawn() {
    let mut modes = LayerMap::new();
    modes.insert(layer(2), ClosedShapeDrawMode::Hatch);
    let mut styles = LayerMap::new();
    styles.insert(layer(2), HatchStylePreset::Dots);
    let own = tile_key_for(look(), &modes, &styles, tile(0, 1), layer(2));
    assert_eq!(own.effective_mode_tag, ClosedShapeDrawMode::Hatch.as_tag());
    assert_eq!(own.effective_hatch_style_tag, HatchStylePreset::Dots.as_tag());
    assert_eq!(own.tile_id, tile(0, 1));
    assert_eq!(own.scene_revision, 3);
    let other = tile_key_for(look(), &modes, &styles, tile(0, 1), layer(1));
    assert_eq!(
        other.effective_mode_tag,
        ClosedShapeDrawMode::Outline.as_tag()
    );
}

#[test]
fn requests_come_layer_by_layer_from_the_middle() {
    let keys = [
        plain_key(tile(0, 0), 5),
        plain_key(tile(0, 0), 1),
        plain_key(tile(1, 1), 1),
        plain_key(tile(1, 1), 9),
    ];
    let rank = |at: TileId| if at == tile(1, 1) { 0 } else { 10 };
    let ordered = flatten_layer_major_requested_tile_keys(&keys, &[layer(5), layer(1)], &rank);
    assert_eq!(ordered, [keys[0], keys[2], keys[1], keys[3]]);

    let sorted = sort_tile_keys_by_world_center(&keys, &rank);
    assert_eq!(sorted, [keys[2], keys[3], keys[0], keys[1]]);
}

#[test]
fn scene_tiles_ask_for_their_shown_layers() {
    let content = squares(2, &[1, 2]);
    let keys = requested_scene_keys(
        &[tile(0, 0), tile(1, 0)],
        &content.grid,
        &content.prepared,
        &LayerSet::from_layers(&[layer(1)]),
        look(),
        &LayerMap::new(),
        &LayerMap::new(),
    );
    assert_eq!(keys, [plain_key(tile(0, 0), 2), plain_key(tile(1, 0), 2)]);

    let hints = vec![TileHint {
        tile: tile(1, 0),
        layers: vec![layer(1), layer(4)],
    }];
    let keys = requested_hinted_keys(
        &[tile(0, 0), tile(1, 0)],
        &hints,
        &LayerSet::from_layers(&[layer(1)]),
        look(),
        &LayerMap::new(),
        &LayerMap::new(),
    );
    assert_eq!(keys, [plain_key(tile(1, 0), 4)]);
    assert_eq!(
        tiles_without_hint(&[tile(0, 0), tile(1, 0), tile(0, 0)], &hints),
        [tile(0, 0)]
    );
    let shown = shown_layers(&[layer(4), layer(1)], &LayerSet::new());
    assert_eq!(shown.ids(), [layer(1), layer(4)]);
}

#[test]
fn hints_are_added_once() {
    let root = LayoutCellId::new(1);
    let bundle = LayoutBundle::new(
        vec![Arc::new(LayoutCell::new(
            root,
            String::from("root"),
            vec![LayoutShape::rectangle(layer(3), bounds(0.0, 0.0, 10.0, 10.0))],
            vec![],
        ))],
        vec![LayoutView::new(LayoutViewMetadata::new(String::from("root"), root))],
    )
    .expect("bundle");
    let grid = TileGridIndex::build_for_bounds(2);
    let mut hints = vec![TileHint {
        tile: tile(1, 1),
        layers: vec![layer(7)],
    }];
    for _ in 0..2 {
        ensure_hierarchy_tile_layer_hints(
            &mut hints,
            &bundle,
            LayoutViewBuildOptions::new(root, 0, 0),
            &grid,
            &[tile(0, 0), tile(1, 1), tile(1, 0)],
            &|_: &Vec<PlacementStep>, local: Bounds| local,
            &|_: &Vec<PlacementStep>, _: LayoutCellId, _: usize| bounds(0.0, 0.0, 10.0, 10.0),
            &|_: Bounds, _: SubtreeScreenLod| false,
            &|_: Bounds| span(0, 0, 0, 0),
            &|at: TileId| {
                let (x, y) = (at.col as f32 * 50.0, at.row as f32 * 50.0);
                bounds(x, y, x + 50.0, y + 50.0)
            },
        );
    }
    assert_eq!(hints.len(), 3);
    assert_eq!(hints[0].layers, [layer(7)]);
    assert_eq!((hints[1].tile, hints[1].layers.clone()), (tile(0, 0), vec![layer(3)]));
    assert_eq!((hints[2].tile, hints[2].layers.clone()), (tile(1, 0), vec![]));
}

#[test]
fn work_of_a_layer_is_estimated() {
    let content = squares(2, &[1, 2]);
    let pending: VecDeque<PendingTileBuild> = [(0, 0, 1), (1, 0, 1), (0, 0, 2)]
        .into_iter()
        .map(|(col, row, on)| PendingTileBuild {
            view_revision: 1,
            tile_key: plain_key(tile(col, row), on),
        })
        .collect();
    let stats =
        estimate_active_layer_pending_stats(layer(1), &pending, &content.prepared, &content.grid);
    assert_eq!(stats.pending_entries, 2);
    assert_eq!(stats.regular_shape_count, 2);
    assert_eq!(stats.prepared_fragment_count, 0);
    assert_eq!(stats.estimated_work_units, 2 + 2 * 2);
    let none = estimate_active_layer_pending_stats_for_option(
        None,
        &pending,
        &PreparedTileFragments::default(),
        &content.grid,
    );
    assert_eq!(none.pending_entries, 0);
}
