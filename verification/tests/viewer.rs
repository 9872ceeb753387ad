//! The viewer as a whole: what it shows, when it builds anew, what it remembers.

use std::sync::Arc;

use flayout_wgpu::app::source::{
    clamp_levels, placeholder_scene_bundle_from_layout_bundle, LayoutSource, LevelRange,
    RendererUpdate, Sight, ViewerMath,
};
use flayout_wgpu::app::viewer::actions::{plan_frame, UiStep};
use flayout_wgpu::app::viewer::loading::{reads_hierarchy, Loaded, ViewSwitch};
use flayout_wgpu::app::viewer::{RendererCommand, ViewerState};
use flayout_wgpu::app::{
    react_to_window_event, should_degrade_interaction_render,
    should_rebuild_layout_workset_for_camera, should_request_continuous_redraw,
    should_request_redraw_after_window_event, LoadState, WindowEventKind, WindowReaction,
    INTERACTION_RENDER_DEGRADE_HOLD,
};
use flayout_wgpu::camera::{Camera2D, MAX_ZOOM, MIN_ZOOM};
use flayout_wgpu::coords::{coord_bits, coord_from_bits};
use flayout_wgpu::error::AppError;
use flayout_wgpu::hierarchy::{
    compute_layout_root_max_hierarchy_level, recommended_initial_hierarchy_level_range_for_layout,
};
use flayout_wgpu::layers::{LayerMap, LayerSet};
use flayout_wgpu::layout::{
    LayoutBundle, LayoutCell, LayoutCellId, LayoutInstance, LayoutRepetition, LayoutShape,
    LayoutTransform, LayoutView, LayoutViewMetadata,
};
use flayout_wgpu::persistence::{
    PersistedCamera, PersistedClosedShapeDrawMode, PersistedHatchStylePreset,
    PersistedLayerDrawMode, PersistedLayerHatchStyle, PersistedLayerId, ViewerConfig,
};
use flayout_wgpu::renderer::geometry::{
    ClosedShapeDrawMode, HatchParams, HatchStylePreset, DEFAULT_HATCH_SPACING, DEFAULT_HATCH_WIDTH,
    DEFAULT_TILE_GRID_DIVISIONS,
};
use flayout_wgpu::renderer::{
    DEFAULT_LAYER_BYPASS_ENTRY_THRESHOLD, DEFAULT_LAYER_BYPASS_WORK_THRESHOLD,
    DEFAULT_PROGRESSIVE_BYPASS_THRESHOLD, DEFAULT_TILE_CACHE_CAPACITY,
};
use flayout_wgpu::scene::{
    bounds_from_points, Bounds, LayerId, PlacedOutline, Point, RectShape, Scene, SceneBundle,
    SceneView,
};
use flayout_wgpu::ui::{
    closed_shape_draw_mode_label, hatch_style_is_enabled, hatch_style_label, pick_layer_draw_mode,
    pick_layer_hatch_style, set_layer_visible, slider_values, LevelSliders, UiAction,
};
use flayout_wgpu::view_builder::{PlacementStep, SubtreeScreenLod, ViewShape};
use glam::Vec2;

fn k(value: f32) -> i32 {
    coord_from_bits((value + 0.0).to_bits())
}

fn f(key: i32) -> f32 {
    f32::from_bits(coord_bits(key))
}

fn bounds(min_x: f32, min_y: f32, max_x: f32, max_y: f32) -> Bounds {
    Bounds::new(k(min_x), k(min_y), k(max_x), k(max_y))
}

fn point(x: f32, y: f32) -> Point {
    Point { x: k(x), y: k(y) }
}

fn vec(at: Point) -> Vec2 {
    Vec2::new(f(at.x), f(at.y))
}

fn unvec(at: Vec2) -> Point {
    point(at.x, at.y)
}

fn pad(around: Bounds, width: i32) -> Bounds {
    let half = f(width) * 0.5;
    bounds(
        f(around.min_x) - half,
        f(around.min_y) - half,
        f(around.max_x) + half,
        f(around.max_y) + half,
    )
}

#[derive(Clone, Copy)]
struct Affine {
    x: Vec2,
    y: Vec2,
    shift: Vec2,
}

impl Affine {
    fn identity() -> Self {
        Affine {
            x: Vec2::X,
            y: Vec2::Y,
            shift: Vec2::ZERO,
        }
    }

    fn of(mirror: bool, degrees: f32, scale: f32, shift: Vec2) -> Self {
        let turn = Vec2::from_angle(degrees.to_radians());
        let flip = if mirror { -1.0 } else { 1.0 };
        let scale = scale.abs();
        if degrees == 0.0 {
            return Affine {
                x: Vec2::X * scale,
                y: Vec2::Y * flip * scale,
                shift,
            };
        }
        Affine {
            x: turn.rotate(Vec2::X * scale),
            y: turn.rotate(Vec2::Y * flip * scale),
            shift,
        }
    }

    fn vector(self, v: Vec2) -> Vec2 {
        self.x * v.x + self.y * v.y
    }

    fn point(self, p: Vec2) -> Vec2 {
        self.vector(p) + self.shift
    }

    fn then(self, local: Affine) -> Affine {
        Affine {
            x: self.vector(local.x),
            y: self.vector(local.y),
            shift: self.point(local.shift),
        }
    }

    fn scale(self) -> f32 {
        self.x.length().max(self.y.length())
    }

    fn around(self, local: Bounds) -> Bounds {
        let corners = [
            self.point(Vec2::new(f(local.min_x), f(local.min_y))),
            self.point(Vec2::new(f(local.max_x), f(local.min_y))),
            self.point(Vec2::new(f(local.max_x), f(local.max_y))),
            self.point(Vec2::new(f(local.min_x), f(local.max_y))),
        ];
        let low = corners.iter().fold(corners[0], |a, b| a.min(*b));
        let high = corners.iter().fold(corners[0], |a, b| a.max(*b));
        bounds(low.x, low.y, high.x, high.y)
    }
}

fn along(bundle: &LayoutBundle, root: LayoutCellId, path: &[PlacementStep]) -> Affine {
    let mut at = root;
    let mut total = Affine::identity();
    for step in path {
        let instance = &bundle.cell(at).expect("cell").instances()[step.instance];
        let t = instance.transform();
        let mut shift = vec(t.translation);
        if let Some(LayoutRepetition::RegularGrid {
            column_step,
            row_step,
            ..
        }) = instance.repetition()
        {
            shift += vec(column_step) * step.col as f32 + vec(row_step) * step.row as f32;
        }
        total = total.then(Affine::of(
            t.mirrored_x,
            f(t.rotation_degrees),
            f(t.magnification),
            shift,
        ));
        at = instance.target_cell_id();
    }
    total
}

fn outline_of(
    bundle: &LayoutBundle,
    root: LayoutCellId,
    path: &[PlacementStep],
    id: LayoutCellId,
    index: usize,
) -> PlacedOutline {
    let world = along(bundle, root, path);
    let shape = &bundle.cell(id).expect("cell").local_shapes()[index];
    let points: Vec<Point> = shape
        .points()
        .iter()
        .map(|at| unvec(world.point(vec(*at))))
        .collect();
    let stroke = shape.stroke_width().map(|width| k(f(width) * world.scale()));
    let around = bounds_from_points(&points).expect("points");
    PlacedOutline {
        bounds: match stroke {
            Some(width) => pad(around, width),
            None => around,
        },
        points,
        stroke_width_world: stroke,
    }
}

fn mark_of(around: Bounds, lod: SubtreeScreenLod) -> PlacedOutline {
    let size = (f(lod.min_subtree_screen_extent)
        / f(lod.world_to_screen_scale).max(f32::EPSILON))
    .max(1.0);
    let x = (f(around.min_x) + f(around.max_x)) * 0.5;
    let y = (f(around.min_y) + f(around.max_y)) * 0.5;
    let points = vec![point(x - size * 0.5, y), point(x + size * 0.5, y)];
    let stroke = k(size * 0.5);
    PlacedOutline {
        bounds: pad(bounds_from_points(&points).expect("points"), stroke),
        points,
        stroke_width_world: Some(stroke),
    }
}

fn is_small(around: Bounds, lod: SubtreeScreenLod) -> bool {
    let width = f(around.max_x) - f(around.min_x);
    let height = f(around.max_y) - f(around.min_y);
    width.max(height).max(0.0) * f(lod.world_to_screen_scale).max(0.0)
        < f(lod.min_subtree_screen_extent)
}

fn sample_layer(layer: u32) -> LayerId {
    LayerId { layer, datatype: 0 }
}

fn moved_by(x: f32, y: f32) -> LayoutTransform {
    LayoutTransform {
        translation: point(x, y),
        rotation_degrees: k(0.0),
        magnification: k(1.0),
        mirrored_x: false,
    }
}

fn layout_cell(
    id: u64,
    name: &str,
    shapes: Vec<LayoutShape>,
    instances: Vec<LayoutInstance>,
) -> Arc<LayoutCell> {
    Arc::new(LayoutCell::new(
        LayoutCellId::new(id),
        name.to_string(),
        shapes,
        instances,
    ))
}

fn layout_view(name: &str, id: u64) -> LayoutView {
    LayoutView::new(LayoutViewMetadata::new(
        name.to_string(),
        LayoutCellId::new(id),
    ))
}

fn sample_hierarchical_bundle() -> LayoutBundle {
    let root = layout_cell(
        1,
        "root",
        vec![LayoutShape::rectangle(
            sample_layer(10),
            bounds(0.0, 0.0, 10.0, 10.0),
        )],
        vec![LayoutInstance::with_transform(
            LayoutCellId::new(2),
            bounds(20.0, 0.0, 30.0, 10.0),
            moved_by(20.0, 0.0),
        )],
    );
    let child = layout_cell(
        2,
        "child",
        vec![LayoutShape::rectangle(
            sample_layer(11),
            bounds(0.0, 0.0, 8.0, 8.0),
        )],
        vec![LayoutInstance::with_transform(
            LayoutCellId::new(3),
            bounds(5.0, 5.0, 9.0, 9.0),
            moved_by(5.0, 5.0),
        )],
    );
    let grandchild = layout_cell(
        3,
        "grandchild",
        vec![LayoutShape::rectangle(
            sample_layer(12),
            bounds(0.0, 0.0, 4.0, 4.0),
        )],
        Vec::new(),
    );
    LayoutBundle::new(
        vec![root, child, grandchild],
        vec![layout_view("root", 1), layout_view("child", 2)],
    )
    .expect("hierarchical bundle")
}

fn sample_tiny_subtree_bundle() -> LayoutBundle {
    let step = |target: u64| {
        vec![LayoutInstance::with_transform(
            LayoutCellId::new(target),
            bounds(0.0, 0.0, 1.0, 1.0),
            moved_by(0.0, 0.0),
        )]
    };
    LayoutBundle::new(
        vec![
            layout_cell(10, "root", Vec::new(), step(11)),
            layout_cell(11, "child", Vec::new(), step(12)),
            layout_cell(12, "grandchild", Vec::new(), step(13)),
            layout_cell(13, "great-grandchild", Vec::new(), step(14)),
            layout_cell(
                14,
                "leaf",
                vec![LayoutShape::rectangle(
                    sample_layer(20),
                    bounds(0.0, 0.0, 1.0, 1.0),
                )],
                Vec::new(),
            ),
        ],
        vec![layout_view("root", 10)],
    )
    .expect("tiny subtree bundle")
}

fn sample_large_repetition_bundle() -> LayoutBundle {
    let root = layout_cell(
        30,
        "root",
        vec![LayoutShape::rectangle(
            sample_layer(30),
            bounds(0.0, 0.0, 1.0, 1.0),
        )],
        vec![LayoutInstance::with_transform(
            LayoutCellId::new(31),
            bounds(0.0, 0.0, 10.0, 10.0),
            LayoutTransform::identity(),
        )
        .with_repetition(LayoutRepetition::regular_grid(
            2_000,
            1,
            point(20.0, 0.0),
            point(0.0, 20.0),
        ))],
    );
    let child = layout_cell(
        31,
        "child",
        vec![LayoutShape::rectangle(
            sample_layer(31),
            bounds(0.0, 0.0, 2.0, 2.0),
        )],
        vec![LayoutInstance::with_transform(
            LayoutCellId::new(32),
            bounds(0.0, 0.0, 5.0, 5.0),
            LayoutTransform::identity(),
        )
        .with_repetition(LayoutRepetition::regular_grid(
            2_000,
            1,
            point(10.0, 0.0),
            point(0.0, 10.0),
        ))],
    );
    let leaf = layout_cell(
        32,
        "leaf",
        vec![LayoutShape::rectangle(
            sample_layer(32),
            bounds(0.0, 0.0, 3.0, 3.0),
        )],
        Vec::new(),
    );
    LayoutBundle::new(vec![root, child, leaf], vec![layout_view("root", 30)])
        .expect("large repetition bundle")
}

fn seen(camera: Camera2D, canvas: Point) -> Sight {
    let pan = vec(camera.pan());
    let size = vec(canvas);
    let inverse = 1.0 / f(camera.zoom()).max(f32::EPSILON);
    let low = -pan * inverse;
    let high = (size - pan) * inverse;
    let margin = (high - low).max(Vec2::ZERO) * 0.25;
    Sight {
        visible: bounds(low.x, low.y, high.x, high.y),
        with_margin: bounds(
            low.x - margin.x,
            low.y - margin.y,
            high.x + margin.x,
            high.y + margin.y,
        ),
    }
}

fn drifted(now: i32, before: i32) -> bool {
    let ratio = if f(before).abs() <= f32::EPSILON {
        f32::INFINITY
    } else {
        f(now) / f(before)
    };
    ratio < 1.0 / 1.2 || ratio > 1.2
}

fn math(
    layout: &LayoutBundle,
) -> ViewerMath<
    impl Fn(LayoutCellId, &Vec<PlacementStep>, Bounds) -> Bounds + '_,
    impl Fn(LayoutCellId, &Vec<PlacementStep>, LayoutCellId, usize) -> Bounds + '_,
    impl Fn(Bounds, SubtreeScreenLod) -> bool,
    impl Fn(LayoutCellId, Option<SubtreeScreenLod>, &ViewShape) -> PlacedOutline + '_,
    impl Fn(Camera2D, Point) -> Sight,
    impl Fn(i32, i32) -> bool,
> {
    ViewerMath {
        world: move |root: LayoutCellId, path: &Vec<PlacementStep>, local: Bounds| {
            along(layout, root, path).around(local)
        },
        shape: move |root: LayoutCellId,
                     path: &Vec<PlacementStep>,
                     id: LayoutCellId,
                     index: usize| { outline_of(layout, root, path, id, index).bounds },
        small: is_small,
        outline: move |root: LayoutCellId, lod: Option<SubtreeScreenLod>, shape: &ViewShape| {
            match shape.shape_index {
                Some(index) => outline_of(layout, root, &shape.path, shape.cell_id, index),
                None => mark_of(shape.bounds, lod.expect("level of detail")),
            }
        },
        sight: seen,
        drifted,
    }
}

fn viewer_of(layout: LayoutBundle) -> ViewerState {
    let mut state = ViewerState::new(None);
    state.source = LayoutSource {
        scene_bundle: placeholder_scene_bundle_from_layout_bundle(&layout),
        layout_bundle: Some(layout),
    };
    state.levels.deepest = state.source.available_max_hierarchy_level();
    state
}

#[test]
fn hierarchical_source_rebuilds_scene_when_level_range_changes() {
    let layout = sample_hierarchical_bundle();
    let math = math(&layout);
    let mut app = viewer_of(sample_hierarchical_bundle());

    app.levels.min_level = 0;
    app.levels.max_level = 0;
    app.levels.chosen = true;
    app.refresh_filtered_scene_and_renderer(&math);
    assert_eq!(app.levels.deepest, 2);
    assert_eq!(app.shown.scene.stats().shape_count, 1);
    assert!(app
        .shown
        .scene
        .shapes()
        .iter()
        .all(|shape| shape.hierarchy_level == 0));

    app.levels.max_level = 1;
    app.refresh_filtered_scene_and_renderer(&math);
    assert_eq!(app.shown.scene.stats().shape_count, 2);
    assert_eq!(app.shown.scene.max_hierarchy_level(), 1);

    app.levels.max_level = 2;
    app.refresh_filtered_scene_and_renderer(&math);
    assert_eq!(app.shown.scene.stats().shape_count, 3);
    assert_eq!(app.shown.scene.max_hierarchy_level(), 2);
}

#[test]
fn hierarchical_source_clips_workset_by_visible_world_bounds() {
    let layout = sample_hierarchical_bundle();
    let math = math(&layout);
    let mut app = viewer_of(sample_hierarchical_bundle());

    app.viewpoint.canvas_size = point(15.0, 15.0);
    app.levels.min_level = 0;
    app.levels.max_level = 1;
    app.levels.chosen = true;
    app.viewpoint.initialized = true;

    app.viewpoint.camera.set_state(point(0.0, 0.0), k(1.0));
    app.refresh_filtered_scene_and_renderer(&math);
    assert_eq!(app.shown.scene.stats().shape_count, 1);
    assert_eq!(app.shown.scene.shapes()[0].layer, sample_layer(10));

    app.viewpoint.camera.set_state(point(-20.0, 0.0), k(1.0));
    app.refresh_filtered_scene_and_renderer(&math);
    assert_eq!(app.shown.scene.stats().shape_count, 1);
    assert_eq!(app.shown.scene.shapes()[0].layer, sample_layer(11));
}

#[test]
fn hierarchical_source_skips_tiny_subtrees_when_zoomed_out() {
    let layout = sample_tiny_subtree_bundle();
    let math = math(&layout);
    let mut app = viewer_of(sample_tiny_subtree_bundle());

    app.viewpoint.canvas_size = point(100.0, 100.0);
    app.levels.min_level = 0;
    app.levels.max_level = 5;
    app.levels.chosen = true;
    app.viewpoint.initialized = true;

    app.viewpoint.camera.set_state(point(0.0, 0.0), k(1.0));
    app.refresh_filtered_scene_and_renderer(&math);
    assert_eq!(app.shown.scene.stats().shape_count, 1);
    assert_eq!(app.shown.scene.shapes()[0].layer, sample_layer(20));
    assert!(!app.shown.scene.shapes()[0].closed);

    app.viewpoint.camera.set_state(point(0.0, 0.0), k(4.0));
    app.refresh_filtered_scene_and_renderer(&math);
    assert_eq!(app.shown.scene.stats().shape_count, 1);
    assert_eq!(app.shown.scene.shapes()[0].layer, sample_layer(20));
    assert!(app.shown.scene.shapes()[0].closed);
}

fn fit_scale(around: Bounds, viewport: Point) -> i32 {
    let size = vec(viewport);
    let width = (f(around.max_x) - f(around.min_x)).max(1.0);
    let height = (f(around.max_y) - f(around.min_y)).max(1.0);
    k((size.x.max(1.0) * 0.8 / width).min(size.y.max(1.0) * 0.8 / height))
}

fn fit_pan(around: Bounds, viewport: Point, zoom: i32) -> Point {
    let centre = Vec2::new(
        (f(around.min_x) + f(around.max_x)) * 0.5,
        (f(around.min_y) + f(around.max_y)) * 0.5,
    );
    unvec(vec(viewport) * 0.5 - centre * f(zoom))
}

#[test]
fn hierarchical_fit_scene_uses_full_source_bounds_not_current_workset_bounds() {
    let layout = sample_hierarchical_bundle();
    let math = math(&layout);
    let mut app = viewer_of(sample_hierarchical_bundle());

    app.viewpoint.canvas_size = point(100.0, 100.0);
    app.levels.min_level = 0;
    app.levels.max_level = 2;
    app.levels.chosen = true;
    app.viewpoint.initialized = true;

    app.viewpoint.camera.set_state(point(-50.0, 0.0), k(1.0));
    app.refresh_filtered_scene_and_renderer(&math);
    assert!(
        app.shown
            .scene
            .bounds()
            .map(|around| f(around.min_x))
            .unwrap_or(0.0)
            > 0.0
    );

    app.fit_scene(&fit_scale, &fit_pan);

    assert!(f(app.viewpoint.camera.zoom()) < 4.0);
    assert!(app.viewpoint.initialized);
    app.viewpoint.canvas_size = point(0.0, 100.0);
    let zoom = app.viewpoint.camera.zoom();
    app.fit_scene(&|_, _| k(7.0), &fit_pan);
    assert_eq!(app.viewpoint.camera.zoom(), zoom);
}

#[test]
fn hierarchical_initial_range_for_large_layout_stops_before_budget_explodes() {
    let layout_bundle = sample_large_repetition_bundle();
    let root_id = layout_bundle
        .selected_root_metadata()
        .expect("root metadata")
        .root_cell_id();
    let max_level = compute_layout_root_max_hierarchy_level(&layout_bundle, root_id);

    let (min_level, max_level_selected) =
        recommended_initial_hierarchy_level_range_for_layout(&layout_bundle, root_id, max_level);

    assert_eq!(min_level, 0);
    assert_eq!(max_level, 2);
    assert_eq!(max_level_selected, 1);
}

#[test]
fn large_layout_range_switches_to_direct_hierarchy_tile_render_mode() {
    let layout = sample_large_repetition_bundle();
    let math = math(&layout);
    let mut app = viewer_of(sample_large_repetition_bundle());
    app.levels.min_level = 0;
    app.levels.max_level = 2;
    app.levels.chosen = true;

    let update = app.refresh_filtered_scene_and_renderer(&math);

    assert!(app.shown.tile_render_active);
    assert!(app.shown.scene.shapes().is_empty());
    assert_eq!(
        app.shown.layer_ids,
        vec![sample_layer(30), sample_layer(31), sample_layer(32)]
    );
    assert_eq!(
        app.shown.bounds_hint,
        layout
            .selected_root_cell()
            .and_then(|cell| cell.local_bounds())
    );
    match update {
        RendererUpdate::HierarchyTiles {
            options,
            total_shape_count,
            ..
        } => {
            assert_eq!(options.max_hierarchy_level, 2);
            assert_eq!(total_shape_count, 1 + 2_000 + 4_000_000);
        }
        RendererUpdate::Scene => panic!("drawn tile by tile"),
    }
}

#[test]
fn layout_workset_camera_rebuild_is_skipped_inside_prefetch_margin() {
    let coverage = bounds(-10.0, -10.0, 110.0, 110.0);
    let visible = bounds(0.0, 0.0, 100.0, 100.0);

    assert!(!should_rebuild_layout_workset_for_camera(
        Some(visible),
        k(1.05),
        Some(coverage),
        Some(k(1.0)),
        &drifted,
    ));
}

#[test]
fn layout_workset_camera_rebuild_triggers_when_view_leaves_prefetch_margin() {
    let coverage = bounds(-10.0, -10.0, 110.0, 110.0);
    let visible = bounds(20.0, 0.0, 120.0, 100.0);

    assert!(should_rebuild_layout_workset_for_camera(
        Some(visible),
        k(1.0),
        Some(coverage),
        Some(k(1.0)),
        &drifted,
    ));
}

#[test]
fn layout_workset_camera_rebuild_triggers_when_zoom_changes_too_much() {
    let coverage = bounds(-10.0, -10.0, 110.0, 110.0);
    let visible = bounds(0.0, 0.0, 100.0, 100.0);

    assert!(should_rebuild_layout_workset_for_camera(
        Some(visible),
        k(1.3),
        Some(coverage),
        Some(k(1.0)),
        &drifted,
    ));
    assert!(!should_rebuild_layout_workset_for_camera(
        None,
        k(9.0),
        None,
        None,
        &drifted,
    ));
    assert!(should_rebuild_layout_workset_for_camera(
        Some(visible),
        k(1.0),
        Some(coverage),
        None,
        &drifted,
    ));
}

#[test]
fn layout_workset_camera_rebuild_is_deferred_while_interaction_is_active() {
    let layout = sample_hierarchical_bundle();
    let math = math(&layout);
    let mut app = viewer_of(sample_hierarchical_bundle());
    app.viewpoint.canvas_size = point(15.0, 15.0);
    app.levels.min_level = 0;
    app.levels.max_level = 1;
    app.levels.chosen = true;
    app.viewpoint.initialized = true;

    app.viewpoint.camera.set_state(point(0.0, 0.0), k(1.0));
    app.refresh_filtered_scene_and_renderer(&math);
    let previous_bounds = app.shown.scene.bounds();

    app.viewpoint.camera.set_state(point(-20.0, 0.0), k(1.0));
    let update = app.refresh_layout_scene_if_camera_requires_rebuild(Some(0), &math);

    assert!(update.is_none());
    assert!(app.interaction.rebuild_pending);
    assert_eq!(app.shown.scene.bounds(), previous_bounds);
    assert!(app.wants_next_frame(0, false, None));
}

#[test]
fn layout_workset_camera_rebuild_executes_after_interaction_settles() {
    let layout = sample_hierarchical_bundle();
    let math = math(&layout);
    let mut app = viewer_of(sample_hierarchical_bundle());
    app.viewpoint.canvas_size = point(15.0, 15.0);
    app.levels.min_level = 0;
    app.levels.max_level = 1;
    app.levels.chosen = true;
    app.viewpoint.initialized = true;

    app.viewpoint.camera.set_state(point(0.0, 0.0), k(1.0));
    app.refresh_filtered_scene_and_renderer(&math);

    app.viewpoint.camera.set_state(point(-20.0, 0.0), k(1.0));
    app.interaction.rebuild_pending = true;
    let rested = INTERACTION_RENDER_DEGRADE_HOLD + 1_000_000;
    let (again, update) = app.settle(false, Some(rested), &math);

    assert!(again);
    assert_eq!(update, Some(RendererUpdate::Scene));
    assert!(!app.interaction.rebuild_pending);
    assert_eq!(app.shown.scene.stats().shape_count, 1);
    assert_eq!(app.shown.scene.shapes()[0].layer, sample_layer(11));
    assert!(!app.layout_scene_rebuild_needed_for_current_camera(&math));
    assert_eq!(app.settle(false, Some(rested), &math), (false, None));
}

fn plain_config(path: &str, view: &str) -> ViewerConfig {
    ViewerConfig {
        layout_path: path.to_string(),
        selected_view_name: Some(view.to_string()),
        camera: PersistedCamera {
            pan_x: k(10.0),
            pan_y: k(20.0),
            zoom: k(1.5),
        },
        min_hierarchy_level: Some(0),
        max_hierarchy_level: Some(0),
        hidden_layers: vec![PersistedLayerId {
            layer: 11,
            datatype: 0,
        }],
        layer_draw_modes: Vec::new(),
        layer_hatch_styles: Vec::new(),
        draw_mode: PersistedClosedShapeDrawMode::HatchOutline,
        hatch_spacing: DEFAULT_HATCH_SPACING,
        hatch_width: DEFAULT_HATCH_WIDTH,
        tile_grid_divisions: DEFAULT_TILE_GRID_DIVISIONS,
        tile_cache_capacity: DEFAULT_TILE_CACHE_CAPACITY,
        progressive_bypass_threshold: DEFAULT_PROGRESSIVE_BYPASS_THRESHOLD,
        layer_bypass_entry_threshold: DEFAULT_LAYER_BYPASS_ENTRY_THRESHOLD,
        layer_bypass_work_threshold: DEFAULT_LAYER_BYPASS_WORK_THRESHOLD,
    }
}

#[test]
fn persisted_hierarchical_scene_config_restores_selected_view_and_range() {
    let layout = sample_hierarchical_bundle();
    let math = math(&layout);
    let mut app = viewer_of(sample_hierarchical_bundle());

    app.apply_persisted_scene_config(&plain_config("/tmp/example.gds", "child"), &math);

    assert_eq!(app.source.scene_bundle.selected_index(), 1);
    assert_eq!(
        app.source
            .layout_bundle
            .as_ref()
            .map(LayoutBundle::selected_index),
        Some(1)
    );
    assert_eq!(app.levels.min_level, 0);
    assert_eq!(app.levels.max_level, 0);
    assert_eq!(app.shown.scene.stats().shape_count, 1);
    assert_eq!(app.shown.scene.shapes()[0].layer, sample_layer(11));
    assert_eq!(app.look.hidden_layers.ids(), &[sample_layer(11)]);
    assert_eq!(app.viewpoint.camera.pan(), point(10.0, 20.0));
    assert_eq!(app.viewpoint.camera.zoom(), k(1.5));
}

fn flat_bundle() -> SceneBundle {
    let mut top = RectShape::rectangle(sample_layer(1), bounds(0.0, 0.0, 10.0, 10.0));
    top.hierarchy_level = 0;
    let mut below = RectShape::rectangle(sample_layer(2), bounds(2.0, 2.0, 4.0, 4.0));
    below.hierarchy_level = 3;
    let other = RectShape::rectangle(sample_layer(5), bounds(0.0, 0.0, 1.0, 1.0));
    SceneBundle::new(vec![
        SceneView {
            name: "first".to_string(),
            scene: Arc::new(Scene::from_shapes(vec![top, below])),
        },
        SceneView {
            name: "second".to_string(),
            scene: Arc::new(Scene::from_shapes(vec![other])),
        },
    ])
}

#[test]
fn loading_a_file_shows_it() {
    let layout = sample_hierarchical_bundle();
    let math = math(&layout);
    let mut app = ViewerState::new(None);
    let update = app.finish_load(Loaded::Flat(flat_bundle()), &math);
    assert_eq!(update, RendererUpdate::Scene);
    assert!(matches!(app.load_state, LoadState::Loaded));
    assert_eq!(
        app.levels,
        LevelRange {
            min_level: 0,
            max_level: 3,
            deepest: 3,
            chosen: true,
        }
    );
    assert_eq!(app.shown.scene.stats().shape_count, 2);
    assert_eq!(
        app.look.layer_hatch_styles.entries(),
        &[
            (sample_layer(1), HatchStylePreset::LeftDiagonal),
            (sample_layer(2), HatchStylePreset::RightDiagonal),
        ]
    );

    let update = app.set_max_hierarchy_level(1, &math);
    assert_eq!(update, RendererUpdate::Scene);
    assert_eq!(app.shown.scene.stats().shape_count, 1);
    assert!(app.needs_deeper_load(3));
    assert!(!app.needs_deeper_load(4));
    app.take_deeper_load(flat_bundle());
    app.set_max_hierarchy_level(3, &math);
    assert_eq!(app.shown.scene.stats().shape_count, 2);
    app.set_min_hierarchy_level(2, &math);
    assert_eq!(app.shown.scene.shapes()[0].layer, sample_layer(2));

    app.finish_load(Loaded::Failed(AppError::MissingPath), &math);
    assert_eq!(
        app.load_state.summary(),
        "Load failed: layout path is not configured"
    );
    assert!(app.source.scene_bundle.views().is_empty());
    assert_eq!(app.shown.scene.stats().shape_count, 0);
    assert!(!app.levels.chosen);
}

#[test]
fn loading_a_layout_keeps_it_layered() {
    let layout = sample_hierarchical_bundle();
    let math = math(&layout);
    let mut app = ViewerState::new(None);
    app.finish_load(Loaded::Layout(sample_hierarchical_bundle()), &math);
    assert_eq!(app.levels.deepest, 2);
    assert_eq!(app.shown.scene.stats().shape_count, 3);
    assert_eq!(app.source.scene_bundle.views()[1].name, "child");
    assert!(!app.viewpoint.initialized);
    assert!(reads_hierarchy(Some("GDS")));
    assert!(!reads_hierarchy(Some("oas")));
}

#[test]
fn saved_settings_come_back_with_their_layout() {
    let layout = sample_hierarchical_bundle();
    let math = math(&layout);
    let mut config = plain_config("/tmp/a.gds", "child");
    config.tile_cache_capacity = 64;
    config.layer_draw_modes = vec![PersistedLayerDrawMode {
        layer: PersistedLayerId {
            layer: 11,
            datatype: 0,
        },
        mode: PersistedClosedShapeDrawMode::Outline,
    }];
    config.layer_hatch_styles = vec![PersistedLayerHatchStyle {
        layer: PersistedLayerId {
            layer: 11,
            datatype: 0,
        },
        style: PersistedHatchStylePreset::Dots,
    }];
    let mut app = ViewerState::new(Some(config));
    assert_eq!(app.layout_path, "/tmp/a.gds");
    assert_eq!(app.settings.tile_cache_capacity, 64);
    assert!(app
        .renderer_setup()
        .contains(&RendererCommand::TileCacheCapacity(64)));

    app.set_layout_path("/tmp/b.gds".to_string());
    app.finish_load(Loaded::Layout(sample_hierarchical_bundle()), &math);
    assert_eq!(app.source.scene_bundle.selected_index(), 0);
    assert!(app.pending_restore_config.is_some());

    app.set_layout_path("/tmp/a.gds".to_string());
    app.finish_load(Loaded::Layout(sample_hierarchical_bundle()), &math);
    assert_eq!(app.source.scene_bundle.selected_index(), 1);
    assert_eq!(app.look.hidden_layers.ids(), &[sample_layer(11)]);
    assert_eq!(
        app.look.layer_draw_modes.get(sample_layer(11)),
        Some(ClosedShapeDrawMode::Outline)
    );
    assert_eq!(
        app.look.layer_hatch_styles.get(sample_layer(11)),
        Some(HatchStylePreset::Dots)
    );
    assert!(app.pending_restore_config.is_none());

    let saved = app.collect_viewer_config();
    assert_eq!(saved.selected_view_name.as_deref(), Some("child"));
    assert_eq!(saved.max_hierarchy_level, Some(0));
    assert_eq!(saved.hidden_layers.len(), 1);
    assert_eq!(saved.tile_cache_capacity, 64);
    assert_eq!(saved.camera.zoom, k(1.5));

    app.finish_load(Loaded::Layout(sample_hierarchical_bundle()), &math);
    assert_eq!(app.source.scene_bundle.selected_index(), 0);
    assert!(app.look.hidden_layers.is_empty());
}

#[test]
fn blank_saved_path_leaves_the_default() {
    let app = ViewerState::new(Some(plain_config("  ", "top")));
    assert_eq!(app.layout_path, flayout_wgpu::config::DEFAULT_LAYOUT_PATH);
}

#[test]
fn switching_views_shows_the_other_view() {
    let layout = sample_hierarchical_bundle();
    let math = math(&layout);
    let mut app = ViewerState::new(None);
    app.finish_load(Loaded::Layout(sample_hierarchical_bundle()), &math);
    assert_eq!(app.select_scene_view(0, &math), ViewSwitch::Unchanged);
    assert_eq!(app.select_scene_view(9, &math), ViewSwitch::Unchanged);
    assert_eq!(
        app.select_scene_view(1, &math),
        ViewSwitch::Shown(RendererUpdate::Scene)
    );
    assert_eq!(app.levels.deepest, 1);
    assert_eq!(app.levels.max_level, 1);
    assert_eq!(app.shown.scene.stats().shape_count, 2);

    let mut flat = ViewerState::new(None);
    flat.finish_load(Loaded::Flat(flat_bundle()), &math);
    assert_eq!(flat.select_scene_view(1, &math), ViewSwitch::Reload);
    assert_eq!(flat.finish_select_scene_view(1, None, &math), None);
    assert_eq!(
        flat.finish_select_scene_view(1, Some(flat_bundle()), &math),
        Some(RendererUpdate::Scene)
    );
    assert_eq!(flat.shown.scene.shapes()[0].layer, sample_layer(5));
    assert_eq!(
        flat.finish_select_scene_view(9, Some(flat_bundle()), &math),
        None
    );
    assert_eq!(flat.shown.scene.shapes()[0].layer, sample_layer(5));
    assert_eq!(flat.select_scene_view(0, &math), ViewSwitch::Reload);
    assert_eq!(
        flat.finish_select_scene_view(0, Some(flat_bundle()), &math),
        Some(RendererUpdate::Scene)
    );
    assert_ne!(flat.shown.scene.shapes()[0].layer, sample_layer(5));
}

#[test]
fn levels_stay_within_those_that_there_are() {
    let range = |min_level, max_level| LevelRange {
        min_level,
        max_level,
        deepest: 4,
        chosen: true,
    };
    assert_eq!(clamp_levels(range(1, 9)), range(1, 4));
    assert_eq!(clamp_levels(range(7, 9)), range(4, 4));
    assert_eq!(clamp_levels(range(3, 1)), range(3, 3));
}

#[test]
fn frames_follow_the_plan() {
    let mut hidden = LayerSet::new();
    hidden.insert(sample_layer(1));
    let action = UiAction {
        selected_view: Some(2),
        hidden_layers: Some(hidden),
        draw_mode: Some(ClosedShapeDrawMode::Hatch),
        hatch_params: Some(HatchParams {
            spacing: k(6.0),
            width: k(2.0),
        }),
        max_hierarchy_level: Some(3),
        layer_bypass_work_threshold: Some(9),
        request_reload_layout: true,
        pan_delta: point(1.0, 0.0),
        zoom: Some((k(1.1), point(5.0, 6.0))),
        ..UiAction::default()
    };
    assert_eq!(
        plan_frame(&action),
        vec![
            UiStep::SelectView(2),
            UiStep::HideLayers,
            UiStep::DrawMode(ClosedShapeDrawMode::Hatch),
            UiStep::HatchParams(HatchParams {
                spacing: k(6.0),
                width: k(2.0),
            }),
            UiStep::MaxHierarchyLevel(3),
            UiStep::LayerBypassWorkThreshold(9),
            UiStep::ReloadLayout,
            UiStep::Fit { asked: false },
            UiStep::Pan(point(1.0, 0.0)),
            UiStep::Zoom {
                factor: k(1.1),
                cursor: point(5.0, 6.0),
            },
        ]
    );
    assert_eq!(
        plan_frame(&UiAction::default()),
        vec![UiStep::Fit { asked: false }]
    );
}

#[test]
fn settings_reach_the_renderer() {
    let mut app = ViewerState::new(None);
    assert_eq!(
        app.apply_setting(UiStep::LayerBypassEntryThreshold(3)),
        Some(RendererCommand::LayerBypassThresholds(
            3,
            DEFAULT_LAYER_BYPASS_WORK_THRESHOLD
        ))
    );
    assert_eq!(
        app.apply_setting(UiStep::TileGridDivisions(12)),
        Some(RendererCommand::TileGridDivisions(12))
    );
    let params = HatchParams {
        spacing: k(6.0),
        width: k(2.0),
    };
    assert_eq!(
        app.apply_setting(UiStep::HatchParams(params)),
        Some(RendererCommand::HatchParams(params))
    );
    assert_eq!(app.settings.hatch_params, params);
    assert_eq!(app.apply_setting(UiStep::OpenFile), None);
    assert_eq!(app.settings.tile_grid_divisions, 12);
    assert_eq!(app.settings.layer_bypass_entry_threshold, 3);

    let mut modes = LayerMap::new();
    modes.insert(sample_layer(1), ClosedShapeDrawMode::Outline);
    assert_eq!(
        app.set_layer_draw_modes(modes),
        RendererCommand::LayerDrawModes
    );
    assert_eq!(
        app.set_layer_hatch_styles(LayerMap::new()),
        RendererCommand::LayerHatchStyles
    );
    app.hide_layers(LayerSet::from_layers(&[sample_layer(4)]));
    assert_eq!(app.look.hidden_layers.ids(), &[sample_layer(4)]);
    assert_eq!(
        app.look.layer_draw_modes.get(sample_layer(1)),
        Some(ClosedShapeDrawMode::Outline)
    );
    assert_eq!(app.renderer_setup().len(), 8);
}

#[test]
fn resizing_the_picture_may_call_for_a_new_scene() {
    let layout = sample_hierarchical_bundle();
    let math = math(&layout);
    let mut app = viewer_of(sample_hierarchical_bundle());
    assert_eq!(app.resize_canvas(point(0.0, 50.0), None, &math), None);
    assert_eq!(app.viewpoint.canvas_size, point(1.0, 50.0));
    app.viewpoint.initialized = true;
    app.refresh_filtered_scene_and_renderer(&math);
    assert_eq!(app.resize_canvas(point(1.0, 50.0), None, &math), None);
    assert_eq!(
        app.resize_canvas(point(500.0, 500.0), None, &math),
        Some(RendererUpdate::Scene)
    );
}

#[test]
fn moving_the_view_notes_the_time() {
    let mut app = ViewerState::new(None);
    let sum = |a: Point, b: Point| unvec(vec(a) + vec(b));
    app.pan_view(point(3.0, -2.0), 77, &sum);
    assert_eq!(app.viewpoint.camera.pan(), point(3.0, -2.0));
    assert_eq!(app.interaction.last_moved_at, Some(77));
    assert!(app.interaction.view_dirty);
    assert!(app.viewpoint.initialized);
    app.after_frame(true);
    assert!(app.interaction.view_dirty);
    app.after_frame(false);
    assert!(!app.interaction.view_dirty);
    assert!(!app.wants_next_frame(0, false, Some(INTERACTION_RENDER_DEGRADE_HOLD + 1)));
    assert!(app.wants_next_frame(0, false, Some(INTERACTION_RENDER_DEGRADE_HOLD)));
    app.zoom_view(k(2.0), point(0.0, 0.0), 99, &product, &close, &zoom_pan);
    assert_eq!(app.viewpoint.camera.zoom(), k(2.0));
    assert_eq!(app.interaction.last_moved_at, Some(99));
    assert!(app.should_fit(true));
    assert!(!app.should_fit(false));
    assert!(!app.should_refresh_after_fit());
}

fn product(zoom: i32, factor: i32) -> i32 {
    k(f(zoom) * f(factor))
}

fn close(a: i32, b: i32) -> bool {
    (f(a) - f(b)).abs() < f32::EPSILON
}

fn zoom_pan(pan: Point, cursor: Point, next: i32, previous: i32) -> Point {
    unvec(vec(cursor) + (vec(pan) - vec(cursor)) * (f(next) / f(previous)))
}

#[test]
fn zoom_increases_scale() {
    let mut camera = Camera2D::new();
    let before = camera.zoom();
    camera.zoom_by(
        k(1.25),
        point(100.0, 50.0),
        &product,
        &close,
        &zoom_pan,
    );
    assert!(camera.zoom() > before);
}

#[test]
fn fit_bounds_selects_positive_zoom() {
    let mut camera = Camera2D::new();
    let around = bounds(0.0, 0.0, 100.0, 50.0);
    let viewport = point(800.0, 600.0);
    camera.fit_bounds(around, viewport, fit_scale(around, viewport), &fit_pan);
    assert!((f(camera.zoom()) - 6.4).abs() <= 0.001);
}

#[test]
fn zoom_can_return_to_fit_scale_after_zooming_in() {
    let mut camera = Camera2D::new();
    let around = bounds(0.0, -2225.0, 95730.0, 93505.0);
    let viewport = point(1668.0, 1243.0);
    camera.fit_bounds(around, viewport, fit_scale(around, viewport), &fit_pan);
    let fit_zoom = f(camera.zoom());

    camera.zoom_by(k(8.0), point(800.0, 600.0), &product, &close, &zoom_pan);
    camera.zoom_by(k(0.125), point(800.0, 600.0), &product, &close, &zoom_pan);

    assert!((f(camera.zoom()) - fit_zoom).abs() <= 0.0001);
}

#[test]
fn geometry_projection_keeps_points_in_canvas() {
    let shape = RectShape::rectangle(sample_layer(1), bounds(0.0, 0.0, 10.0, 20.0));
    let scene = Scene::from_shapes(vec![shape.clone()]);

    let mut camera = Camera2D::default();
    let around = scene.bounds().expect("scene bounds");
    let viewport = point(100.0, 100.0);
    camera.fit_bounds(around, viewport, fit_scale(around, viewport), &fit_pan);
    let points: Vec<Vec2> = shape
        .points
        .iter()
        .map(|at| vec(camera.pan()) + vec(*at) * f(camera.zoom()))
        .collect();
    assert_eq!(points.len(), 4);
    assert!(points
        .iter()
        .all(|point| point.x >= 0.0 && point.x <= 100.0));
    assert!(points
        .iter()
        .all(|point| point.y >= 0.0 && point.y <= 100.0));
}

#[test]
fn zoom_stays_within_its_limits() {
    let mut camera = Camera2D::new();
    camera.set_zoom(k(0.0));
    assert_eq!(camera.zoom(), MIN_ZOOM);
    assert_eq!(f(MIN_ZOOM), 0.000_001);
    camera.set_zoom(k(1.0e9));
    assert_eq!(camera.zoom(), MAX_ZOOM);
    assert_eq!(f(MAX_ZOOM), 10_000.0);
    camera.set_state(point(1.0, 2.0), k(3.0));
    assert_eq!(camera.zoom(), k(3.0));
    camera.zoom_by(k(1.0), point(9.0, 9.0), &product, &close, &zoom_pan);
    assert_eq!(camera.pan(), point(1.0, 2.0));
}

#[test]
fn app_pan_helper_moves_camera() {
    let mut camera = Camera2D::new();
    camera.set_state(point(5.0, 6.0), k(1.0));
    camera.translate_screen(point(-2.0, 3.0), &|a: Point, b: Point| {
        unvec(vec(a) + vec(b))
    });
    assert_eq!(camera.pan(), point(3.0, 9.0));
}

#[test]
fn continuous_redraw_only_runs_when_ui_or_progressive_work_needs_it() {
    assert!(should_request_continuous_redraw(3, false));
    assert!(should_request_continuous_redraw(0, true));
    assert!(!should_request_continuous_redraw(0, false));
}

#[test]
fn input_events_wake_redraw_even_without_continuous_mode() {
    assert!(should_request_redraw_after_window_event(
        false,
        WindowEventKind::MouseWheel,
    ));
    assert!(should_request_redraw_after_window_event(
        true,
        WindowEventKind::Focused,
    ));
    assert!(!should_request_redraw_after_window_event(
        false,
        WindowEventKind::Focused,
    ));
}

#[test]
fn window_events_are_answered() {
    assert_eq!(
        react_to_window_event(WindowEventKind::CloseRequested),
        WindowReaction::SaveAndExit
    );
    assert_eq!(
        react_to_window_event(WindowEventKind::Resized),
        WindowReaction::ResizeAndRequestFrame
    );
    assert_eq!(
        react_to_window_event(WindowEventKind::ScaleFactorChanged),
        WindowReaction::RequestFrame
    );
    assert_eq!(
        react_to_window_event(WindowEventKind::RedrawRequested),
        WindowReaction::DrawFrame
    );
    assert_eq!(
        react_to_window_event(WindowEventKind::MouseWheel),
        WindowReaction::Ignore
    );
}

fn millis(count: u64) -> u64 {
    std::time::Duration::from_millis(count).as_nanos() as u64
}

#[test]
fn recent_camera_interaction_temporarily_degrades_closed_shape_rendering() {
    assert!(should_degrade_interaction_render(
        Some(millis(60)),
        millis(120),
    ));
    assert!(!should_degrade_interaction_render(
        Some(millis(180)),
        millis(120),
    ));
    assert!(!should_degrade_interaction_render(None, millis(120)));
    assert_eq!(INTERACTION_RENDER_DEGRADE_HOLD, millis(120));
}

#[test]
fn interaction_dirty_view_requires_follow_up_redraw_after_freeze() {
    let interaction_degraded =
        should_degrade_interaction_render(Some(millis(60)), millis(120));
    assert!(interaction_degraded);
    let interaction_expired =
        should_degrade_interaction_render(Some(millis(180)), millis(120));
    assert!(!interaction_expired);
}

#[test]
fn controls_name_what_they_offer() {
    assert_eq!(
        closed_shape_draw_mode_label(ClosedShapeDrawMode::HatchOutline),
        "Hatch+Outline"
    );
    assert_eq!(
        closed_shape_draw_mode_label(ClosedShapeDrawMode::Outline),
        "Outline"
    );
    assert_eq!(
        closed_shape_draw_mode_label(ClosedShapeDrawMode::Hatch),
        "Hatch"
    );
    assert_eq!(
        hatch_style_label(HatchStylePreset::LeftDiagonal),
        r"LeftDiag (\)"
    );
    assert_eq!(
        hatch_style_label(HatchStylePreset::RightDiagonal),
        "RightDiag (//)"
    );
    assert_eq!(hatch_style_label(HatchStylePreset::Cross), "Cross (XX)");
    assert_eq!(hatch_style_label(HatchStylePreset::Dots), "Dots (..)");
    assert!(hatch_style_is_enabled(ClosedShapeDrawMode::Hatch));
    assert!(!hatch_style_is_enabled(ClosedShapeDrawMode::Outline));
}

#[test]
fn sliders_give_way_to_each_other() {
    let mut sliders = LevelSliders::new(3, 9, 5);
    assert_eq!((sliders.min_level, sliders.max_level), (3, 5));
    sliders.move_max(2);
    assert_eq!((sliders.min_level, sliders.max_level), (2, 2));
    sliders.move_min(4);
    assert_eq!((sliders.min_level, sliders.max_level), (4, 4));
    assert_eq!(sliders.changes(4, 9), (None, Some(4)));
    let low = LevelSliders::new(3, 1, 5);
    assert_eq!((low.min_level, low.max_level), (1, 1));

    let values = slider_values(
        HatchParams {
            spacing: k(1.0),
            width: k(99.0),
        },
        1,
        1_000,
        64,
        2_000,
    );
    assert_eq!(values.hatch_params.spacing, k(4.0));
    assert_eq!(values.hatch_params.width, k(8.0));
    assert_eq!(values.tile_cache_capacity, 32);
    assert_eq!(values.progressive_bypass_threshold, 256);
    assert_eq!(values.layer_bypass_entry_threshold, 64);
    assert_eq!(values.layer_bypass_work_threshold, 1024);
}

#[test]
fn layers_are_set_one_by_one() {
    let mut hidden = LayerSet::new();
    set_layer_visible(&mut hidden, sample_layer(1), false);
    assert!(hidden.contains(sample_layer(1)));
    set_layer_visible(&mut hidden, sample_layer(1), true);
    assert!(hidden.is_empty());

    let all = ClosedShapeDrawMode::HatchOutline;
    let mut modes = LayerMap::new();
    assert!(!pick_layer_draw_mode(&mut modes, sample_layer(1), all, all));
    assert!(pick_layer_draw_mode(
        &mut modes,
        sample_layer(1),
        ClosedShapeDrawMode::Outline,
        all
    ));
    assert_eq!(
        modes.get(sample_layer(1)),
        Some(ClosedShapeDrawMode::Outline)
    );
    assert!(pick_layer_draw_mode(&mut modes, sample_layer(1), all, all));
    assert_eq!(modes.get(sample_layer(1)), None);

    let mut styles = LayerMap::new();
    assert!(!pick_layer_hatch_style(
        &mut styles,
        sample_layer(1),
        HatchStylePreset::LeftDiagonal
    ));
    assert!(pick_layer_hatch_style(
        &mut styles,
        sample_layer(1),
        HatchStylePreset::Cross
    ));
    assert_eq!(styles.get(sample_layer(1)), Some(HatchStylePreset::Cross));
}
