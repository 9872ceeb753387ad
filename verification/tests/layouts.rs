//! Layouts that are not flattened, and the views built of them.

use std::sync::Arc;

use flayout_wgpu::coords::{coord_bits, coord_from_bits};
use flayout_wgpu::hierarchy::{
    collect_layout_layers_for_range, compute_layout_root_max_hierarchy_level,
    estimate_layout_root_level_costs, estimated_layout_range_cost, LayoutHierarchyLevelCost,
};
use flayout_wgpu::layout::{
    LayoutBundle, LayoutBundleError, LayoutCell, LayoutCellId, LayoutInstance, LayoutRepetition,
    LayoutShape, LayoutTransform, LayoutView, LayoutViewMetadata,
};
use flayout_wgpu::scene::{
    bounds_from_points, Bounds, LayerId, PlacedOutline, Point, RectShape, Scene,
};
use flayout_wgpu::view_builder::{
    build_layout_view_scene, visit_layout_shape_bounds_in_view, visit_layout_shapes_in_view,
    LayoutViewBuildError, LayoutViewBuildOptions, PlacementStep, SubtreeScreenLod, ViewShape,
};
use flayout_wgpu::workset::build_workset;
use glam::Vec2;

fn k(value: f32) -> i32 {
    coord_from_bits((value + 0.0).to_bits())
}

fn f(key: i32) -> f32 {
    f32::from_bits(coord_bits(key))
}

fn bounds(min_x: f32, min_y: f32, max_x: f32, max_y: f32) -> Bounds {
    Bounds::new(k(min_x), k(min_y), k(max_x), k(max_y))
}

fn point(x: f32, y: f32) -> Point {
    Point { x: k(x), y: k(y) }
}

fn vec(at: Point) -> Vec2 {
    Vec2::new(f(at.x), f(at.y))
}

fn unvec(at: Vec2) -> Point {
    point(at.x, at.y)
}

fn pad(around: Bounds, width: i32) -> Bounds {
    let half = f(width) * 0.5;
    bounds(
        f(around.min_x) - half,
        f(around.min_y) - half,
        f(around.max_x) + half,
        f(around.max_y) + half,
    )
}

#[derive(Clone, Copy)]
struct Affine {
    x: Vec2,
    y: Vec2,
    shift: Vec2,
}

impl Affine {
    fn identity() -> Self {
        Affine {
            x: Vec2::X,
            y: Vec2::Y,
            shift: Vec2::ZERO,
        }
    }

    fn of(mirror: bool, degrees: f32, scale: f32, shift: Vec2) -> Self {
        let turn = Vec2::from_angle(degrees.to_radians());
        let flip = if mirror { -1.0 } else { 1.0 };
        let scale = scale.abs();
        if degrees == 0.0 {
            return Affine {
                x: Vec2::X * scale,
                y: Vec2::Y * flip * scale,
                shift,
            };
        }
        Affine {
            x: turn.rotate(Vec2::X * scale),
            y: turn.rotate(Vec2::Y * flip * scale),
            shift,
        }
    }

    fn vector(self, v: Vec2) -> Vec2 {
        self.x * v.x + self.y * v.y
    }

    fn point(self, p: Vec2) -> Vec2 {
        self.vector(p) + self.shift
    }

    fn then(self, local: Affine) -> Affine {
        Affine {
            x: self.vector(local.x),
            y: self.vector(local.y),
            shift: self.point(local.shift),
        }
    }

    fn scale(self) -> f32 {
        self.x.length().max(self.y.length())
    }

    fn around(self, local: Bounds) -> Bounds {
        let corners = [
            self.point(Vec2::new(f(local.min_x), f(local.min_y))),
            self.point(Vec2::new(f(local.max_x), f(local.min_y))),
            self.point(Vec2::new(f(local.max_x), f(local.max_y))),
            self.point(Vec2::new(f(local.min_x), f(local.max_y))),
        ];
        let low = corners.iter().fold(corners[0], |a, b| a.min(*b));
        let high = corners.iter().fold(corners[0], |a, b| a.max(*b));
        bounds(low.x, low.y, high.x, high.y)
    }
}

fn along(bundle: &LayoutBundle, root: LayoutCellId, path: &[PlacementStep]) -> Affine {
    let mut at = root;
    let mut total = Affine::identity();
    for step in path {
        let instance = &bundle.cell(at).expect("cell").instances()[step.instance];
        let t = instance.transform();
        let mut shift = vec(t.translation);
        if let Some(LayoutRepetition::RegularGrid {
            column_step,
            row_step,
            ..
        }) = instance.repetition()
        {
            shift += vec(column_step) * step.col as f32 + vec(row_step) * step.row as f32;
        }
        total = total.then(Affine::of(
            t.mirrored_x,
            f(t.rotation_degrees),
            f(t.magnification),
            shift,
        ));
        at = instance.target_cell_id();
    }
    total
}

fn outline_of(
    bundle: &LayoutBundle,
    root: LayoutCellId,
    path: &[PlacementStep],
    id: LayoutCellId,
    index: usize,
) -> PlacedOutline {
    let world = along(bundle, root, path);
    let shape = &bundle.cell(id).expect("cell").local_shapes()[index];
    let points: Vec<Point> = shape
        .points()
        .iter()
        .map(|at| unvec(world.point(vec(*at))))
        .collect();
    let stroke = shape.stroke_width().map(|width| k(f(width) * world.scale()));
    let around = bounds_from_points(&points).expect("points");
    PlacedOutline {
        bounds: match stroke {
            Some(width) => pad(around, width),
            None => around,
        },
        points,
        stroke_width_world: stroke,
    }
}

fn mark_of(around: Bounds, lod: SubtreeScreenLod) -> PlacedOutline {
    let size = (f(lod.min_subtree_screen_extent)
        / f(lod.world_to_screen_scale).max(f32::EPSILON))
    .max(1.0);
    let x = (f(around.min_x) + f(around.max_x)) * 0.5;
    let y = (f(around.min_y) + f(around.max_y)) * 0.5;
    let points = vec![point(x - size * 0.5, y), point(x + size * 0.5, y)];
    let stroke = k(size * 0.5);
    PlacedOutline {
        bounds: pad(bounds_from_points(&points).expect("points"), stroke),
        points,
        stroke_width_world: Some(stroke),
    }
}

fn is_small(around: Bounds, lod: SubtreeScreenLod) -> bool {
    let width = f(around.max_x) - f(around.min_x);
    let height = f(around.max_y) - f(around.min_y);
    width.max(height).max(0.0) * f(lod.world_to_screen_scale).max(0.0)
        < f(lod.min_subtree_screen_extent)
}

fn view_scene(bundle: &LayoutBundle, options: LayoutViewBuildOptions) -> Scene {
    let root = options.root_cell_id;
    let world = |path: &Vec<PlacementStep>, local: Bounds| along(bundle, root, path).around(local);
    let shape = |path: &Vec<PlacementStep>, id: LayoutCellId, index: usize| {
        outline_of(bundle, root, path, id, index).bounds
    };
    let outline = |shape: &ViewShape| match shape.shape_index {
        Some(index) => outline_of(bundle, root, &shape.path, shape.cell_id, index),
        None => mark_of(shape.bounds, options.subtree_screen_lod.expect("lod")),
    };
    build_workset(bundle, options, &world, &shape, &is_small, &outline)
}

fn sample_layer(layer: u32, datatype: u32) -> LayerId {
    LayerId { layer, datatype }
}

fn sample_polygon(layer: LayerId) -> LayoutShape {
    LayoutShape::polygon(
        layer,
        vec![
            point(0.0, 0.0),
            point(4.0, 0.0),
            point(4.0, 2.0),
            point(0.0, 2.0),
        ],
    )
}

#[test]
fn hierarchical_layout_cell_preserves_local_geometry_details() {
    let polygon = sample_polygon(sample_layer(1, 0));
    let path = LayoutShape::path(
        sample_layer(2, 1),
        vec![point(10.0, 1.0), point(14.0, 1.0)],
        k(2.0),
        pad(bounds(10.0, 1.0, 14.0, 1.0), k(2.0)),
    );
    let cell = LayoutCell::new(
        LayoutCellId::new(7),
        "leaf".to_string(),
        vec![polygon.clone(), path.clone()],
        Vec::new(),
    );

    assert_eq!(cell.id(), LayoutCellId::new(7));
    assert_eq!(cell.name(), "leaf");
    assert_eq!(cell.local_shapes().len(), 2);
    assert_eq!(cell.instances().len(), 0);
    assert_eq!(cell.local_shape_count(), 2);
    assert_eq!(cell.local_instance_count(), 0);
    assert_eq!(cell.local_shapes()[0].points(), polygon.points());
    assert!(cell.local_shapes()[0].closed());
    assert_eq!(cell.local_shapes()[0].stroke_width(), None);
    assert_eq!(cell.local_shapes()[1].points(), path.points());
    assert!(!cell.local_shapes()[1].closed());
    assert_eq!(cell.local_shapes()[1].stroke_width(), Some(k(2.0)));
    assert_eq!(
        cell.local_shapes()[1].bounds(),
        bounds(9.0, 0.0, 15.0, 2.0)
    );
    assert_eq!(cell.local_bounds(), Some(bounds(0.0, 0.0, 15.0, 2.0)));
    assert_eq!(
        cell.local_layers(),
        &[sample_layer(1, 0), sample_layer(2, 1)]
    );
}

#[test]
fn hierarchical_layout_instance_preserves_array_repetition_without_eager_expansion() {
    let child_id = LayoutCellId::new(11);
    let child = Arc::new(LayoutCell::new(
        child_id,
        "child".to_string(),
        vec![sample_polygon(sample_layer(2, 1))],
        Vec::new(),
    ));
    let instance = LayoutInstance::with_transform(
        child_id,
        bounds(20.0, 30.0, 240.0, 140.0),
        LayoutTransform {
            translation: point(20.0, 30.0),
            rotation_degrees: k(90.0),
            magnification: k(2.0),
            mirrored_x: true,
        },
    )
    .with_repetition(LayoutRepetition::regular_grid(
        3,
        2,
        point(100.0, 0.0),
        point(0.0, 80.0),
    ));
    let parent = LayoutCell::new(LayoutCellId::new(12), "parent".to_string(), Vec::new(), vec![instance]);

    let bundle = LayoutBundle::new(
        vec![Arc::new(parent), Arc::clone(&child)],
        vec![LayoutView::new(LayoutViewMetadata::new("top".to_string(),
            LayoutCellId::new(12),
        ))],
    )
    .expect("bundle should build");

    let parent = bundle.cell(LayoutCellId::new(12)).expect("parent cell");
    let bundled_child = bundle.cell(child_id).expect("child cell");
    let instance = &parent.instances()[0];

    assert_eq!(instance.target_cell_id(), child_id);
    assert_eq!(
        instance.local_bounds(),
        bounds(20.0, 30.0, 240.0, 140.0)
    );
    assert_eq!(instance.transform().translation, point(20.0, 30.0));
    assert_eq!(instance.transform().rotation_degrees, k(90.0));
    assert_eq!(instance.transform().magnification, k(2.0));
    assert!(instance.transform().mirrored_x);
    assert_eq!(
        instance.repetition(),
        Some(LayoutRepetition::regular_grid(
            3,
            2,
            point(100.0, 0.0),
            point(0.0, 80.0),
        ))
    );
    assert_eq!(parent.local_shapes().len(), 0);
    assert_eq!(parent.local_instance_count(), 1);
    assert_eq!(bundled_child.local_shapes().len(), 1);
}

#[test]
fn hierarchical_layout_bundle_rejects_missing_root_cell() {
    let root_id = LayoutCellId::new(21);
    let child = LayoutCell::new(
        LayoutCellId::new(22),
        "child".to_string(),
        vec![sample_polygon(sample_layer(3, 0))],
        Vec::new(),
    );

    let error = LayoutBundle::new(
        vec![Arc::new(child)],
        vec![LayoutView::new(LayoutViewMetadata::new("top".to_string(), root_id))],
    )
    .expect_err("missing root should fail");

    assert_eq!(error, LayoutBundleError::MissingRootCell(root_id));
}

#[test]
fn hierarchical_layout_bundle_rejects_dangling_instance_target() {
    let root_id = LayoutCellId::new(31);
    let missing_child_id = LayoutCellId::new(32);
    let root = LayoutCell::new(
        root_id,
        "root".to_string(),
        Vec::new(),
        vec![LayoutInstance::new(
            missing_child_id,
            bounds(0.0, 0.0, 10.0, 10.0),
        )],
    );

    let error = LayoutBundle::new(
        vec![Arc::new(root)],
        vec![LayoutView::new(LayoutViewMetadata::new("top".to_string(), root_id))],
    )
    .expect_err("dangling instance target should fail");

    assert_eq!(
        error,
        LayoutBundleError::DanglingInstanceTarget {
            owner_cell_id: root_id,
            target_cell_id: missing_child_id,
        }
    );
}

#[test]
fn hierarchical_layout_bundle_exposes_selected_root_metadata_without_flat_scene() {
    let root_id = LayoutCellId::new(41);
    let child_id = LayoutCellId::new(42);

    let root = LayoutCell::new(
        root_id,
        "root".to_string(),
        vec![sample_polygon(sample_layer(4, 0))],
        vec![LayoutInstance::new(
            child_id,
            bounds(10.0, 10.0, 20.0, 20.0),
        )],
    );
    let child = LayoutCell::new(
        child_id,
        "child".to_string(),
        vec![sample_polygon(sample_layer(5, 0))],
        Vec::new(),
    );

    let mut bundle = LayoutBundle::new(
        vec![Arc::new(root), Arc::new(child)],
        vec![
            LayoutView::new(LayoutViewMetadata::new("top".to_string(), root_id)),
            LayoutView::new(LayoutViewMetadata::new("child".to_string(), child_id)),
        ],
    )
    .expect("bundle should build");

    assert_eq!(
        bundle
            .selected_root_metadata()
            .map(LayoutViewMetadata::name),
        Some("top")
    );
    assert_eq!(
        bundle.selected_root_cell().map(LayoutCell::name),
        Some("root")
    );

    assert!(bundle.select(1));
    assert_eq!(
        bundle
            .selected_root_metadata()
            .map(LayoutViewMetadata::name),
        Some("child")
    );
    assert_eq!(
        bundle.selected_root_cell().map(LayoutCell::name),
        Some("child")
    );
}

#[test]
fn view_builder_can_filter_single_layer() {
    let root_id = LayoutCellId::new(1);
    let layer_a = sample_layer(10, 0);
    let layer_b = sample_layer(11, 0);
    let root = Arc::new(LayoutCell::new(
        root_id,
        "root".to_string(),
        vec![
            LayoutShape::rectangle(layer_a, bounds(0.0, 0.0, 10.0, 10.0)),
            LayoutShape::rectangle(layer_b, bounds(20.0, 0.0, 30.0, 10.0)),
        ],
        vec![],
    ));
    let bundle = LayoutBundle::new(
        vec![root],
        vec![LayoutView::new(LayoutViewMetadata::new("root".to_string(), root_id))],
    )
    .expect("bundle");

    let scene = view_scene(
        &bundle,
        LayoutViewBuildOptions::new(root_id, 0, 0).with_layer_filter(Some(layer_b)),
    );

    assert_eq!(scene.stats().shape_count, 1);
    assert_eq!(scene.shapes()[0].layer, layer_b);
}

#[test]
fn view_builder_expands_only_requested_hierarchy_levels() {
    let root_id = LayoutCellId::new(100);
    let child_id = LayoutCellId::new(101);
    let grandchild_id = LayoutCellId::new(102);
    let layer_root = sample_layer(10, 0);
    let layer_child = sample_layer(11, 0);
    let layer_grandchild = sample_layer(12, 0);

    let root = Arc::new(LayoutCell::new(
        root_id,
        "root".to_string(),
        vec![LayoutShape::rectangle(
            layer_root,
            bounds(0.0, 0.0, 10.0, 10.0),
        )],
        vec![LayoutInstance::with_transform(
            child_id,
            bounds(20.0, 0.0, 30.0, 10.0),
            LayoutTransform {
                translation: point(20.0, 0.0),
                rotation_degrees: k(0.0),
                magnification: k(1.0),
                mirrored_x: false,
            },
        )],
    ));
    let child = Arc::new(LayoutCell::new(
        child_id,
        "child".to_string(),
        vec![LayoutShape::rectangle(
            layer_child,
            bounds(0.0, 0.0, 8.0, 8.0),
        )],
        vec![LayoutInstance::with_transform(
            grandchild_id,
            bounds(5.0, 5.0, 9.0, 9.0),
            LayoutTransform {
                translation: point(5.0, 5.0),
                rotation_degrees: k(0.0),
                magnification: k(1.0),
                mirrored_x: false,
            },
        )],
    ));
    let grandchild = Arc::new(LayoutCell::new(
        grandchild_id,
        "grandchild".to_string(),
        vec![LayoutShape::rectangle(
            layer_grandchild,
            bounds(0.0, 0.0, 4.0, 4.0),
        )],
        Vec::new(),
    ));
    let bundle = LayoutBundle::new(
        vec![root, child, grandchild],
        vec![LayoutView::new(LayoutViewMetadata::new("root".to_string(), root_id))],
    )
    .expect("bundle should build");

    let root_only = view_scene(
        &bundle,
        LayoutViewBuildOptions::new(root_id, 0, 0).with_visible_world_bounds(None),
    );
    assert_eq!(root_only.stats().shape_count, 1);
    assert!(
        root_only
            .shapes()
            .iter()
            .all(|shape| shape.hierarchy_level == 0)
    );
    assert_eq!(root_only.shapes()[0].layer, layer_root);

    let child_only = view_scene(
        &bundle,
        LayoutViewBuildOptions::new(root_id, 1, 1).with_visible_world_bounds(None),
    );
    assert_eq!(child_only.stats().shape_count, 1);
    assert!(
        child_only
            .shapes()
            .iter()
            .all(|shape| shape.hierarchy_level == 1)
    );
    assert_eq!(child_only.shapes()[0].layer, layer_child);

    let grandchild_only = view_scene(
        &bundle,
        LayoutViewBuildOptions::new(root_id, 2, 2).with_visible_world_bounds(None),
    );
    assert_eq!(grandchild_only.stats().shape_count, 1);
    assert!(
        grandchild_only
            .shapes()
            .iter()
            .all(|shape| shape.hierarchy_level == 2)
    );
    assert_eq!(grandchild_only.shapes()[0].layer, layer_grandchild);
}

#[test]
fn view_builder_skips_offscreen_subtrees_when_visible_world_is_provided() {
    let root_id = LayoutCellId::new(200);
    let child_id = LayoutCellId::new(201);
    let target_layer = sample_layer(20, 0);

    let root = Arc::new(LayoutCell::new(
        root_id,
        "root".to_string(),
        Vec::new(),
        vec![
            LayoutInstance::with_transform(
                child_id,
                bounds(0.0, 0.0, 10.0, 10.0),
                LayoutTransform {
                    translation: point(0.0, 0.0),
                    rotation_degrees: k(0.0),
                    magnification: k(1.0),
                    mirrored_x: false,
                },
            ),
            LayoutInstance::with_transform(
                child_id,
                bounds(1000.0, 1000.0, 1010.0, 1010.0),
                LayoutTransform {
                    translation: point(1000.0, 1000.0),
                    rotation_degrees: k(0.0),
                    magnification: k(1.0),
                    mirrored_x: false,
                },
            ),
        ],
    ));
    let child = Arc::new(LayoutCell::new(
        child_id,
        "leaf".to_string(),
        vec![LayoutShape::rectangle(
            target_layer,
            bounds(0.0, 0.0, 10.0, 10.0),
        )],
        Vec::new(),
    ));
    let bundle = LayoutBundle::new(
        vec![root, child],
        vec![LayoutView::new(LayoutViewMetadata::new("root".to_string(), root_id))],
    )
    .expect("bundle should build");

    let scene = view_scene(
        &bundle,
        LayoutViewBuildOptions::new(root_id, 0, 4)
            .with_visible_world_bounds(Some(bounds(-50.0, -50.0, 50.0, 50.0))),
    );

    assert_eq!(scene.stats().shape_count, 1);
    assert_eq!(scene.shapes()[0].layer, target_layer);
    assert_eq!(scene.shapes()[0].bounds, bounds(0.0, 0.0, 10.0, 10.0));
}

#[test]
fn view_builder_expands_regular_grid_instances_into_flat_workset_shapes() {
    let root_id = LayoutCellId::new(300);
    let child_id = LayoutCellId::new(301);
    let layer = sample_layer(30, 0);

    let root = Arc::new(LayoutCell::new(
        root_id,
        "root".to_string(),
        Vec::new(),
        vec![
            LayoutInstance::with_transform(
                child_id,
                bounds(10.0, 20.0, 32.0, 42.0),
                LayoutTransform {
                    translation: point(10.0, 20.0),
                    rotation_degrees: k(0.0),
                    magnification: k(1.0),
                    mirrored_x: false,
                },
            )
            .with_repetition(LayoutRepetition::regular_grid(
                2,
                2,
                point(20.0, 0.0),
                point(0.0, 20.0),
            )),
        ],
    ));
    let child = Arc::new(LayoutCell::new(
        child_id,
        "via".to_string(),
        vec![LayoutShape::rectangle(
            layer,
            bounds(0.0, 0.0, 2.0, 2.0),
        )],
        Vec::new(),
    ));
    let bundle = LayoutBundle::new(
        vec![root, child],
        vec![LayoutView::new(LayoutViewMetadata::new("root".to_string(), root_id))],
    )
    .expect("bundle should build");

    let scene = view_scene(
        &bundle,
        LayoutViewBuildOptions::new(root_id, 0, 3).with_visible_world_bounds(None),
    );

    let mut mins: Vec<(i32, i32)> = scene
        .shapes()
        .iter()
        .map(|shape| {
            (
                f(shape.bounds.min_x).round() as i32,
                f(shape.bounds.min_y).round() as i32,
            )
        })
        .collect();
    mins.sort_unstable();

    assert_eq!(scene.stats().shape_count, 4);
    assert_eq!(mins, vec![(10, 20), (10, 40), (30, 20), (30, 40)]);
}

#[test]
fn view_builder_preserves_path_stroke_width_through_expansion() {
    let root_id = LayoutCellId::new(400);
    let child_id = LayoutCellId::new(401);
    let layer = sample_layer(40, 0);

    let root = Arc::new(LayoutCell::new(
        root_id,
        "root".to_string(),
        Vec::new(),
        vec![LayoutInstance::with_transform(
            child_id,
            bounds(50.0, 60.0, 70.0, 80.0),
            LayoutTransform {
                translation: point(50.0, 60.0),
                rotation_degrees: k(0.0),
                magnification: k(2.0),
                mirrored_x: false,
            },
        )],
    ));
    let child = Arc::new(LayoutCell::new(
        child_id,
        "path-cell".to_string(),
        vec![LayoutShape::path(
            layer,
            vec![point(0.0, 0.0), point(10.0, 0.0)],
            k(3.0),
            pad(bounds(0.0, 0.0, 10.0, 0.0), k(3.0)),
        )],
        Vec::new(),
    ));
    let bundle = LayoutBundle::new(
        vec![root, child],
        vec![LayoutView::new(LayoutViewMetadata::new("root".to_string(), root_id))],
    )
    .expect("bundle should build");

    let scene = view_scene(
        &bundle,
        LayoutViewBuildOptions::new(root_id, 0, 3).with_visible_world_bounds(None),
    );

    assert_eq!(scene.stats().shape_count, 1);
    assert_eq!(scene.shapes()[0].stroke_width_world, Some(k(6.0)));
    assert_eq!(scene.shapes()[0].points[0], point(50.0, 60.0));
    assert_eq!(scene.shapes()[0].points[1], point(70.0, 60.0));
}

#[test]
fn view_builder_can_skip_tiny_subtrees_by_screen_extent() {
    let root_id = LayoutCellId::new(500);
    let child_id = LayoutCellId::new(501);
    let grandchild_id = LayoutCellId::new(502);
    let layer = sample_layer(50, 0);

    let root = Arc::new(LayoutCell::new(
        root_id,
        "root".to_string(),
        Vec::new(),
        vec![LayoutInstance::with_transform(
            child_id,
            bounds(0.0, 0.0, 1.0, 1.0),
            LayoutTransform {
                translation: point(0.0, 0.0),
                rotation_degrees: k(0.0),
                magnification: k(1.0),
                mirrored_x: false,
            },
        )],
    ));
    let child = Arc::new(LayoutCell::new(
        child_id,
        "child".to_string(),
        Vec::new(),
        vec![LayoutInstance::with_transform(
            grandchild_id,
            bounds(0.0, 0.0, 1.0, 1.0),
            LayoutTransform {
                translation: point(0.0, 0.0),
                rotation_degrees: k(0.0),
                magnification: k(1.0),
                mirrored_x: false,
            },
        )],
    ));
    let grandchild = Arc::new(LayoutCell::new(
        grandchild_id,
        "leaf".to_string(),
        vec![LayoutShape::rectangle(
            layer,
            bounds(0.0, 0.0, 1.0, 1.0),
        )],
        Vec::new(),
    ));
    let bundle = LayoutBundle::new(
        vec![root, child, grandchild],
        vec![LayoutView::new(LayoutViewMetadata::new("root".to_string(), root_id))],
    )
    .expect("bundle should build");

    let skipped = view_scene(
        &bundle,
        LayoutViewBuildOptions::new(root_id, 0, 3)
            .with_visible_world_bounds(None)
            .with_subtree_screen_lod(k(1.0), k(2.0), 2),
    );
    assert_eq!(skipped.stats().shape_count, 1);
    assert_eq!(skipped.shapes()[0].layer, layer);
    assert!(!skipped.shapes()[0].closed);
    assert_eq!(skipped.shapes()[0].points.len(), 2);

    let expanded = view_scene(
        &bundle,
        LayoutViewBuildOptions::new(root_id, 0, 3)
            .with_visible_world_bounds(None)
            .with_subtree_screen_lod(k(4.0), k(2.0), 2),
    );
    assert_eq!(expanded.stats().shape_count, 1);
    assert_eq!(expanded.shapes()[0].layer, layer);
}

#[test]
fn view_builder_does_not_collapse_shallow_subtrees_before_min_level() {
    let root_id = LayoutCellId::new(510);
    let child_id = LayoutCellId::new(511);
    let grandchild_id = LayoutCellId::new(512);
    let layer = sample_layer(51, 0);

    let root = Arc::new(LayoutCell::new(
        root_id,
        "root".to_string(),
        Vec::new(),
        vec![LayoutInstance::with_transform(
            child_id,
            bounds(0.0, 0.0, 1.0, 1.0),
            LayoutTransform {
                translation: point(0.0, 0.0),
                rotation_degrees: k(0.0),
                magnification: k(1.0),
                mirrored_x: false,
            },
        )],
    ));
    let child = Arc::new(LayoutCell::new(
        child_id,
        "child".to_string(),
        Vec::new(),
        vec![LayoutInstance::with_transform(
            grandchild_id,
            bounds(0.0, 0.0, 1.0, 1.0),
            LayoutTransform {
                translation: point(0.0, 0.0),
                rotation_degrees: k(0.0),
                magnification: k(1.0),
                mirrored_x: false,
            },
        )],
    ));
    let grandchild = Arc::new(LayoutCell::new(
        grandchild_id,
        "leaf".to_string(),
        vec![LayoutShape::rectangle(
            layer,
            bounds(0.0, 0.0, 1.0, 1.0),
        )],
        Vec::new(),
    ));
    let bundle = LayoutBundle::new(
        vec![root, child, grandchild],
        vec![LayoutView::new(LayoutViewMetadata::new("root".to_string(), root_id))],
    )
    .expect("bundle should build");

    let expanded = view_scene(
        &bundle,
        LayoutViewBuildOptions::new(root_id, 0, 3)
            .with_visible_world_bounds(None)
            .with_subtree_screen_lod(k(1.0), k(2.0), 4),
    );

    assert_eq!(expanded.stats().shape_count, 1);
    assert!(expanded.shapes()[0].closed);
    assert!(expanded.shapes()[0].points.len() > 2);
}

fn two_level_bundle() -> LayoutBundle {
    let root_id = LayoutCellId::new(1);
    let child_id = LayoutCellId::new(2);
    let root = Arc::new(LayoutCell::new(
        root_id,
        "root".to_string(),
        vec![LayoutShape::rectangle(
            sample_layer(1, 0),
            bounds(0.0, 0.0, 10.0, 10.0),
        )],
        vec![
            LayoutInstance::new(child_id, bounds(0.0, 0.0, 61.0, 2.0)).with_repetition(
                LayoutRepetition::regular_grid(3, 1, point(20.0, 0.0), point(0.0, 0.0)),
            ),
            LayoutInstance::new(child_id, bounds(0.0, 0.0, 1.0, 2.0)),
        ],
    ));
    let child = Arc::new(LayoutCell::new(
        child_id,
        "child".to_string(),
        vec![
            LayoutShape::rectangle(sample_layer(2, 0), bounds(0.0, 0.0, 1.0, 2.0)),
            LayoutShape::rectangle(sample_layer(3, 0), bounds(0.0, 0.0, 1.0, 1.0)),
        ],
        Vec::new(),
    ));
    LayoutBundle::new(
        vec![child, root],
        vec![LayoutView::new(LayoutViewMetadata::new(
            "root".to_string(),
            root_id,
        ))],
    )
    .expect("bundle")
}

#[test]
fn views_report_what_keeps_them_from_being_built() {
    let bundle = two_level_bundle();
    let world = |_: &Vec<PlacementStep>, local: Bounds| local;
    let shape = |_: &Vec<PlacementStep>, _: LayoutCellId, _: usize| bounds(0.0, 0.0, 1.0, 1.0);
    let missing = LayoutCellId::new(99);
    assert_eq!(
        build_layout_view_scene(
            &bundle,
            LayoutViewBuildOptions::new(missing, 0, 1),
            &world,
            &shape,
            &is_small
        )
        .err(),
        Some(LayoutViewBuildError::MissingRootCell(missing))
    );
    assert_eq!(
        build_layout_view_scene(
            &bundle,
            LayoutViewBuildOptions::new(missing, 2, 1),
            &world,
            &shape,
            &is_small
        )
        .err(),
        Some(LayoutViewBuildError::InvalidHierarchyRange { min: 2, max: 1 })
    );
    let broken = LayoutViewBuildOptions::new(missing, 0, 1);
    assert_eq!(view_scene(&bundle, broken).stats().shape_count, 0);
}

#[test]
fn estimates_match_what_views_hold() {
    let bundle = two_level_bundle();
    let root = LayoutCellId::new(1);
    let levels = estimate_layout_root_level_costs(&bundle, root);
    assert_eq!(
        levels,
        vec![
            LayoutHierarchyLevelCost {
                shape_count: 1,
                point_count: 4,
            },
            LayoutHierarchyLevelCost {
                shape_count: 8,
                point_count: 32,
            },
        ]
    );
    assert_eq!(compute_layout_root_max_hierarchy_level(&bundle, root), 1);
    let whole = view_scene(&bundle, LayoutViewBuildOptions::new(root, 0, 1));
    assert_eq!(whole.stats().shape_count, 9);
    assert_eq!(whole.total_point_count(), 36);
    assert_eq!(
        estimated_layout_range_cost(&bundle, root, 1, 1),
        LayoutHierarchyLevelCost {
            shape_count: 8,
            point_count: 32,
        }
    );
    assert_eq!(
        collect_layout_layers_for_range(&bundle, root, 1, 1),
        vec![sample_layer(2, 0), sample_layer(3, 0)]
    );
}

#[test]
fn limiting_a_view_keeps_exactly_what_meets_the_area() {
    let bundle = two_level_bundle();
    let root = LayoutCellId::new(1);
    let area = bounds(15.0, -1.0, 45.0, 1.5);
    let all = view_scene(&bundle, LayoutViewBuildOptions::new(root, 0, 1));
    let limited = view_scene(
        &bundle,
        LayoutViewBuildOptions::new(root, 0, 1).with_visible_world_bounds(Some(area)),
    );
    let expected: Vec<Bounds> = all
        .shapes()
        .iter()
        .map(|shape| shape.bounds)
        .filter(|around| around.intersects(area))
        .collect();
    let found: Vec<Bounds> = limited.shapes().iter().map(|shape| shape.bounds).collect();
    assert_eq!(found, expected);
    assert_eq!(found.len(), 4);
}

#[test]
fn visiting_a_view_gives_its_shapes() {
    let bundle = two_level_bundle();
    let root = LayoutCellId::new(1);
    let options = LayoutViewBuildOptions::new(root, 0, 1).with_subtree_screen_lod(k(0.1), k(50.0), 1);
    let world = |path: &Vec<PlacementStep>, local: Bounds| along(&bundle, root, path).around(local);
    let shape = |path: &Vec<PlacementStep>, id: LayoutCellId, index: usize| {
        outline_of(&bundle, root, path, id, index).bounds
    };
    let marks = visit_layout_shapes_in_view(&bundle, options, &world, &shape, &is_small)
        .expect("shapes");
    assert_eq!(marks.len(), 5);
    assert_eq!(marks.iter().filter(|shape| shape.shape_index.is_none()).count(), 4);
    assert!(marks[1..].iter().all(|shape| shape.layer == sample_layer(2, 0)));
    let built = build_layout_view_scene(&bundle, options, &world, &shape, &is_small)
        .expect("shapes");
    assert_eq!(format!("{marks:?}"), format!("{built:?}"));
    let missing = LayoutViewBuildOptions::new(LayoutCellId::new(99), 0, 1);
    assert_eq!(
        visit_layout_shapes_in_view(&bundle, missing, &world, &shape, &is_small).err(),
        build_layout_view_scene(&bundle, missing, &world, &shape, &is_small).err()
    );
    let whole = visit_layout_shape_bounds_in_view(&bundle, options, &world, &shape, &is_small)
        .expect("shapes");
    assert_eq!(whole.len(), 9);
}

#[test]
fn shapes_are_built_from_points() {
    let path = LayoutShape::from_points(
        sample_layer(1, 0),
        vec![point(0.0, 0.0), point(4.0, 0.0)],
        false,
        Some(k(2.0)),
        &pad,
    );
    assert_eq!(path.bounds(), bounds(-1.0, -1.0, 5.0, 1.0));
    let scene_shape = RectShape::from_points(
        sample_layer(1, 0),
        Vec::new(),
        true,
        3,
        None,
        &pad,
    );
    assert_eq!(scene_shape.bounds, bounds(0.0, 0.0, 0.0, 0.0));
    assert_eq!(scene_shape.hierarchy_level, 3);
}

#[test]
fn bundles_reject_repeated_numbers() {
    let id = LayoutCellId::new(5);
    let cell = || {
        Arc::new(LayoutCell::new(
            id,
            "cell".to_string(),
            vec![sample_polygon(sample_layer(1, 0))],
            Vec::new(),
        ))
    };
    assert_eq!(
        LayoutBundle::new(vec![cell(), cell()], Vec::new()).err(),
        Some(LayoutBundleError::DuplicateCellId(id))
    );
    assert_eq!(LayoutBundle::empty().cells().len(), 0);
}

#[test]
fn copies_of_layouts_share_their_cells() {
    let mut bundle = two_level_bundle();
    let copy = bundle.clone();
    assert_eq!(copy.cells().len(), bundle.cells().len());
    for (a, b) in copy.cells().iter().zip(bundle.cells()) {
        assert!(Arc::ptr_eq(a, b));
    }
    assert_eq!(copy.views(), bundle.views());
    assert_eq!(copy.selected_index(), 0);
    let _ = bundle.select(1);
    assert_eq!(copy.selected_index(), 0);
}
