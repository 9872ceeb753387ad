//! What scenes are drawn with, and where their shapes and tiles are found.

use std::sync::Arc;

use flayout_wgpu::camera::Camera2D;
use flayout_wgpu::coords::{coord_bits, coord_from_bits};
use flayout_wgpu::layers::{LayerMap, LayerSet};
use flayout_wgpu::layout::{
    LayoutBundle, LayoutCell, LayoutCellId, LayoutShape, LayoutView, LayoutViewMetadata,
};
use flayout_wgpu::renderer::emission::{
    coarse_closed_shape_points, coarse_open_polyline_points, is_tiny_shape,
    should_suppress_fill_for_small_closed_shape, should_use_coarse_closed_shape_lod,
};
use flayout_wgpu::renderer::fragments::{
    estimated_fragment_count_for_shape, estimated_point_copies_for_shape,
    prepare_large_shape_tile_fragments, prepare_large_shape_tile_fragments_with_budget,
    PreparedFragmentBudget, PreparedTileFragment, PreparedTileFragments,
};
use flayout_wgpu::renderer::geometry::{
    base_layer_rgb, build_hatch_signature, build_hatch_style_signature, build_render_cache_key,
    build_render_cache_key_with_hatch_styles, clamp_tile_grid_divisions,
    layer_draw_mode_hash_value, layer_hatch_style_hash_value, ClosedShapeDrawMode, HatchParams,
    HatchStylePreset, TileId, ViewBits, DEFAULT_HATCH_SPACING, DEFAULT_HATCH_WIDTH,
    DEFAULT_TILE_GRID_DIVISIONS,
};
use flayout_wgpu::renderer::grid::{
    grid_side, query_visible_shape_indices, query_visible_shapes, query_visible_tiles, CellSpan,
    ShapeSpatialIndex, TileGridIndex, VisibleShapeQuery,
};
use flayout_wgpu::renderer::polygon::{
    clip_closed_polygon_to_bounds, normalized_closed_points, triangulate_polygon, ClipEdge,
    Winding,
};
use flayout_wgpu::renderer::primitives::DrawMath;
use flayout_wgpu::renderer::requests::build_hierarchy_tile_layer_hints_for_tiles;
use flayout_wgpu::renderer::scene_vertices::{
    build_hierarchy_tile_vertices, build_line_vertices, build_scaled_line_vertices_for_indices,
    build_scaled_scene_vertices_for_prepared_fragments, build_scaled_scene_vertices_for_tile,
    build_scene_tile_vertices, build_scene_vertices,
};
use flayout_wgpu::renderer::scissor::{scissor_from_edges, ScissorRect};
use flayout_wgpu::renderer::stats::RenderDebugStats;
use flayout_wgpu::renderer::vertices::{
    emit_segment, stroke_width_for_layer, LineVertex, PenMath, Rgb, VertexKind,
};
use flayout_wgpu::scene::{
    bounds_from_points, Bounds, LayerId, PlacedOutline, Point, RectShape, Scene,
};
use flayout_wgpu::view_builder::{
    LayoutViewBuildOptions, PlacementStep, SubtreeScreenLod, ViewShape,
};
use flayout_wgpu::workset::build_workset;
use glam::Vec2;

fn k(value: f32) -> i32 {
    coord_from_bits((value + 0.0).to_bits())
}

fn f(key: i32) -> f32 {
    f32::from_bits(coord_bits(key))
}

fn bounds(min_x: f32, min_y: f32, max_x: f32, max_y: f32) -> Bounds {
    Bounds::new(k(min_x), k(min_y), k(max_x), k(max_y))
}

fn point(x: f32, y: f32) -> Point {
    Point { x: k(x), y: k(y) }
}

fn vec(at: Point) -> Vec2 {
    Vec2::new(f(at.x), f(at.y))
}

fn unvec(at: Vec2) -> Point {
    point(at.x, at.y)
}

fn pad(around: Bounds, width: i32) -> Bounds {
    let half = f(width) * 0.5;
    bounds(
        f(around.min_x) - half,
        f(around.min_y) - half,
        f(around.max_x) + half,
        f(around.max_y) + half,
    )
}

/// A grid of square cells on an area.
#[derive(Clone, Copy)]
struct Grid {
    min: Vec2,
    max: Vec2,
    cell: Vec2,
    side: i32,
}

impl Grid {
    fn of(around: Bounds, side: i32) -> Self {
        let min = Vec2::new(f(around.min_x), f(around.min_y));
        let max = Vec2::new(f(around.max_x), f(around.max_y));
        Grid {
            min,
            max,
            cell: ((max - min).max(Vec2::ONE) / side as f32).max(Vec2::ONE),
            side,
        }
    }

    fn span(&self, of: Bounds) -> CellSpan {
        let low = ((Vec2::new(f(of.min_x), f(of.min_y)) - self.min) / self.cell).floor();
        let high = ((Vec2::new(f(of.max_x), f(of.max_y)) - self.min) / self.cell).floor();
        CellSpan {
            min_col: low.x as i32,
            max_col: high.x as i32,
            min_row: low.y as i32,
            max_row: high.y as i32,
        }
    }

    fn spans(&self, scene: &Scene) -> Vec<CellSpan> {
        scene
            .shapes()
            .iter()
            .map(|shape| self.span(shape.bounds))
            .collect()
    }

    fn tile_bounds(&self, tile: TileId) -> Bounds {
        let min = self.min + Vec2::new(tile.col as f32, tile.row as f32) * self.cell;
        bounds(
            min.x,
            min.y,
            if tile.col == self.side - 1 {
                self.max.x
            } else {
                min.x + self.cell.x
            },
            if tile.row == self.side - 1 {
                self.max.y
            } else {
                min.y + self.cell.y
            },
        )
    }
}

fn near(a: Point, b: Point) -> bool {
    (vec(a) - vec(b)).length_squared() <= f32::EPSILON
}

fn cross(edge: ClipEdge, area: Bounds, a: Point, b: Point) -> Point {
    let (from, to) = (vec(a), vec(b));
    let delta = to - from;
    match edge {
        ClipEdge::MinX | ClipEdge::MaxX => {
            let x = match edge {
                ClipEdge::MinX => f(area.min_x),
                _ => f(area.max_x),
            };
            if delta.x.abs() <= f32::EPSILON {
                return point(x, from.y);
            }
            point(x, from.y + delta.y * ((x - from.x) / delta.x))
        }
        _ => {
            let y = match edge {
                ClipEdge::MinY => f(area.min_y),
                _ => f(area.max_y),
            };
            if delta.y.abs() <= f32::EPSILON {
                return point(from.x, y);
            }
            point(from.x + delta.x * ((y - from.y) / delta.y), y)
        }
    }
}

fn clip(area: Bounds, a: Point, b: Point) -> Option<(Point, Point)> {
    let (from, to) = (vec(a), vec(b));
    let delta = to - from;
    let steps = [-delta.x, delta.x, -delta.y, delta.y];
    let gaps = [
        from.x - f(area.min_x),
        f(area.max_x) - from.x,
        from.y - f(area.min_y),
        f(area.max_y) - from.y,
    ];
    let (mut start, mut end) = (0.0f32, 1.0f32);
    for (step, gap) in steps.into_iter().zip(gaps) {
        if step.abs() <= f32::EPSILON {
            if gap < 0.0 {
                return None;
            }
            continue;
        }
        if step < 0.0 {
            start = start.max(gap / step);
        } else {
            end = end.min(gap / step);
        }
        if start > end {
            return None;
        }
    }
    Some((unvec(from + delta * start), unvec(from + delta * end)))
}

fn extent(of: Bounds) -> i32 {
    k((f(of.max_x) - f(of.min_x)).max(f(of.max_y) - f(of.min_y)))
}

fn target(of: Bounds, least: f32, most: f32) -> usize {
    let ratio = f(extent(of)).clamp(0.0, 24.0) / 24.0;
    (least + (most - least) * ratio).round() as usize
}

fn ring_sample(count: usize, target: usize, index: usize) -> usize {
    (index as f32 * (count as f32 / target as f32)).round() as usize
}

fn line_sample(count: usize, target: usize, index: usize) -> usize {
    (index as f32 * (count.saturating_sub(1) as f32 / target.saturating_sub(1) as f32)).round()
        as usize
}

fn local(points: &[Point], index: usize) -> Vec2 {
    vec(points[index]) - vec(points[0])
}

fn winding(points: &Vec<Point>) -> Winding {
    let mut area = 0.0;
    for index in 0..points.len() {
        let a = local(points, index);
        let b = local(points, (index + 1) % points.len());
        area += a.x * b.y - b.x * a.y;
    }
    area *= 0.5;
    if area.abs() <= f32::EPSILON {
        Winding::Flat
    } else if area > 0.0 {
        Winding::CounterClockwise
    } else {
        Winding::Clockwise
    }
}

fn convex(points: &Vec<Point>, a: usize, b: usize, c: usize) -> bool {
    let (a, b, c) = (local(points, a), local(points, b), local(points, c));
    (b - a).perp_dot(c - b) > 1e-5
}

fn inside(points: &Vec<Point>, p: usize, a: usize, b: usize, c: usize) -> bool {
    let p = local(points, p);
    let (a, b, c) = (local(points, a), local(points, b), local(points, c));
    let ab = (b - a).perp_dot(p - a);
    let bc = (c - b).perp_dot(p - b);
    let ca = (a - c).perp_dot(p - c);
    (ab >= -1e-5 && bc >= -1e-5 && ca >= -1e-5) || (ab <= 1e-5 && bc <= 1e-5 && ca <= 1e-5)
}

fn centre(of: Bounds) -> Vec2 {
    Vec2::new(f(of.min_x) + f(of.max_x), f(of.min_y) + f(of.max_y)) * 0.5
}

fn mark(of: Bounds) -> (Point, Point, Point, Point) {
    let at = centre(of);
    (
        unvec(at + Vec2::new(-0.75, -0.75)),
        unvec(at + Vec2::new(0.75, -0.75)),
        unvec(at + Vec2::new(0.75, 0.75)),
        unvec(at + Vec2::new(-0.75, 0.75)),
    )
}

fn mark_line(of: Bounds) -> (Point, Point) {
    let at = centre(of);
    (
        unvec(at + Vec2::new(-0.75, 0.0)),
        unvec(at + Vec2::new(0.75, 0.0)),
    )
}

/// How a scene is looked at.
struct Look {
    zoom: f32,
    hidden: LayerSet,
    modes: LayerMap<ClosedShapeDrawMode>,
    styles: LayerMap<HatchStylePreset>,
    mode: ClosedShapeDrawMode,
    style: HatchStylePreset,
    tile: Option<Bounds>,
}

impl Look {
    fn new(zoom: f32, mode: ClosedShapeDrawMode) -> Self {
        Look {
            zoom,
            hidden: LayerSet::new(),
            modes: LayerMap::new(),
            styles: LayerMap::new(),
            mode,
            style: HatchStylePreset::LeftDiagonal,
            tile: None,
        }
    }
}

fn scale_bounds(of: Bounds, zoom: f32) -> Bounds {
    bounds(
        f(of.min_x) * zoom,
        f(of.min_y) * zoom,
        f(of.max_x) * zoom,
        f(of.max_y) * zoom,
    )
}

fn scene_vertices(scene: &Scene, places: &[usize], look: &Look) -> Vec<LineVertex> {
    let zoom = look.zoom;
    build_scaled_scene_vertices_for_tile(
        scene,
        &places.to_vec(),
        &look.hidden,
        &look.modes,
        look.mode,
        look.tile.map(|tile| scale_bounds(tile, zoom)),
        &look.styles,
        look.style,
        &|at: Point| unvec(vec(at) * zoom),
        &DrawMath {
            near,
            cross,
            clip,
            extent,
            ring_target: |of: Bounds| target(of, 8.0, 24.0),
            ring_sample,
            line_target: |of: Bounds| target(of, 6.0, 20.0),
            line_sample,
            winding,
            convex,
            inside,
            mark,
            mark_line,
        },
        &PenMath {
            strip,
            on_screen: |width: i32| k(f(width) * zoom),
        },
    )
}

fn fragment_vertices(pieces: &Vec<PreparedTileFragment>, look: &Look) -> Vec<LineVertex> {
    let zoom = look.zoom;
    build_scaled_scene_vertices_for_prepared_fragments(
        pieces,
        &look.hidden,
        &look.modes,
        look.mode,
        &|at: Point| unvec(vec(at) * zoom),
        &DrawMath {
            near,
            cross,
            clip,
            extent,
            ring_target: |of: Bounds| target(of, 8.0, 24.0),
            ring_sample,
            line_target: |of: Bounds| target(of, 6.0, 20.0),
            line_sample,
            winding,
            convex,
            inside,
            mark,
            mark_line,
        },
        &PenMath {
            strip,
            on_screen: |width: i32| k(f(width) * zoom),
        },
    )
}

fn strip(start: Point, end: Point, width: i32) -> Option<(Point, Point, Point, Point)> {
    let (start, end) = (vec(start), vec(end));
    let delta = end - start;
    if delta.length_squared() <= f32::EPSILON {
        return None;
    }
    let normal = Vec2::new(-delta.y, delta.x).normalize() * (f(width) * 0.5);
    Some((
        unvec(start - normal),
        unvec(start + normal),
        unvec(end + normal),
        unvec(end - normal),
    ))
}

fn fit_scale(around: Bounds, viewport: Vec2) -> f32 {
    let width = (f(around.max_x) - f(around.min_x)).max(1.0);
    let height = (f(around.max_y) - f(around.min_y)).max(1.0);
    (viewport.x.max(1.0) * 0.8 / width).min(viewport.y.max(1.0) * 0.8 / height)
}

fn fit(around: Bounds, viewport: Vec2) -> Camera2D {
    let mut camera = Camera2D::new();
    camera.fit_bounds(
        around,
        unvec(viewport),
        k(fit_scale(around, viewport)),
        &|around: Bounds, viewport: Point, zoom: i32| {
            unvec(vec(viewport) * 0.5 - centre(around) * f(zoom))
        },
    );
    camera
}

fn visible_world(camera: &Camera2D, viewport: Vec2) -> Bounds {
    let scale = 1.0 / f(camera.zoom()).max(f32::EPSILON);
    let low = -vec(camera.pan()) * scale;
    let high = (viewport - vec(camera.pan())) * scale;
    bounds(low.x, low.y, high.x, high.y)
}

fn area_of(scene: &Scene) -> Bounds {
    scene.bounds().unwrap_or(bounds(0.0, 0.0, 1.0, 1.0))
}

fn shape_index(scene: &Scene) -> (Grid, ShapeSpatialIndex) {
    let grid = Grid::of(area_of(scene), grid_side(scene.shapes().len()));
    (grid, ShapeSpatialIndex::build(scene, &grid.spans(scene)))
}

fn visible_shapes(scene: &Scene, visible: Bounds) -> VisibleShapeQuery {
    let (grid, index) = shape_index(scene);
    query_visible_shapes(scene, &index, visible, grid.span(visible))
}

fn tile_grid(scene: &Scene, divisions: u32) -> (Grid, TileGridIndex) {
    let grid = Grid::of(area_of(scene), clamp_tile_grid_divisions(divisions));
    (
        grid,
        TileGridIndex::build_with_divisions(scene, &grid.spans(scene), divisions),
    )
}

fn cut(scene: &Scene, grid: Grid, index: &TileGridIndex) -> PreparedTileFragments {
    prepare_large_shape_tile_fragments(
        scene,
        index,
        &grid.spans(scene),
        4,
        &near,
        &cross,
        &clip,
        &|tile: TileId| grid.tile_bounds(tile),
    )
}

fn to_clip_space(vertices: &[LineVertex], translation: Vec2, viewport: Vec2) -> Vec<Vec2> {
    let size = viewport.max(Vec2::ONE);
    vertices
        .iter()
        .map(|vertex| {
            let at = (vec(vertex.position) + translation) / size * 2.0;
            Vec2::new(at.x - 1.0, 1.0 - at.y)
        })
        .collect()
}

/// What the camera sees of a scene: the vertices, and where they are in clip space.
fn seen(
    scene: &Scene,
    camera: &Camera2D,
    viewport: Vec2,
    mode: ClosedShapeDrawMode,
) -> (Vec<LineVertex>, Vec<Vec2>) {
    let (grid, index) = shape_index(scene);
    let visible = visible_world(camera, viewport);
    let zoom = f(camera.zoom());
    let vertices = build_scene_vertices(
        scene,
        &index,
        visible,
        grid.span(visible),
        &LayerSet::new(),
        &LayerMap::new(),
        mode,
        &|at: Point| unvec(vec(at) * zoom),
        &DrawMath {
            near,
            cross,
            clip,
            extent,
            ring_target: |of: Bounds| target(of, 8.0, 24.0),
            ring_sample,
            line_target: |of: Bounds| target(of, 6.0, 20.0),
            line_sample,
            winding,
            convex,
            inside,
            mark,
            mark_line,
        },
        &PenMath {
            strip,
            on_screen: |width: i32| k(f(width) * zoom),
        },
    );
    let at = to_clip_space(&vertices, vec(camera.pan()), viewport);
    (vertices, at)
}

fn layer(layer: u32, datatype: u32) -> LayerId {
    LayerId { layer, datatype }
}

fn rectangle(on: LayerId, around: Bounds) -> RectShape {
    RectShape::rectangle(on, around)
}

fn closed_shape(on: LayerId, around: Bounds, points: &[Vec2]) -> RectShape {
    RectShape {
        layer: on,
        hierarchy_level: 0,
        bounds: around,
        points: points.iter().map(|at| unvec(*at)).collect(),
        closed: true,
        stroke_width_world: None,
    }
}

fn polyline(on: LayerId, points: &[Vec2], width: f32) -> RectShape {
    RectShape::polyline(
        on,
        points.iter().map(|at| unvec(*at)).collect(),
        k(width),
        &pad,
    )
}

fn polygon_area(points: &[Vec2]) -> f32 {
    let mut area = 0.0;
    for index in 0..points.len() {
        let a = points[index];
        let b = points[(index + 1) % points.len()];
        area += a.x * b.y - b.x * a.y;
    }
    area.abs() * 0.5
}

fn triangles_area(vertices: &[LineVertex]) -> f32 {
    let mut area = 0.0;
    for tri in vertices.chunks_exact(3) {
        let (a, b, c) = (
            vec(tri[0].position),
            vec(tri[1].position),
            vec(tri[2].position),
        );
        area += ((b - a).perp_dot(c - a)).abs() * 0.5;
    }
    area
}

fn first_fill_hatch_style(vertices: &[LineVertex]) -> u8 {
    vertices
        .iter()
        .find(|vertex| vertex.kind == VertexKind::HatchFill)
        .map(|vertex| vertex.hatch_style)
        .expect("fill vertex hatch style")
}

fn circle() -> Scene {
    let point_count = 720usize;
    let radius = 50.0f32;
    let points: Vec<Vec2> = (0..point_count)
        .map(|idx| {
            let angle = (idx as f32 / point_count as f32) * std::f32::consts::TAU;
            Vec2::new(angle.cos() * radius, angle.sin() * radius)
        })
        .collect();
    Scene::from_shapes(vec![closed_shape(
        layer(600, 10),
        bounds(-radius, -radius, radius, radius),
        &points,
    )])
}

fn ramp() -> Scene {
    let mut points = Vec::new();
    for x in 0..100 {
        points.push(Vec2::new(x as f32, 0.0));
    }
    for x in (0..100).rev() {
        points.push(Vec2::new(x as f32, 40.0 + (x as f32 * 0.1)));
    }
    Scene::from_shapes(vec![closed_shape(
        layer(1, 2),
        bounds(0.0, 0.0, 99.0, 49.9),
        &points,
    )])
}

fn view_bits(camera: &Camera2D) -> ViewBits {
    ViewBits {
        pan_x: coord_bits(camera.pan().x),
        pan_y: coord_bits(camera.pan().y),
        zoom: coord_bits(camera.zoom()),
        canvas_origin_x: 280.0f32.to_bits(),
        canvas_origin_y: 0.0f32.to_bits(),
        canvas_width: 1160.0f32.to_bits(),
        canvas_height: 960.0f32.to_bits(),
        viewport_width: 1440.0f32.to_bits(),
        viewport_height: 960.0f32.to_bits(),
    }
}

fn hatch(spacing: f32, width: f32) -> HatchParams {
    HatchParams {
        spacing: k(spacing),
        width: k(width),
    }
}

fn default_hatch() -> HatchParams {
    HatchParams {
        spacing: DEFAULT_HATCH_SPACING,
        width: DEFAULT_HATCH_WIDTH,
    }
}

#[test]
fn rectangle_scene_builds_clip_space_line_vertices() {
    let scene = Scene::from_shapes(vec![rectangle(layer(1, 2), bounds(0.0, 0.0, 10.0, 20.0))]);
    let canvas_size = Vec2::new(100.0, 100.0);
    let camera = fit(scene.bounds().expect("scene bounds"), canvas_size);

    let (vertices, at) = seen(&scene, &camera, canvas_size, ClosedShapeDrawMode::Outline);

    assert_eq!(vertices.len(), 24);
    assert!(at.iter().all(|at| at.x.abs() <= 1.0));
    assert!(at.iter().all(|at| at.y.abs() <= 1.0));
}

#[test]
fn rectangle_scene_builds_hatch_fill_vertices_in_hatch_mode() {
    let scene = Scene::from_shapes(vec![rectangle(layer(1, 2), bounds(0.0, 0.0, 10.0, 20.0))]);
    let canvas_size = Vec2::new(100.0, 100.0);
    let camera = fit(scene.bounds().expect("scene bounds"), canvas_size);

    let (vertices, at) = seen(&scene, &camera, canvas_size, ClosedShapeDrawMode::Hatch);

    assert_eq!(vertices.len(), 6);
    assert!(vertices.iter().all(|vertex| vertex.kind == VertexKind::HatchFill));
    assert!(at.iter().all(|at| at.x.abs() <= 1.0));
    assert!(at.iter().all(|at| at.y.abs() <= 1.0));
}

#[test]
fn coarse_lod_keeps_non_axis_aligned_shape_character() {
    let base = [
        Vec2::new(0.0, -80.0),
        Vec2::new(55.0, -25.0),
        Vec2::new(110.0, 0.0),
        Vec2::new(55.0, 25.0),
        Vec2::new(0.0, 80.0),
        Vec2::new(-55.0, 25.0),
        Vec2::new(-110.0, 0.0),
        Vec2::new(-55.0, -25.0),
    ];
    let mut points = Vec::new();
    for index in 0..720usize {
        let t = index as f32 / 720.0;
        let seg = (t * base.len() as f32).floor() as usize % base.len();
        let local_t = (t * base.len() as f32) - seg as f32;
        let a = base[seg];
        let b = base[(seg + 1) % base.len()];
        points.push(a.lerp(b, local_t));
    }
    let scene = Scene::from_shapes(vec![closed_shape(
        layer(600, 10),
        bounds(-110.0, -80.0, 110.0, 80.0),
        &points,
    )]);

    let vertices = scene_vertices(&scene, &[0], &Look::new(0.08, ClosedShapeDrawMode::Outline));
    let unique_positions: std::collections::BTreeSet<(i32, i32)> = vertices
        .iter()
        .map(|vertex| {
            (
                (f(vertex.position.x) * 100.0).round() as i32,
                (f(vertex.position.y) * 100.0).round() as i32,
            )
        })
        .collect();
    assert!(unique_positions.len() > 8);
}

#[test]
fn smaller_screen_extent_uses_stronger_closed_shape_lod() {
    let scene = circle();
    let medium = scene_vertices(&scene, &[0], &Look::new(0.18, ClosedShapeDrawMode::Outline));
    let tiny = scene_vertices(&scene, &[0], &Look::new(0.08, ClosedShapeDrawMode::Outline));
    assert!(tiny.len() < medium.len());
    assert_eq!(medium.len(), 20 * 6);
    assert_eq!(tiny.len(), 13 * 6);
}

#[test]
fn small_high_detail_closed_shapes_switch_to_coarse_lod() {
    let scene = circle();
    let large = scene_vertices(&scene, &[0], &Look::new(1.0, ClosedShapeDrawMode::HatchOutline));
    let small = scene_vertices(&scene, &[0], &Look::new(0.1, ClosedShapeDrawMode::HatchOutline));
    assert!(large.len() > 4000);
    assert!(small.len() < large.len() / 4);
}

#[test]
fn hatch_presets_encode_different_fill_vertex_styles_for_shader_path() {
    let scene = Scene::from_shapes(vec![rectangle(layer(1, 2), bounds(0.0, 0.0, 10.0, 20.0))]);
    let style_of = |style: HatchStylePreset| {
        let mut look = Look::new(1.0, ClosedShapeDrawMode::Hatch);
        look.style = style;
        first_fill_hatch_style(&scene_vertices(&scene, &[0], &look))
    };
    let left_style = style_of(HatchStylePreset::LeftDiagonal);
    let right_style = style_of(HatchStylePreset::RightDiagonal);
    let cross_style = style_of(HatchStylePreset::Cross);
    let dots_style = style_of(HatchStylePreset::Dots);

    assert_ne!(left_style, right_style);
    assert_ne!(left_style, cross_style);
    assert_ne!(left_style, dots_style);
    assert_ne!(right_style, cross_style);
    assert_ne!(right_style, dots_style);
    assert_ne!(cross_style, dots_style);
}

#[test]
fn rectangle_scene_builds_hatch_and_outline_vertices_in_hatch_outline_mode() {
    let scene = Scene::from_shapes(vec![rectangle(layer(1, 2), bounds(0.0, 0.0, 10.0, 20.0))]);
    let canvas_size = Vec2::new(100.0, 100.0);
    let camera = fit(scene.bounds().expect("scene bounds"), canvas_size);

    let (vertices, _) = seen(&scene, &camera, canvas_size, ClosedShapeDrawMode::HatchOutline);

    assert_eq!(vertices.len(), 30);
}

#[test]
fn small_high_detail_polyline_switches_to_coarse_lod() {
    let point_count = 720usize;
    let points: Vec<Vec2> = (0..point_count)
        .map(|idx| {
            let x = idx as f32 * 0.5;
            let y = (idx as f32 * 0.2).sin() * 40.0;
            Vec2::new(x, y)
        })
        .collect();
    let scene = Scene::from_shapes(vec![polyline(layer(600, 10), &points, 2.0)]);

    let large = scene_vertices(&scene, &[0], &Look::new(1.0, ClosedShapeDrawMode::Outline));
    let small = scene_vertices(&scene, &[0], &Look::new(0.05, ClosedShapeDrawMode::Outline));

    assert!(large.len() > 4000);
    assert!(small.len() < large.len() / 4);
}

#[test]
fn open_polyline_stays_outline_only_in_hatch_mode() {
    let scene = Scene::from_shapes(vec![polyline(
        layer(1, 1),
        &[Vec2::new(0.0, 0.0), Vec2::new(10.0, 0.0)],
        4.0,
    )]);
    let canvas_size = Vec2::new(100.0, 100.0);
    let camera = fit(bounds(0.0, -2.0, 10.0, 2.0), canvas_size);

    let (vertices, _) = seen(&scene, &camera, canvas_size, ClosedShapeDrawMode::Hatch);

    assert_eq!(vertices.len(), 6);
    assert!(vertices.iter().all(|vertex| vertex.kind == VertexKind::Outline));
}

#[test]
fn concave_polygon_hatch_fill_preserves_polygon_area() {
    let points = vec![
        Vec2::new(0.0, 0.0),
        Vec2::new(6.0, 0.0),
        Vec2::new(6.0, 2.0),
        Vec2::new(2.0, 2.0),
        Vec2::new(2.0, 6.0),
        Vec2::new(0.0, 6.0),
    ];
    let scene = Scene::from_shapes(vec![closed_shape(
        layer(7, 0),
        bounds(0.0, 0.0, 6.0, 6.0),
        &points,
    )]);

    let vertices = scene_vertices(&scene, &[0], &Look::new(1.0, ClosedShapeDrawMode::Hatch));

    let polygon_area = polygon_area(&points);
    let fill_area = triangles_area(&vertices);
    assert!(
        (fill_area - polygon_area).abs() < 0.01,
        "expected fill area {fill_area} to match polygon area {polygon_area}"
    );
}

#[test]
fn layer_override_can_force_outline_when_global_mode_is_hatch_outline() {
    let scene = Scene::from_shapes(vec![rectangle(layer(1, 2), bounds(0.0, 0.0, 10.0, 20.0))]);
    let mut look = Look::new(1.0, ClosedShapeDrawMode::HatchOutline);
    look.modes.insert(layer(1, 2), ClosedShapeDrawMode::Outline);

    let vertices = scene_vertices(&scene, &[0], &look);

    assert_eq!(vertices.len(), 24);
}

#[test]
fn tile_local_clipping_reduces_large_polygon_vertices() {
    let scene = ramp();
    let mut look = Look::new(1.0, ClosedShapeDrawMode::HatchOutline);
    let unclipped = scene_vertices(&scene, &[0], &look);
    look.tile = Some(bounds(0.0, 0.0, 20.0, 20.0));
    let clipped = scene_vertices(&scene, &[0], &look);

    assert!(clipped.len() < unclipped.len());
}

#[test]
fn prepared_tile_fragments_match_runtime_tile_clipping_for_large_polygon() {
    let scene = ramp();
    let (grid, index) = tile_grid(&scene, 4);
    let prepared = cut(&scene, grid, &index);

    assert!(prepared.contains_shape(0));

    let mut tiles = 0;
    for col in 0..4 {
        for row in 0..4 {
            let tile_id = TileId { col, row };
            for on in prepared.layers_for_tile(tile_id) {
                let fragments = prepared
                    .fragments_for_tile_layer(tile_id, on)
                    .expect("prepared fragments");
                let tile = grid.tile_bounds(tile_id);
                for fragment in fragments {
                    assert!(fragment.points.iter().all(|at| {
                        f(at.x) >= f(tile.min_x) - 1e-4
                            && f(at.x) <= f(tile.max_x) + 1e-4
                            && f(at.y) >= f(tile.min_y) - 1e-4
                            && f(at.y) <= f(tile.max_y) + 1e-4
                    }));
                }

                let mut look = Look::new(1.0, ClosedShapeDrawMode::HatchOutline);
                let prepared_vertices = fragment_vertices(fragments, &look);
                look.tile = Some(tile);
                let runtime_vertices = scene_vertices(&scene, &[0], &look);

                assert_eq!(prepared_vertices.len(), runtime_vertices.len());
                tiles += 1;
            }
        }
    }
    assert!(tiles > 0);
}

#[test]
fn prepared_tile_fragments_match_runtime_tile_clipping_for_large_polyline() {
    let scene = Scene::from_shapes(vec![polyline(
        layer(70, 31),
        &[Vec2::new(0.0, 0.0), Vec2::new(100.0, 100.0)],
        6.0,
    )]);
    let (grid, index) = tile_grid(&scene, 4);
    let prepared = cut(&scene, grid, &index);

    assert!(prepared.contains_shape(0));

    let mut drawn = 0;
    let mut touched = 0;
    for col in 0..4 {
        for row in 0..4 {
            let tile_id = TileId { col, row };
            for on in prepared.layers_for_tile(tile_id) {
                let fragments = prepared
                    .fragments_for_tile_layer(tile_id, on)
                    .expect("prepared fragments");
                let mut look = Look::new(1.0, ClosedShapeDrawMode::HatchOutline);
                let prepared_vertices = fragment_vertices(fragments, &look);
                look.tile = Some(grid.tile_bounds(tile_id));
                let runtime_vertices = scene_vertices(&scene, &[0], &look);

                assert_eq!(prepared_vertices.len(), runtime_vertices.len());
                if prepared_vertices.is_empty() {
                    touched += 1;
                } else {
                    drawn += 1;
                }
            }
        }
    }
    assert_eq!(drawn, 4);
    assert!(touched > 0);
}

#[test]
fn retina_viewport_uses_logical_canvas_scale_for_fit() {
    let scene = Scene::from_shapes(vec![rectangle(layer(1, 2), bounds(0.0, 0.0, 100.0, 100.0))]);
    let logical_canvas = Vec2::new(100.0, 100.0);
    let camera = fit(scene.bounds().expect("scene bounds"), logical_canvas);

    let (_, logical) = seen(&scene, &camera, logical_canvas, ClosedShapeDrawMode::Outline);
    let retina_canvas = Vec2::new(200.0, 200.0) / 2.0f32.max(1.0);
    let (_, retina) = seen(&scene, &camera, retina_canvas, ClosedShapeDrawMode::Outline);

    let size = |at: &[Vec2]| {
        let low = at.iter().fold(at[0], |a, b| a.min(*b));
        let high = at.iter().fold(at[0], |a, b| a.max(*b));
        high - low
    };
    assert!((size(&logical) - size(&retina)).abs().max_element() < 0.01);
}

#[test]
fn render_cache_key_changes_when_hidden_layers_change() {
    let camera = fit(bounds(0.0, 0.0, 100.0, 100.0), Vec2::new(800.0, 600.0));
    let no_hidden = LayerSet::new();
    let mut one_hidden = LayerSet::new();
    one_hidden.insert(layer(1, 2));

    let a = build_render_cache_key(
        7,
        view_bits(&camera),
        &no_hidden,
        &LayerMap::new(),
        ClosedShapeDrawMode::Outline,
        default_hatch(),
    );
    let b = build_render_cache_key(
        7,
        view_bits(&camera),
        &one_hidden,
        &LayerMap::new(),
        ClosedShapeDrawMode::Outline,
        default_hatch(),
    );

    assert_ne!(a, b);
}

#[test]
fn render_cache_key_changes_when_hatch_params_change() {
    let camera = fit(bounds(0.0, 0.0, 100.0, 100.0), Vec2::new(800.0, 600.0));
    let hidden = LayerSet::new();
    let a = build_render_cache_key(
        7,
        view_bits(&camera),
        &hidden,
        &LayerMap::new(),
        ClosedShapeDrawMode::Hatch,
        hatch(8.0, 1.0),
    );
    let b = build_render_cache_key(
        7,
        view_bits(&camera),
        &hidden,
        &LayerMap::new(),
        ClosedShapeDrawMode::Hatch,
        hatch(12.0, 1.0),
    );
    let c = build_render_cache_key(
        7,
        view_bits(&camera),
        &hidden,
        &LayerMap::new(),
        ClosedShapeDrawMode::HatchOutline,
        hatch(8.0, 2.0),
    );

    assert_ne!(a, b);
    assert_ne!(a, c);
    assert_ne!(
        build_hatch_signature(hatch(8.0, 1.0)),
        build_hatch_signature(hatch(12.0, 1.0)),
    );
}

#[test]
fn render_cache_key_changes_when_layer_draw_modes_change() {
    let camera = fit(bounds(0.0, 0.0, 100.0, 100.0), Vec2::new(800.0, 600.0));
    let hidden = LayerSet::new();
    let none: LayerMap<ClosedShapeDrawMode> = LayerMap::new();
    let mut overrides = LayerMap::new();
    overrides.insert(layer(1, 2), ClosedShapeDrawMode::Outline);

    let a = build_render_cache_key(
        7,
        view_bits(&camera),
        &hidden,
        &none,
        ClosedShapeDrawMode::HatchOutline,
        hatch(8.0, 1.0),
    );
    let b = build_render_cache_key(
        7,
        view_bits(&camera),
        &hidden,
        &overrides,
        ClosedShapeDrawMode::HatchOutline,
        hatch(8.0, 1.0),
    );

    assert_ne!(a, b);
    assert_ne!(
        layer_draw_mode_hash_value(&none),
        layer_draw_mode_hash_value(&overrides)
    );
}

#[test]
fn render_cache_key_changes_when_hatch_style_changes() {
    let camera = fit(bounds(0.0, 0.0, 100.0, 100.0), Vec2::new(800.0, 600.0));
    let hidden = LayerSet::new();
    let none: LayerMap<HatchStylePreset> = LayerMap::new();
    let mut style_overrides = LayerMap::new();
    style_overrides.insert(layer(1, 2), HatchStylePreset::Dots);
    let key = |styles: &LayerMap<HatchStylePreset>, style: HatchStylePreset| {
        build_render_cache_key_with_hatch_styles(
            7,
            view_bits(&camera),
            &hidden,
            &LayerMap::new(),
            styles,
            ClosedShapeDrawMode::Hatch,
            hatch(8.0, 1.0),
            style,
        )
    };

    let a = key(&none, HatchStylePreset::LeftDiagonal);
    let b = key(&none, HatchStylePreset::Cross);
    let c = key(&style_overrides, HatchStylePreset::LeftDiagonal);

    assert_ne!(a, b);
    assert_ne!(a, c);
    assert_ne!(
        build_hatch_style_signature(HatchStylePreset::LeftDiagonal),
        build_hatch_style_signature(HatchStylePreset::Cross),
    );
    assert_ne!(
        layer_hatch_style_hash_value(&none),
        layer_hatch_style_hash_value(&style_overrides),
    );
}

#[test]
fn one_changed_override_changes_the_hash() {
    let mode_hash = |entries: &[(LayerId, ClosedShapeDrawMode)]| {
        let mut modes = LayerMap::new();
        for (on, mode) in entries {
            modes.insert(*on, *mode);
        }
        layer_draw_mode_hash_value(&modes)
    };
    let style_hash = |entries: &[(LayerId, HatchStylePreset)]| {
        let mut styles = LayerMap::new();
        for (on, style) in entries {
            styles.insert(*on, *style);
        }
        layer_hatch_style_hash_value(&styles)
    };

    assert_eq!(mode_hash(&[]), 0xcbf2_9ce4_8422_2325);
    assert_eq!(style_hash(&[]), 0xcbf2_9ce4_8422_2325);
    assert_eq!(
        mode_hash(&[(layer(1, 2), ClosedShapeDrawMode::Hatch)]),
        0xb1ce_db18_672c_f911
    );
    assert_eq!(
        style_hash(&[(layer(1, 2), HatchStylePreset::Dots)]),
        0xb1ce_bb18_672c_f5ab
    );

    let first = (layer(1, 2), ClosedShapeDrawMode::Hatch);
    let modes = [
        ClosedShapeDrawMode::Outline,
        ClosedShapeDrawMode::Hatch,
        ClosedShapeDrawMode::HatchOutline,
    ];
    for a in modes {
        for b in modes {
            let one = mode_hash(&[first, (layer(3, 4), a), (layer(5, 6), b)]);
            let other = mode_hash(&[(layer(5, 6), b), (layer(3, 4), b), first]);
            assert_eq!(one == other, a == b);
        }
    }
    let styles = [
        HatchStylePreset::LeftDiagonal,
        HatchStylePreset::RightDiagonal,
        HatchStylePreset::Cross,
        HatchStylePreset::Dots,
    ];
    for a in styles {
        for b in styles {
            let one = style_hash(&[(layer(1, 2), a), (layer(3, 4), b)]);
            let other = style_hash(&[(layer(3, 4), b), (layer(1, 2), b)]);
            assert_eq!(one == other, a == b);
        }
    }
}

#[test]
fn offscreen_shapes_do_not_generate_vertices() {
    let scene = Scene::from_shapes(vec![
        rectangle(layer(1, 2), bounds(0.0, 0.0, 10.0, 10.0)),
        rectangle(layer(1, 2), bounds(1_000.0, 1_000.0, 1_010.0, 1_010.0)),
    ]);
    let canvas_size = Vec2::new(100.0, 100.0);
    let camera = fit(bounds(0.0, 0.0, 10.0, 10.0), canvas_size);

    let (vertices, _) = seen(&scene, &camera, canvas_size, ClosedShapeDrawMode::Outline);

    assert_eq!(vertices.len(), 24);
}

#[test]
fn spatial_index_returns_only_shapes_overlapping_visible_world_bounds() {
    let scene = Scene::from_shapes(vec![
        rectangle(layer(1, 2), bounds(0.0, 0.0, 10.0, 10.0)),
        rectangle(layer(1, 2), bounds(200.0, 200.0, 210.0, 210.0)),
        rectangle(layer(1, 2), bounds(400.0, 400.0, 410.0, 410.0)),
    ]);
    let (grid, index) = shape_index(&scene);
    let visible = bounds(-5.0, -5.0, 20.0, 20.0);

    assert_eq!(
        query_visible_shape_indices(&scene, &index, visible, grid.span(visible)),
        vec![0]
    );
}

#[test]
fn visible_shape_query_reports_bucket_and_candidate_stats() {
    let scene = Scene::from_shapes(vec![
        rectangle(layer(1, 2), bounds(0.0, 0.0, 10.0, 10.0)),
        rectangle(layer(1, 2), bounds(8.0, 8.0, 20.0, 20.0)),
        rectangle(layer(1, 2), bounds(400.0, 400.0, 410.0, 410.0)),
    ]);

    let query = visible_shapes(&scene, bounds(-5.0, -5.0, 25.0, 25.0));

    assert_eq!(query.indices, vec![0, 1]);
    assert!(query.stats.bucket_hits >= 1);
    assert!(query.stats.candidate_shapes >= 2);
    assert_eq!(query.stats.visible_shapes, 2);
}

#[test]
fn render_debug_stats_capture_query_and_cache_state() {
    let stats = RenderDebugStats::new(
        9,
        3,
        2,
        1,
        24,
        2,
        2,
        1,
        1,
        4,
        2,
        12,
        64,
        768,
        3,
        2,
        5,
        9,
        6,
        16,
        2,
        None,
        0,
        0,
        None,
        false,
        8,
        128,
        true,
        k(10.0),
        k(1.5),
    );

    assert_eq!(stats.total_shapes, 9);
    assert_eq!(stats.candidate_shapes, 3);
    assert_eq!(stats.visible_shapes, 2);
    assert_eq!(stats.bucket_hits, 1);
    assert_eq!(stats.vertex_count, 24);
    assert_eq!(stats.visible_tiles, 2);
    assert_eq!(stats.tile_cache_hits, 1);
    assert_eq!(stats.tile_cache_misses, 1);
    assert_eq!(stats.layer_cache_hits, 4);
    assert_eq!(stats.layer_cache_misses, 2);
    assert_eq!(stats.cache_entries, 12);
    assert_eq!(stats.cache_capacity, 64);
    assert_eq!(f(stats.hatch_spacing), 10.0);
    assert_eq!(f(stats.hatch_width), 1.5);
    assert_eq!(stats.cache_bytes, 768);
    assert_eq!(stats.cache_evictions, 3);
    assert_eq!(stats.prepared_shapes, 2);
    assert_eq!(stats.prepared_tiles, 5);
    assert_eq!(stats.prepared_fragments, 9);
    assert!(stats.cache_hit);
}

#[test]
fn tile_grid_provides_tile_layer_shape_indices() {
    let scene = Scene::from_shapes(vec![
        rectangle(layer(1, 1), bounds(0.0, 0.0, 10.0, 10.0)),
        rectangle(layer(1, 2), bounds(0.0, 0.0, 10.0, 10.0)),
        rectangle(layer(1, 2), bounds(0.0, 0.0, 8.0, 8.0)),
    ]);
    let (_, grid) = tile_grid(&scene, 2);
    let tile_id = TileId { col: 0, row: 0 };

    assert!(grid.layers_for_tile(tile_id).contains(&layer(1, 1)));
    assert!(grid.layers_for_tile(tile_id).contains(&layer(1, 2)));
    assert_eq!(grid.shape_indices_for_tile_layer(tile_id, layer(1, 1)), &[0]);
    assert_eq!(
        grid.shape_indices_for_tile_layer(tile_id, layer(1, 2)),
        &[1, 2]
    );
}

#[test]
fn prepared_tile_fragments_report_shape_tile_and_fragment_counts() {
    let scene = Scene::from_shapes(vec![rectangle(layer(1, 2), bounds(0.0, 0.0, 100.0, 100.0))]);
    let (grid, index) = tile_grid(&scene, 4);
    let prepared = cut(&scene, grid, &index);

    assert_eq!(prepared.prepared_shape_count(), 1);
    assert_eq!(prepared.prepared_tile_count(), 16);
    assert_eq!(prepared.prepared_fragment_count(), 16);
    assert!(prepared.layers_for_tile(TileId { col: 0, row: 0 }).len() >= 1);
}

#[test]
fn tile_grid_returns_only_tiles_overlapping_visible_world_bounds() {
    let scene = Scene::from_shapes(vec![
        rectangle(layer(1, 2), bounds(0.0, 0.0, 10.0, 10.0)),
        rectangle(layer(1, 2), bounds(200.0, 200.0, 210.0, 210.0)),
    ]);
    let grid = Grid::of(area_of(&scene), DEFAULT_TILE_GRID_DIVISIONS as i32);
    let index = TileGridIndex::build(&scene, &grid.spans(&scene));

    let tiles = query_visible_tiles(&index, grid.span(bounds(-5.0, -5.0, 20.0, 20.0)));

    assert_eq!(tiles.len(), 1);
}

#[test]
fn denser_tile_grid_splits_visible_region_into_more_tiles() {
    let scene = Scene::from_shapes(vec![rectangle(layer(1, 2), bounds(0.0, 0.0, 100.0, 100.0))]);
    let (coarse, coarse_index) = tile_grid(&scene, 2);
    let (dense, dense_index) = tile_grid(&scene, 10);
    let visible = bounds(0.0, 0.0, 24.0, 24.0);

    let coarse_tiles = query_visible_tiles(&coarse_index, coarse.span(visible));
    let dense_tiles = query_visible_tiles(&dense_index, dense.span(visible));

    assert_eq!(coarse_tiles.len(), 1);
    assert!(dense_tiles.len() > coarse_tiles.len());
    assert_eq!(dense_tiles.len(), 9);
}

fn outline_in(bundle: &LayoutBundle, id: LayoutCellId, index: usize) -> PlacedOutline {
    let shape = &bundle.cell(id).expect("cell").local_shapes()[index];
    PlacedOutline {
        bounds: bounds_from_points(shape.points()).expect("points"),
        points: shape.points().to_vec(),
        stroke_width_world: shape.stroke_width(),
    }
}

fn flat_layout(id: u64, shapes: Vec<LayoutShape>) -> LayoutBundle {
    let root_id = LayoutCellId::new(id);
    LayoutBundle::new(
        vec![Arc::new(LayoutCell::new(
            root_id,
            String::from("root"),
            shapes,
            vec![],
        ))],
        vec![LayoutView::new(LayoutViewMetadata::new(
            String::from("root"),
            root_id,
        ))],
    )
    .expect("bundle")
}

#[test]
fn hierarchy_tile_hints_only_keep_layers_present_in_requested_tiles() {
    let layer_a = layer(1, 0);
    let layer_b = layer(2, 0);
    let bundle = flat_layout(
        1,
        vec![
            LayoutShape::rectangle(layer_a, bounds(0.0, 0.0, 10.0, 10.0)),
            LayoutShape::rectangle(layer_b, bounds(80.0, 80.0, 90.0, 90.0)),
        ],
    );
    let area = bounds(0.0, 0.0, 100.0, 100.0);
    let grid = Grid::of(area, 4);
    let index = TileGridIndex::build_for_bounds(4);

    let left_tile = TileId { col: 0, row: 0 };
    let right_tile = TileId { col: 3, row: 3 };
    let options = LayoutViewBuildOptions::new(LayoutCellId::new(1), 0, 0)
        .with_visible_world_bounds(Some(area));
    let hints_for = |tiles: &[TileId]| {
        build_hierarchy_tile_layer_hints_for_tiles(
            &bundle,
            options,
            &index,
            tiles,
            &|_: &Vec<PlacementStep>, local: Bounds| local,
            &|_: &Vec<PlacementStep>, id: LayoutCellId, at: usize| {
                outline_in(&bundle, id, at).bounds
            },
            &|_: Bounds, _: SubtreeScreenLod| false,
            &|of: Bounds| grid.span(of),
            &|tile: TileId| grid.tile_bounds(tile),
        )
    };

    let hints = hints_for(&[left_tile]);
    assert_eq!(hints.len(), 1);
    assert_eq!(hints[0].tile, left_tile);
    assert_eq!(hints[0].layers, vec![layer_a]);
    assert!(!hints.iter().any(|hint| hint.tile == right_tile));

    let both = hints_for(&[right_tile, left_tile]);
    assert_eq!(both[0].layers, vec![layer_b]);
    assert_eq!(both[1].layers, vec![layer_a]);
}

#[test]
fn hierarchy_tile_vertices_match_scene_tile_builder_for_same_tile() {
    let on = layer(7, 0);
    let bundle = flat_layout(
        11,
        vec![LayoutShape::rectangle(on, bounds(20.0, 20.0, 80.0, 80.0))],
    );
    let options = LayoutViewBuildOptions::new(LayoutCellId::new(11), 0, 0);
    let world = |_: &Vec<PlacementStep>, local: Bounds| local;
    let shape = |_: &Vec<PlacementStep>, id: LayoutCellId, at: usize| {
        outline_in(&bundle, id, at).bounds
    };
    let small = |_: Bounds, _: SubtreeScreenLod| false;
    let outline =
        |shape: &ViewShape| outline_in(&bundle, shape.cell_id, shape.shape_index.expect("shape"));
    let scene = build_workset(&bundle, options, &world, &shape, &small, &outline);
    let grid = Grid::of(bounds(0.0, 0.0, 100.0, 100.0), 4);
    let tile = grid.tile_bounds(TileId { col: 1, row: 1 });

    let mut look = Look::new(0.5, ClosedShapeDrawMode::HatchOutline);
    look.tile = Some(tile);
    let expected = scene_vertices(&scene, &[0], &look);

    let zoom = 0.5;
    let actual = build_hierarchy_tile_vertices(
        &bundle,
        options,
        on,
        ClosedShapeDrawMode::HatchOutline,
        HatchStylePreset::LeftDiagonal,
        tile,
        scale_bounds(tile, 0.5),
        &world,
        &shape,
        &small,
        &outline,
        &|at: Point| unvec(vec(at) * 0.5),
        &DrawMath {
                near,
                cross,
                clip,
                extent,
                ring_target: |of: Bounds| target(of, 8.0, 24.0),
                ring_sample,
                line_target: |of: Bounds| target(of, 6.0, 20.0),
                line_sample,
                winding,
                convex,
                inside,
                mark,
                mark_line,
            },
        &PenMath {
            strip,
            on_screen: |width: i32| k(f(width) * zoom),
        },
    );
    assert_eq!(actual.len(), expected.len());
    assert_eq!(actual, expected);
    assert!(!actual.is_empty());

    let other = build_hierarchy_tile_vertices(
        &bundle,
        options,
        layer(8, 0),
        ClosedShapeDrawMode::HatchOutline,
        HatchStylePreset::LeftDiagonal,
        tile,
        scale_bounds(tile, 0.5),
        &world,
        &shape,
        &small,
        &outline,
        &|at: Point| unvec(vec(at) * 0.5),
        &DrawMath {
                near,
                cross,
                clip,
                extent,
                ring_target: |of: Bounds| target(of, 8.0, 24.0),
                ring_sample,
                line_target: |of: Bounds| target(of, 6.0, 20.0),
                line_sample,
                winding,
                convex,
                inside,
                mark,
                mark_line,
            },
        &PenMath {
            strip,
            on_screen: |width: i32| k(f(width) * zoom),
        },
    );
    assert!(other.is_empty());
}

#[test]
fn scene_tiles_draw_whole_shapes_and_then_pieces() {
    let on = layer(1, 2);
    let scene = Scene::from_shapes(vec![
        rectangle(on, bounds(0.0, 0.0, 100.0, 100.0)),
        rectangle(on, bounds(1.0, 1.0, 20.0, 20.0)),
        rectangle(layer(3, 0), bounds(1.0, 1.0, 20.0, 20.0)),
    ]);
    let (grid, index) = tile_grid(&scene, 4);
    let prepared = cut(&scene, grid, &index);
    assert_eq!(prepared.shape_indices(), &vec![0]);

    let tile = TileId { col: 0, row: 0 };
    let zoom = 1.0;
    let vertices = build_scene_tile_vertices(
        &scene,
        &index,
        &prepared,
        tile,
        on,
        ClosedShapeDrawMode::Hatch,
        &LayerMap::new(),
        &LayerMap::new(),
        HatchStylePreset::Dots,
        grid.tile_bounds(tile),
        &|at: Point| at,
        &DrawMath {
                near,
                cross,
                clip,
                extent,
                ring_target: |of: Bounds| target(of, 8.0, 24.0),
                ring_sample,
                line_target: |of: Bounds| target(of, 6.0, 20.0),
                line_sample,
                winding,
                convex,
                inside,
                mark,
                mark_line,
            },
        &PenMath {
            strip,
            on_screen: |width: i32| k(f(width) * zoom),
        },
    );
    assert_eq!(vertices.len(), 12);
    assert!(vertices.iter().all(|vertex| {
        vertex.hatch_style == HatchStylePreset::Dots.as_tag()
            && vertex.rgb
                == Rgb {
                    red: 120,
                    green: 150,
                    blue: 255,
                }
    }));
    assert_eq!(triangles_area(&vertices[..6]), 19.0 * 19.0);
    assert_eq!(triangles_area(&vertices[6..]), 25.0 * 25.0);
}

#[test]
fn small_shapes_become_marks() {
    let scene = Scene::from_shapes(vec![
        rectangle(layer(4, 0), bounds(9.0, 9.0, 11.0, 11.0)),
        polyline(layer(4, 0), &[Vec2::new(9.0, 9.5), Vec2::new(11.0, 10.5)], 1.0),
    ]);
    let outline = scene_vertices(&scene, &[0], &Look::new(1.0, ClosedShapeDrawMode::Outline));
    assert_eq!(outline.len(), 24);
    let area = scene_vertices(&scene, &[0], &Look::new(1.0, ClosedShapeDrawMode::HatchOutline));
    assert_eq!(area.len(), 6);
    assert_eq!(triangles_area(&area), 2.25);
    let line = scene_vertices(&scene, &[1], &Look::new(1.0, ClosedShapeDrawMode::Outline));
    assert_eq!(line.len(), 6);
    assert_eq!(triangles_area(&line), 1.5);
}

#[test]
fn hatched_outlines_of_small_shapes_are_left_unhatched() {
    let scene = Scene::from_shapes(vec![rectangle(layer(4, 0), bounds(0.0, 0.0, 12.0, 12.0))]);
    let small = scene_vertices(&scene, &[0], &Look::new(1.0, ClosedShapeDrawMode::HatchOutline));
    assert_eq!(small.len(), 24);
    let large = scene_vertices(&scene, &[0], &Look::new(1.1, ClosedShapeDrawMode::HatchOutline));
    assert_eq!(large.len(), 30);
}

#[test]
fn hidden_layers_are_not_drawn() {
    let scene = Scene::from_shapes(vec![
        rectangle(layer(1, 0), bounds(0.0, 0.0, 20.0, 20.0)),
        rectangle(layer(2, 0), bounds(0.0, 0.0, 20.0, 20.0)),
    ]);
    let mut look = Look::new(1.0, ClosedShapeDrawMode::Outline);
    look.hidden.insert(layer(1, 0));
    assert_eq!(scene_vertices(&scene, &[0, 1], &look).len(), 24);
    assert_eq!(scene_vertices(&scene, &[0], &look).len(), 0);
}

#[test]
fn fragments_stay_within_their_budget() {
    let scene = Scene::from_shapes(vec![
        rectangle(layer(1, 0), bounds(0.0, 0.0, 100.0, 100.0)),
        rectangle(layer(2, 0), bounds(0.0, 0.0, 30.0, 30.0)),
    ]);
    let (grid, index) = tile_grid(&scene, 4);
    let cut_within = |fragments: usize, points: usize| {
        prepare_large_shape_tile_fragments_with_budget(
            &scene,
            &index,
            &grid.spans(&scene),
            4,
            PreparedFragmentBudget::new(fragments, points),
            &near,
            &cross,
            &clip,
            &|tile: TileId| grid.tile_bounds(tile),
        )
    };
    let all = cut_within(20, 80);
    assert_eq!(all.shape_indices(), &vec![0, 1]);
    assert_eq!(all.prepared_fragment_count(), 20);
    let second = cut_within(15, 80);
    assert_eq!(second.shape_indices(), &vec![1]);
    assert_eq!(second.prepared_fragment_count(), 4);
    assert_eq!(second.prepared_tile_count(), 4);
    let none = cut_within(20, 15);
    assert_eq!(none.prepared_shape_count(), 0);
    assert!(none.fragments_for_tile_layer(TileId { col: 0, row: 0 }, layer(1, 0)).is_none());
}

#[test]
fn expected_pieces_are_counted_without_overflow() {
    assert_eq!(estimated_fragment_count_for_shape(true, 100, 6), 6);
    assert_eq!(estimated_fragment_count_for_shape(false, 5, 6), 24);
    assert_eq!(estimated_fragment_count_for_shape(false, 0, 6), 0);
    assert_eq!(
        estimated_fragment_count_for_shape(false, usize::MAX, 6),
        usize::MAX
    );
    assert_eq!(estimated_point_copies_for_shape(true, 100, 6), 600);
    assert_eq!(estimated_point_copies_for_shape(false, 5, 6), 48);
    assert_eq!(
        estimated_point_copies_for_shape(true, usize::MAX, 2),
        usize::MAX
    );
}

#[test]
fn outlines_are_tidied_and_cut() {
    let square = [
        point(0.0, 0.0),
        point(0.0, 0.0),
        point(10.0, 0.0),
        point(10.0, 10.0),
        point(0.0, 10.0),
        point(0.0, 0.0),
    ];
    let tidy = normalized_closed_points(&square, &near);
    assert_eq!(tidy, [square[0], square[2], square[3], square[4]]);

    let quarter = clip_closed_polygon_to_bounds(
        &square,
        bounds(5.0, 5.0, 20.0, 20.0),
        &near,
        &cross,
    );
    let corners: Vec<Vec2> = quarter.iter().map(|at| vec(*at)).collect();
    assert_eq!(polygon_area(&corners), 25.0);
    assert_eq!(corners.len(), 4);

    let apart = clip_closed_polygon_to_bounds(
        &square,
        bounds(15.0, 15.0, 20.0, 20.0),
        &near,
        &cross,
    );
    assert!(apart.is_empty());
}

#[test]
fn polygons_are_split_into_triangles() {
    let points = vec![
        point(0.0, 0.0),
        point(4.0, 0.0),
        point(4.0, 4.0),
        point(0.0, 4.0),
    ];
    let split = |points: &Vec<Point>| {
        triangulate_polygon(
            points.len(),
            winding(points),
            &|a: usize, b: usize, c: usize| convex(points, a, b, c),
            &|p: usize, a: usize, b: usize, c: usize| inside(points, p, a, b, c),
        )
    };
    assert_eq!(split(&points), Some(vec![(3, 0, 1), (1, 2, 3)]));
    let flat = vec![point(0.0, 0.0), point(1.0, 1.0), point(2.0, 2.0)];
    assert_eq!(split(&flat), None);
    assert_eq!(split(&vec![point(0.0, 0.0), point(1.0, 1.0)]), None);
}

#[test]
fn outlines_lose_detail_only_when_they_are_small() {
    assert!(should_use_coarse_closed_shape_lod(64, k(24.0)));
    assert!(!should_use_coarse_closed_shape_lod(63, k(24.0)));
    assert!(!should_use_coarse_closed_shape_lod(64, k(24.1)));
    assert!(is_tiny_shape(3, k(2.0)));
    assert!(!is_tiny_shape(3, k(2.1)));
    assert!(!is_tiny_shape(0, k(0.0)));
    assert!(should_suppress_fill_for_small_closed_shape(4, k(12.0)));
    assert!(!should_suppress_fill_for_small_closed_shape(4, k(12.1)));

    let line: Vec<Point> = (0..100).map(|at| point(at as f32 * 0.1, 0.0)).collect();
    let thin = coarse_open_polyline_points(
        &line,
        &extent,
        &|of: Bounds| target(of, 6.0, 20.0),
        &line_sample,
    )
    .expect("thin line");
    assert_eq!(thin.len(), 12);
    assert_eq!(thin[0], line[0]);
    assert_eq!(thin[11], line[99]);

    let ring: Vec<Point> = circle().shapes()[0]
        .points
        .iter()
        .map(|at| unvec(vec(*at) * 0.24))
        .collect();
    let thin = coarse_closed_shape_points(
        &ring,
        &near,
        &|of: Bounds| target(of, 8.0, 24.0),
        &ring_sample,
    )
    .expect("thin ring");
    assert_eq!(thin.len(), 24);
    assert_eq!(thin[1], ring[30]);
}

#[test]
fn queries_find_every_shape_that_is_seen() {
    let mut shapes = Vec::new();
    for col in 0..8 {
        for row in 0..8 {
            let (x, y) = (col as f32 * 13.0, row as f32 * 11.0);
            shapes.push(rectangle(layer(1, 0), bounds(x, y, x + 15.0, y + 3.0)));
        }
    }
    let scene = Scene::from_shapes(shapes);
    for visible in [
        bounds(0.0, 0.0, 5.0, 5.0),
        bounds(14.0, 20.0, 60.0, 31.0),
        bounds(-50.0, -50.0, 500.0, 500.0),
        bounds(300.0, 300.0, 400.0, 400.0),
    ] {
        let expected: Vec<usize> = (0..64)
            .filter(|index| scene.shapes()[*index].bounds.intersects(visible))
            .collect();
        assert_eq!(visible_shapes(&scene, visible).indices, expected);
    }
    let nothing = Scene::empty();
    assert!(visible_shapes(&nothing, bounds(0.0, 0.0, 1.0, 1.0)).indices.is_empty());
}

#[test]
fn layer_colours_are_fixed() {
    assert_eq!(base_layer_rgb(layer(1, 1)), [80, 220, 120]);
    assert_eq!(base_layer_rgb(layer(1, 2)), [120, 150, 255]);
    assert_eq!(base_layer_rgb(layer(70, 31)), [250, 180, 70]);
    assert_eq!(base_layer_rgb(layer(0, 0)), [40, 40, 40]);
    assert_eq!(base_layer_rgb(layer(2, 0)), [255, 196, 180]);
}

#[test]
fn scissor_rectangles_meet() {
    let a = ScissorRect {
        x: 10,
        y: 10,
        width: 30,
        height: 20,
    };
    let b = ScissorRect {
        x: 25,
        y: 0,
        width: 100,
        height: 15,
    };
    let common = a.intersect(b).expect("common part");
    assert_eq!((common.x, common.y, common.width, common.height), (25, 10, 15, 5));
    let apart = ScissorRect {
        x: 40,
        y: 10,
        width: 5,
        height: 5,
    };
    assert!(a.intersect(apart).is_none());
}

fn tile_scissor_rect(
    tile: Bounds,
    zoom: f32,
    translation: Vec2,
    pixels_per_point: f32,
    surface_width: u32,
    surface_height: u32,
) -> Option<ScissorRect> {
    let min = Vec2::new(f(tile.min_x), f(tile.min_y)) * zoom + translation;
    let max = Vec2::new(f(tile.max_x), f(tile.max_y)) * zoom + translation;
    let low = (min * pixels_per_point).floor();
    let high = ((min + (max - min)) * pixels_per_point).ceil();
    scissor_from_edges(
        low.x as i64,
        low.y as i64,
        high.x as i64,
        high.y as i64,
        surface_width,
        surface_height,
    )
}

#[test]
fn tile_scissor_rect_limits_draw_to_tile_region() {
    let tile = bounds(0.0, 0.0, 50.0, 25.0);
    let rect = tile_scissor_rect(tile, 2.0, Vec2::new(10.0, 20.0), 1.0, 400, 300)
        .expect("tile scissor");

    assert_eq!(rect.x, 10);
    assert_eq!(rect.y, 20);
    assert_eq!(rect.width, 100);
    assert_eq!(rect.height, 50);
}

#[test]
fn scissor_rectangles_stay_on_the_surface() {
    let rect = scissor_from_edges(-5, 10, 500, 20, 400, 300).expect("rectangle");
    assert_eq!((rect.x, rect.y, rect.width, rect.height), (0, 10, 400, 10));
    assert!(scissor_from_edges(-50, 10, -5, 20, 400, 300).is_none());
    assert!(scissor_from_edges(400, 10, 500, 20, 400, 300).is_none());
    assert!(scissor_from_edges(20, 10, 10, 20, 400, 300).is_none());
}

#[test]
fn lines_are_as_wide_as_they_should_be() {
    let twice = |width: i32| k(f(width) * 2.0);
    let width = |on: LayerId, stroke: Option<f32>| {
        f(stroke_width_for_layer(on, stroke.map(k), &twice))
    };
    assert_eq!(width(layer(1, 1), None), 2.0);
    assert_eq!(width(layer(1, 2), None), 1.5);
    assert_eq!(width(layer(1, 3), None), 1.0);
    assert_eq!(width(layer(1, 1), Some(3.0)), 6.0);
    assert_eq!(width(layer(1, 1), Some(0.1)), 1.0);
    assert_eq!(width(layer(1, 1), Some(100.0)), 12.0);

    let zoom = 1.0;
    let mut out = Vec::new();
    let black = Rgb {
        red: 0,
        green: 0,
        blue: 0,
    };
    let pen = PenMath {
        strip,
        on_screen: |width: i32| k(f(width) * zoom),
    };
    emit_segment(&mut out, point(0.0, 0.0), point(10.0, 0.0), k(0.5), black, &pen);
    assert_eq!(out.len(), 6);
    assert_eq!(triangles_area(&out), 10.0);
    emit_segment(&mut out, point(3.0, 3.0), point(3.0, 3.0), k(0.5), black, &pen);
    assert_eq!(out.len(), 6);
}

#[test]
fn outlines_alone_are_drawn_where_asked_for() {
    let scene = Scene::from_shapes(vec![
        rectangle(layer(1, 0), bounds(0.0, 0.0, 20.0, 20.0)),
        rectangle(layer(2, 0), bounds(50.0, 50.0, 70.0, 70.0)),
    ]);
    let zoom = 1.0;
    let lines = build_scaled_line_vertices_for_indices(
        &scene,
        &LayerSet::from_layers(&[layer(2, 0)]),
        &vec![0, 1],
        &|at: Point| at,
        &DrawMath {
            near,
            cross,
            clip,
            extent,
            ring_target: |of: Bounds| target(of, 8.0, 24.0),
            ring_sample,
            line_target: |of: Bounds| target(of, 6.0, 20.0),
            line_sample,
            winding,
            convex,
            inside,
            mark,
            mark_line,
        },
        &PenMath {
            strip,
            on_screen: |width: i32| k(f(width) * zoom),
        },
    );
    assert_eq!(lines.len(), 24);
    assert!(lines.iter().all(|vertex| vertex.kind == VertexKind::Outline));

    let (grid, index) = shape_index(&scene);
    let visible = bounds(45.0, 45.0, 60.0, 60.0);
    let seen = build_line_vertices(
        &scene,
        &index,
        visible,
        grid.span(visible),
        &LayerSet::new(),
        &|at: Point| at,
        &DrawMath {
            near,
            cross,
            clip,
            extent,
            ring_target: |of: Bounds| target(of, 8.0, 24.0),
            ring_sample,
            line_target: |of: Bounds| target(of, 6.0, 20.0),
            line_sample,
            winding,
            convex,
            inside,
            mark,
            mark_line,
        },
        &PenMath {
            strip,
            on_screen: |width: i32| k(f(width) * zoom),
        },
    );
    assert_eq!(seen.len(), 24);
    assert!(seen.iter().all(|vertex| f(vertex.position.x) > 40.0));
}
