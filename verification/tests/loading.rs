//! From the structures of files to scenes and layouts.

use flayout_wgpu::coords::{coord_bits, coord_from_bits};
use flayout_wgpu::error::AppError;
use flayout_wgpu::io::flatten::{CopyStep, FlatShape};
use flayout_wgpu::io::gds::{
    array_offset_of_copy, array_reach, array_ref_offsets, build_gds_scene_bundle, path_base_width, ArrayOffset,
    ArrayReach, GdsArrayRef, GdsElement, GdsOutline, GdsPath, GdsStructRef, GdsStructure,
    GdsTransform,
};
use flayout_wgpu::io::layered::{build_gds_layout_bundle, GdsMath};
use flayout_wgpu::io::oasis::{
    build_oasis_scene_bundle, offset_of_copy, repetition_offsets, CopyOffset, OasisCell,
    OasisElement, OasisPath, OasisPlacement, OasisPolygon, OasisRectangle, OasisRepetition,
};
use flayout_wgpu::layout::{
    LayoutBundle, LayoutCellId, LayoutRepetition, LayoutTransform, LayoutViewMetadata,
};
use flayout_wgpu::scene::{
    bounds_from_points, Bounds, PlacedOutline, Point, Scene, SceneBundle,
};
use flayout_wgpu::view_builder::{
    LayoutViewBuildOptions, PlacementStep, SubtreeScreenLod, ViewShape,
};
use flayout_wgpu::workset::build_workset;
use glam::Vec2;

fn k(value: f32) -> i32 {
    coord_from_bits((value + 0.0).to_bits())
}

fn f(key: i32) -> f32 {
    f32::from_bits(coord_bits(key))
}

fn bounds(min_x: f32, min_y: f32, max_x: f32, max_y: f32) -> Bounds {
    Bounds::new(k(min_x), k(min_y), k(max_x), k(max_y))
}

fn point(x: f32, y: f32) -> Point {
    Point { x: k(x), y: k(y) }
}

fn vec(at: Point) -> Vec2 {
    Vec2::new(f(at.x), f(at.y))
}

fn unvec(at: Vec2) -> Point {
    point(at.x, at.y)
}

fn pad(around: Bounds, width: i32) -> Bounds {
    let half = f(width) * 0.5;
    bounds(
        f(around.min_x) - half,
        f(around.min_y) - half,
        f(around.max_x) + half,
        f(around.max_y) + half,
    )
}

#[derive(Clone, Copy)]
struct Affine {
    x: Vec2,
    y: Vec2,
    shift: Vec2,
}

impl Affine {
    fn identity() -> Self {
        Affine {
            x: Vec2::X,
            y: Vec2::Y,
            shift: Vec2::ZERO,
        }
    }

    fn of(mirror: bool, degrees: f32, scale: f32, shift: Vec2) -> Self {
        let turn = Vec2::from_angle(degrees.to_radians());
        let flip = if mirror { -1.0 } else { 1.0 };
        let scale = scale.abs();
        if degrees == 0.0 {
            return Affine {
                x: Vec2::X * scale,
                y: Vec2::Y * flip * scale,
                shift,
            };
        }
        Affine {
            x: turn.rotate(Vec2::X * scale),
            y: turn.rotate(Vec2::Y * flip * scale),
            shift,
        }
    }

    fn vector(self, v: Vec2) -> Vec2 {
        self.x * v.x + self.y * v.y
    }

    fn point(self, p: Vec2) -> Vec2 {
        self.vector(p) + self.shift
    }

    fn then(self, local: Affine) -> Affine {
        Affine {
            x: self.vector(local.x),
            y: self.vector(local.y),
            shift: self.point(local.shift),
        }
    }

    fn scale(self) -> f32 {
        self.x.length().max(self.y.length())
    }

    fn around(self, local: Bounds) -> Bounds {
        let corners = [
            self.point(Vec2::new(f(local.min_x), f(local.min_y))),
            self.point(Vec2::new(f(local.max_x), f(local.min_y))),
            self.point(Vec2::new(f(local.max_x), f(local.max_y))),
            self.point(Vec2::new(f(local.min_x), f(local.max_y))),
        ];
        let low = corners.iter().fold(corners[0], |a, b| a.min(*b));
        let high = corners.iter().fold(corners[0], |a, b| a.max(*b));
        bounds(low.x, low.y, high.x, high.y)
    }
}

fn along(bundle: &LayoutBundle, root: LayoutCellId, path: &[PlacementStep]) -> Affine {
    let mut at = root;
    let mut total = Affine::identity();
    for step in path {
        let instance = &bundle.cell(at).expect("cell").instances()[step.instance];
        let t = instance.transform();
        let mut shift = vec(t.translation);
        if let Some(LayoutRepetition::RegularGrid {
            column_step,
            row_step,
            ..
        }) = instance.repetition()
        {
            shift += vec(column_step) * step.col as f32 + vec(row_step) * step.row as f32;
        }
        total = total.then(Affine::of(
            t.mirrored_x,
            f(t.rotation_degrees),
            f(t.magnification),
            shift,
        ));
        at = instance.target_cell_id();
    }
    total
}

fn outline_of(
    bundle: &LayoutBundle,
    root: LayoutCellId,
    path: &[PlacementStep],
    id: LayoutCellId,
    index: usize,
) -> PlacedOutline {
    let world = along(bundle, root, path);
    let shape = &bundle.cell(id).expect("cell").local_shapes()[index];
    let points: Vec<Point> = shape
        .points()
        .iter()
        .map(|at| unvec(world.point(vec(*at))))
        .collect();
    let stroke = shape.stroke_width().map(|width| k(f(width) * world.scale()));
    let around = bounds_from_points(&points).expect("points");
    PlacedOutline {
        bounds: match stroke {
            Some(width) => pad(around, width),
            None => around,
        },
        points,
        stroke_width_world: stroke,
    }
}

fn mark_of(around: Bounds, lod: SubtreeScreenLod) -> PlacedOutline {
    let size = (f(lod.min_subtree_screen_extent)
        / f(lod.world_to_screen_scale).max(f32::EPSILON))
    .max(1.0);
    let x = (f(around.min_x) + f(around.max_x)) * 0.5;
    let y = (f(around.min_y) + f(around.max_y)) * 0.5;
    let points = vec![point(x - size * 0.5, y), point(x + size * 0.5, y)];
    let stroke = k(size * 0.5);
    PlacedOutline {
        bounds: pad(bounds_from_points(&points).expect("points"), stroke),
        points,
        stroke_width_world: Some(stroke),
    }
}

fn is_small(around: Bounds, lod: SubtreeScreenLod) -> bool {
    let width = f(around.max_x) - f(around.min_x);
    let height = f(around.max_y) - f(around.min_y);
    width.max(height).max(0.0) * f(lod.world_to_screen_scale).max(0.0)
        < f(lod.min_subtree_screen_extent)
}

fn outlined(points: Vec<Vec2>, base_width: Option<f32>, world: Affine) -> PlacedOutline {
    let points: Vec<Point> = points.into_iter().map(|at| unvec(world.point(at))).collect();
    let stroke = base_width.map(|width| k((width * world.scale()).max(1.0)));
    let around = bounds_from_points(&points).expect("points");
    PlacedOutline {
        bounds: match stroke {
            Some(width) => pad(around, width),
            None => around,
        },
        points,
        stroke_width_world: stroke,
    }
}

fn gds_affine(origin: Vec2, strans: Option<GdsTransform>) -> Affine {
    match strans {
        Some(t) => Affine::of(
            t.reflection,
            f64::from_bits(t.angle.unwrap_or(0)) as f32,
            t.magnification.map(f64::from_bits).unwrap_or(1.0) as f32,
            origin,
        ),
        None => Affine {
            shift: origin,
            ..Affine::identity()
        },
    }
}

fn at(xy: (i32, i32)) -> Vec2 {
    Vec2::new(xy.0 as f32, xy.1 as f32)
}

fn array_shift(aref: &GdsArrayRef, copy: u64) -> Vec2 {
    let reach = array_reach(aref);
    let offset = array_ref_offsets(aref.columns, aref.rows)[copy as usize];
    let step = |end: Option<((i32, i32), u16)>| match end {
        Some((end, count)) => (at(end) - at(reach.origin)) / count as f32,
        None => Vec2::ZERO,
    };
    at(reach.origin)
        + step(reach.columns) * offset.col as f32
        + step(reach.rows) * offset.row as f32
}

fn gds_outline(structures: &[GdsStructure], shape: &FlatShape) -> PlacedOutline {
    let mut world = Affine::identity();
    for step in &shape.path {
        world = world.then(match &structures[step.cell].elements[step.item] {
            GdsElement::StructRef(sref) => gds_affine(at(sref.xy), sref.strans),
            GdsElement::ArrayRef(aref) => gds_affine(array_shift(aref, step.copy), aref.strans),
            _ => panic!("not a reference"),
        });
    }
    let CopyStep { cell, item, .. } = shape.place;
    match &structures[cell].elements[item] {
        GdsElement::Boundary(outline) | GdsElement::Box(outline) => {
            outlined(outline.xy.iter().map(|xy| at(*xy)).collect(), None, world)
        }
        GdsElement::Path(path) => outlined(
            path.xy.iter().map(|xy| at(*xy)).collect(),
            Some(path_base_width(path) as f32),
            world,
        ),
        _ => panic!("not a shape"),
    }
}

fn gds_scenes(structures: &[GdsStructure]) -> Result<SceneBundle, AppError> {
    let outline = |shape: &FlatShape| gds_outline(structures, shape);
    build_gds_scene_bundle(structures, &outline)
}

fn shifted(offset: CopyOffset) -> Vec2 {
    Vec2::new(
        offset.col as f32 * offset.x_step as f32,
        offset.row as f32 * offset.y_step as f32,
    )
}

fn oasis_outline(cells: &[OasisCell], shape: &FlatShape) -> PlacedOutline {
    let mut world = Affine::identity();
    for step in &shape.path {
        let OasisElement::Placement(placement) = &cells[step.cell].elements[step.item] else {
            panic!("not a placement");
        };
        world = world.then(Affine::of(
            placement.mirror,
            placement.angle.map(f64::from_bits).unwrap_or(0.0) as f32,
            placement.magnification.map(f64::from_bits).unwrap_or(1.0) as f32,
            Vec2::new(placement.x as f32, placement.y as f32)
                + shifted(offset_of_copy(&placement.repetition, step.copy)),
        ));
    }
    let place = shape.place;
    let moved = |x: i64, y: i64, points: &[(i64, i64)], delta: Vec2| -> Vec<Vec2> {
        points
            .iter()
            .map(|(px, py)| Vec2::new(x as f32 + *px as f32, y as f32 + *py as f32) + delta)
            .collect()
    };
    match &cells[place.cell].elements[place.item] {
        OasisElement::Rectangle(r) => {
            let delta = shifted(offset_of_copy(&r.repetition, place.copy));
            let (w, h) = (r.width as i64, r.height as i64);
            outlined(
                moved(r.x, r.y, &[(0, 0), (w, 0), (w, h), (0, h)], delta),
                None,
                world,
            )
        }
        OasisElement::Polygon(p) => {
            let delta = shifted(offset_of_copy(&p.repetition, place.copy));
            outlined(moved(p.x, p.y, &p.points, delta), None, world)
        }
        OasisElement::Path(p) => {
            let delta = shifted(offset_of_copy(&p.repetition, place.copy));
            outlined(
                moved(p.x, p.y, &p.points, delta),
                Some(p.half_width as f32 * 2.0),
                world,
            )
        }
        _ => panic!("not a shape"),
    }
}

fn oasis_scenes(cells: &[OasisCell]) -> Result<SceneBundle, AppError> {
    let outline = |shape: &FlatShape| oasis_outline(cells, shape);
    build_oasis_scene_bundle(cells, &outline)
}

fn structure(name: &str, elements: Vec<GdsElement>) -> GdsStructure {
    GdsStructure {
        name: name.to_string(),
        elements,
    }
}

fn boundary(layer: i16, datatype: i16, xy: Vec<(i32, i32)>) -> GdsElement {
    GdsElement::Boundary(GdsOutline {
        layer,
        datatype,
        xy,
    })
}

fn reference(name: &str, xy: (i32, i32), strans: Option<GdsTransform>) -> GdsElement {
    GdsElement::StructRef(GdsStructRef {
        sname: name.to_string(),
        xy,
        strans,
    })
}

fn cell(name: &str, elements: Vec<OasisElement>) -> OasisCell {
    OasisCell {
        name: name.to_string(),
        elements,
    }
}

fn assert_bounds_close(bounds: Bounds, expected: (f32, f32, f32, f32)) {
    assert!((f(bounds.min_x) - expected.0).abs() < 0.01);
    assert!((f(bounds.min_y) - expected.1).abs() < 0.01);
    assert!((f(bounds.max_x) - expected.2).abs() < 0.01);
    assert!((f(bounds.max_y) - expected.3).abs() < 0.01);
}

fn assert_vec2_close(actual: Point, expected: Vec2) {
    let actual = vec(actual);
    assert!(
        (actual.x - expected.x).abs() < 0.01,
        "x mismatch: {actual:?} vs {expected:?}"
    );
    assert!(
        (actual.y - expected.y).abs() < 0.01,
        "y mismatch: {actual:?} vs {expected:?}"
    );
}

#[test]
fn gds_bundle_uses_only_root_cells_and_flattens_struct_refs() {
    let structures = vec![
        structure(
            "leaf",
            vec![boundary(
                1,
                0,
                vec![(0, 0), (10, 0), (10, 20), (0, 20), (0, 0)],
            )],
        ),
        structure("top", vec![reference("leaf", (100, 200), None)]),
        structure(
            "standalone",
            vec![boundary(2, 0, vec![(0, 0), (5, 0), (5, 5), (0, 5), (0, 0)])],
        ),
    ];

    let bundle = gds_scenes(&structures).expect("bundle");
    assert_eq!(bundle.views().len(), 2);
    assert_eq!(bundle.views()[0].name, "top");
    assert_eq!(bundle.views()[1].name, "standalone");

    let top_scene = &bundle.views()[0].scene;
    assert_eq!(top_scene.stats().shape_count, 1);
    assert_eq!(top_scene.shapes()[0].hierarchy_level, 1);
    let bounds = top_scene.bounds().expect("bounds");
    assert_eq!(f(bounds.min_x), 100.0);
    assert_eq!(f(bounds.min_y), 200.0);
    assert_eq!(f(bounds.max_x), 110.0);
    assert_eq!(f(bounds.max_y), 220.0);

    let standalone_scene = &bundle.views()[1].scene;
    assert_eq!(standalone_scene.shapes()[0].hierarchy_level, 0);
}

#[test]
fn gds_array_ref_uses_full_array_span_for_column_and_row_steps() {
    let structures = vec![
        structure(
            "leaf",
            vec![boundary(
                1,
                0,
                vec![(0, 0), (10, 0), (10, 10), (0, 10), (0, 0)],
            )],
        ),
        structure(
            "top",
            vec![GdsElement::ArrayRef(GdsArrayRef {
                sname: "leaf".to_string(),
                columns: 4,
                rows: 4,
                xy: vec![(0, 0), (400, 0), (0, 400)],
                strans: None,
            })],
        ),
    ];

    let bundle = gds_scenes(&structures).expect("bundle");
    let scene = &bundle.views()[0].scene;
    let centers: Vec<Vec2> = scene
        .shapes()
        .iter()
        .map(|shape| {
            Vec2::new(
                (f(shape.bounds.min_x) + f(shape.bounds.max_x)) * 0.5,
                (f(shape.bounds.min_y) + f(shape.bounds.max_y)) * 0.5,
            )
        })
        .collect();

    assert_eq!(centers.len(), 16);
    assert!(centers.contains(&Vec2::new(5.0, 5.0)));
    assert!(centers.contains(&Vec2::new(105.0, 5.0)));
    assert!(centers.contains(&Vec2::new(305.0, 305.0)));
    assert!(!centers.contains(&Vec2::new(405.0, 405.0)));
}

#[test]
fn gds_struct_ref_applies_strans_to_child_geometry() {
    let structures = vec![
        structure(
            "leaf",
            vec![boundary(
                1,
                0,
                vec![(0, 0), (10, 0), (10, 20), (0, 20), (0, 0)],
            )],
        ),
        structure(
            "top",
            vec![reference(
                "leaf",
                (100, 200),
                Some(GdsTransform {
                    reflection: true,
                    magnification: Some(2.0f64.to_bits()),
                    angle: Some(90.0f64.to_bits()),
                }),
            )],
        ),
    ];

    let bundle = gds_scenes(&structures).expect("bundle");
    let shape = &bundle.views()[0].scene.shapes()[0];
    let bounds = shape.bounds;

    assert_bounds_close(bounds, (100.0, 200.0, 140.0, 220.0));
    assert_eq!(shape.points.len(), 5);
    assert_vec2_close(shape.points[0], Vec2::new(100.0, 200.0));
    assert_vec2_close(shape.points[1], Vec2::new(100.0, 220.0));
    assert_vec2_close(shape.points[2], Vec2::new(140.0, 220.0));
    assert_vec2_close(shape.points[3], Vec2::new(140.0, 200.0));
}

#[test]
fn gds_path_width_scales_with_strans_magnification() {
    let structures = vec![
        structure(
            "leaf",
            vec![GdsElement::Path(GdsPath {
                layer: 3,
                datatype: 1,
                width: Some(4),
                xy: vec![(0, 0), (10, 0)],
            })],
        ),
        structure(
            "top",
            vec![reference(
                "leaf",
                (0, 0),
                Some(GdsTransform {
                    reflection: false,
                    magnification: Some(3.0f64.to_bits()),
                    angle: None,
                }),
            )],
        ),
    ];

    let bundle = gds_scenes(&structures).expect("bundle");
    let shape = &bundle.views()[0].scene.shapes()[0];
    assert_eq!(shape.stroke_width_world, Some(k(12.0)));
    assert_bounds_close(shape.bounds, (-6.0, -6.0, 36.0, 6.0));
}

#[test]
fn oasis_rectangle_matrix_repetition_expands_into_multiple_shapes() {
    let cells = vec![cell(
        "top",
        vec![OasisElement::Rectangle(OasisRectangle {
            layer: 10,
            datatype: 0,
            x: 0,
            y: 0,
            width: 10,
            height: 20,
            repetition: Some(OasisRepetition::Matrix {
                x_count: 2,
                y_count: 2,
                x_space: 100,
                y_space: 200,
            }),
        })],
    )];

    let bundle = oasis_scenes(&cells).expect("bundle");
    let scene = &bundle.views()[0].scene;
    assert_eq!(scene.stats().shape_count, 4);
    assert_bounds_close(scene.bounds().expect("bounds"), (0.0, 0.0, 110.0, 220.0));
}

#[test]
fn oasis_placement_grid_repetition_expands_child_instances() {
    let cells = vec![
        cell(
            "leaf",
            vec![OasisElement::Rectangle(OasisRectangle {
                layer: 2,
                datatype: 0,
                x: 0,
                y: 0,
                width: 10,
                height: 10,
                repetition: None,
            })],
        ),
        cell(
            "top",
            vec![OasisElement::Placement(OasisPlacement {
                cell_name: "leaf".to_string(),
                x: 50,
                y: 80,
                magnification: None,
                angle: None,
                mirror: false,
                repetition: Some(OasisRepetition::Grid {
                    count: 3,
                    grid_space: 40,
                }),
            })],
        ),
    ];

    let bundle = oasis_scenes(&cells).expect("bundle");
    let scene = &bundle.views()[0].scene;
    assert_eq!(scene.stats().shape_count, 3);
    assert_bounds_close(scene.bounds().expect("bounds"), (50.0, 80.0, 140.0, 90.0));
}

#[test]
fn oasis_polygon_arbitrary_repetition_expands_and_offsets_points() {
    let cells = vec![cell(
        "top",
        vec![OasisElement::Polygon(OasisPolygon {
            layer: 6,
            datatype: 1,
            x: 10,
            y: 20,
            points: vec![(0, 0), (30, 0), (30, 10), (0, 10), (0, 0)],
            repetition: Some(OasisRepetition::Arbitrary {
                x_displacements: vec![0, 100],
                y_displacements: vec![0, 50],
            }),
        })],
    )];

    let bundle = oasis_scenes(&cells).expect("bundle");
    let scene = &bundle.views()[0].scene;
    assert_eq!(scene.stats().shape_count, 2);
    assert_bounds_close(scene.bounds().expect("bounds"), (10.0, 20.0, 140.0, 80.0));
    assert_vec2_close(scene.shapes()[1].points[0], Vec2::new(110.0, 70.0));
}

#[test]
fn oasis_path_preserves_world_stroke_width_under_placement_transform() {
    let cells = vec![
        cell(
            "leaf",
            vec![OasisElement::Path(OasisPath {
                layer: 8,
                datatype: 0,
                x: 5,
                y: 10,
                half_width: 2,
                points: vec![(0, 0), (20, 0), (20, 10)],
                repetition: None,
            })],
        ),
        cell(
            "top",
            vec![OasisElement::Placement(OasisPlacement {
                cell_name: "leaf".to_string(),
                x: 100,
                y: 200,
                magnification: Some(2.0f64.to_bits()),
                angle: None,
                mirror: false,
                repetition: None,
            })],
        ),
    ];

    let bundle = oasis_scenes(&cells).expect("bundle");
    let shape = &bundle.views()[0].scene.shapes()[0];
    assert_eq!(shape.stroke_width_world, Some(k(8.0)));
    assert_bounds_close(shape.bounds, (106.0, 216.0, 154.0, 244.0));
    assert_vec2_close(shape.points[0], Vec2::new(110.0, 220.0));
    assert_vec2_close(shape.points[2], Vec2::new(150.0, 240.0));
}

#[test]
fn files_that_cannot_be_flattened_say_why() {
    let missing = vec![structure("top", vec![reference("gone", (0, 0), None)])];
    assert_eq!(
        gds_scenes(&missing).unwrap_err().message(),
        "layout parse failed: missing referenced cell: gone"
    );
    let cyclic = vec![
        structure("a", vec![reference("b", (0, 0), None)]),
        structure("b", vec![reference("a", (0, 0), None)]),
    ];
    assert_eq!(
        gds_scenes(&cyclic).unwrap_err().message(),
        "layout parse failed: cyclic cell reference detected at a"
    );
    let reused = vec![cell(
        "top",
        vec![OasisElement::Rectangle(OasisRectangle {
            layer: 1,
            datatype: 0,
            x: 0,
            y: 0,
            width: 1,
            height: 1,
            repetition: Some(OasisRepetition::ReusePrevious),
        })],
    )];
    assert_eq!(
        oasis_scenes(&reused).unwrap_err().message(),
        "layout parse failed: OASIS ReusePrevious repetition is not supported yet"
    );
}

#[test]
fn a_name_that_occurs_twice_means_the_last_cell() {
    let structures = vec![
        structure("leaf", vec![boundary(1, 0, vec![(0, 0), (1, 0), (1, 1)])]),
        structure("leaf", vec![boundary(2, 0, vec![(0, 0), (1, 0), (1, 1)])]),
        structure("top", vec![reference("leaf", (0, 0), None)]),
    ];
    let bundle = gds_scenes(&structures).expect("bundle");
    assert_eq!(bundle.views().len(), 1);
    assert_eq!(bundle.views()[0].scene.shapes()[0].layer.layer, 2);
}

#[test]
fn negative_layers_wrap_and_empty_outlines_are_left_out() {
    let structures = vec![structure(
        "top",
        vec![
            boundary(-1, 0, vec![(0, 0), (1, 0), (1, 1)]),
            boundary(3, 0, Vec::new()),
            GdsElement::Other,
        ],
    )];
    let bundle = gds_scenes(&structures).expect("bundle");
    let shapes = bundle.views()[0].scene.shapes();
    assert_eq!(shapes.len(), 1);
    assert_eq!(shapes[0].layer.layer, u32::MAX);
}

#[test]
fn offsets_of_arrays_and_repetitions() {
    assert_eq!(
        array_offset_of_copy(3, 2, 4),
        array_ref_offsets(3, 2)[4]
    );
    assert_eq!(array_offset_of_copy(0, 0, 0), ArrayOffset { col: 0, row: 0 });
    assert_eq!(
        array_ref_offsets(2, 0),
        vec![ArrayOffset { col: 0, row: 0 }, ArrayOffset { col: 1, row: 0 }]
    );
    assert_eq!(array_ref_offsets(0, 0), vec![ArrayOffset { col: 0, row: 0 }]);
    let two_by_two = array_ref_offsets(2, 2);
    assert_eq!(two_by_two[2], ArrayOffset { col: 0, row: 1 });
    let single = GdsArrayRef {
        sname: "leaf".to_string(),
        columns: 1,
        rows: 3,
        xy: vec![(1, 2), (5, 2), (1, 8)],
        strans: None,
    };
    assert_eq!(
        array_reach(&single),
        ArrayReach {
            origin: (1, 2),
            columns: None,
            rows: Some(((1, 8), 3)),
        }
    );
    assert_eq!(
        path_base_width(&GdsPath {
            layer: 0,
            datatype: 0,
            width: Some(-3),
            xy: Vec::new(),
        }),
        0
    );

    let none = repetition_offsets(&None).expect("offsets");
    assert_eq!(none.len(), 1);
    let matrix = Some(OasisRepetition::Matrix {
        x_count: 2,
        y_count: 0,
        x_space: 7,
        y_space: 9,
    });
    let offsets = repetition_offsets(&matrix).expect("offsets");
    assert_eq!(offsets.len(), 2);
    assert_eq!(shifted(offsets[1]), Vec2::new(7.0, 0.0));
    assert_eq!(offset_of_copy(&matrix, 1), offsets[1]);
    let ragged = Some(OasisRepetition::Arbitrary {
        x_displacements: vec![1, 2, 3],
        y_displacements: vec![-5],
    });
    let offsets = repetition_offsets(&ragged).expect("offsets");
    assert_eq!(offsets.len(), 3);
    assert_eq!(shifted(offsets[0]), Vec2::new(1.0, -5.0));
    assert_eq!(shifted(offsets[2]), Vec2::new(3.0, 0.0));
    assert!(repetition_offsets(&Some(OasisRepetition::ReusePrevious)).is_err());
}

fn layout_transform(origin: (i32, i32), strans: Option<GdsTransform>) -> LayoutTransform {
    LayoutTransform {
        translation: unvec(at(origin)),
        rotation_degrees: k(strans
            .and_then(|t| t.angle)
            .map(f64::from_bits)
            .unwrap_or(0.0) as f32),
        magnification: k(strans
            .and_then(|t| t.magnification)
            .map(f64::from_bits)
            .unwrap_or(1.0) as f32),
        mirrored_x: strans.map(|t| t.reflection).unwrap_or(false),
    }
}

fn reach_of(inner: Bounds, t: LayoutTransform, repetition: Option<LayoutRepetition>) -> Bounds {
    let first = Affine::of(
        t.mirrored_x,
        f(t.rotation_degrees),
        f(t.magnification),
        vec(t.translation),
    );
    let mut around = first.around(inner);
    if let Some(LayoutRepetition::RegularGrid {
        columns,
        rows,
        column_step,
        row_step,
    }) = repetition
    {
        for (col, row) in [(columns - 1, 0), (0, rows - 1), (columns - 1, rows - 1)] {
            let shift = vec(column_step) * col as f32 + vec(row_step) * row as f32;
            let last = Affine {
                shift: first.shift + shift,
                ..first
            };
            around = around.union(last.around(inner));
        }
    }
    around
}

fn gds_layout(structures: &Vec<GdsStructure>) -> Result<LayoutBundle, AppError> {
    let math = GdsMath {
        point: |xy: (i32, i32)| unvec(at(xy)),
        stroke: |width: i32| k((width as f32).max(1.0)),
        widened: pad,
        transform: layout_transform,
        step: |origin: (i32, i32), end: (i32, i32), count: u16| {
            unvec((at(end) - at(origin)) / count as f32)
        },
        reach: reach_of,
    };
    build_gds_layout_bundle(structures, &math)
}

fn sample_hierarchical_gds() -> Vec<GdsStructure> {
    vec![
        structure(
            "leaf",
            vec![
                boundary(1, 0, vec![(0, 0), (10, 0), (10, 20), (0, 20), (0, 0)]),
                GdsElement::Path(GdsPath {
                    layer: 2,
                    datatype: 1,
                    width: Some(6),
                    xy: vec![(5, 5), (35, 5), (35, 15)],
                }),
            ],
        ),
        structure("top", vec![reference("leaf", (100, 200), None)]),
        structure(
            "grid",
            vec![
                GdsElement::Box(GdsOutline {
                    layer: 9,
                    datatype: 0,
                    xy: vec![(0, 0), (20, 0), (20, 20), (0, 20), (0, 0)],
                }),
                GdsElement::ArrayRef(GdsArrayRef {
                    sname: "leaf".to_string(),
                    columns: 3,
                    rows: 2,
                    xy: vec![(20, 30), (140, 30), (20, 130)],
                    strans: None,
                }),
            ],
        ),
    ]
}

#[test]
fn gds_loader_builds_hierarchical_layout() {
    let bundle = gds_layout(&sample_hierarchical_gds()).expect("hierarchical GDS bundle");

    let root_names: Vec<_> = bundle
        .views()
        .iter()
        .map(|view| view.metadata().name().to_string())
        .collect();
    assert_eq!(root_names, vec!["top".to_string(), "grid".to_string()]);
    assert_eq!(
        bundle
            .selected_root_metadata()
            .map(LayoutViewMetadata::name),
        Some("top")
    );

    let leaf = bundle
        .cells()
        .iter()
        .find(|cell| cell.name() == "leaf")
        .expect("leaf cell");
    assert_eq!(leaf.local_shapes().len(), 2);
    assert_eq!(leaf.local_instance_count(), 0);
    assert_eq!(
        leaf.local_shapes()[0].points(),
        &[
            point(0.0, 0.0),
            point(10.0, 0.0),
            point(10.0, 20.0),
            point(0.0, 20.0),
            point(0.0, 0.0),
        ]
    );
    assert_eq!(leaf.local_shapes()[1].stroke_width(), Some(k(6.0)));
    assert_eq!(
        leaf.local_shapes()[1].points(),
        &[point(5.0, 5.0), point(35.0, 5.0), point(35.0, 15.0)]
    );

    let top = bundle
        .cells()
        .iter()
        .find(|cell| cell.name() == "top")
        .expect("top cell");
    assert_eq!(top.local_shapes().len(), 0);
    assert_eq!(top.local_instance_count(), 1);
    let top_instance = &top.instances()[0];
    assert_eq!(top_instance.transform().translation, point(100.0, 200.0));
    assert_eq!(top_instance.transform().rotation_degrees, k(0.0));
    assert_eq!(top_instance.transform().magnification, k(1.0));
    assert!(!top_instance.transform().mirrored_x);
    assert!(top_instance.repetition().is_none());

    let grid = bundle
        .cells()
        .iter()
        .find(|cell| cell.name() == "grid")
        .expect("grid cell");
    assert_eq!(grid.local_shapes().len(), 1);
    assert_eq!(grid.local_instance_count(), 1);
    let array_instance = &grid.instances()[0];
    assert_eq!(array_instance.transform().translation, point(20.0, 30.0));
    assert_eq!(
        array_instance.repetition(),
        Some(LayoutRepetition::regular_grid(
            3,
            2,
            point(40.0, 0.0),
            point(0.0, 50.0),
        ))
    );
    assert_eq!(grid.local_bounds(), Some(bounds(0.0, 0.0, 138.0, 100.0)));
}

fn signature(scene: &Scene) -> Vec<(u32, u32, u32, i32, i32, i32, i32, usize)> {
    let mut items: Vec<_> = scene
        .shapes()
        .iter()
        .map(|shape| {
            (
                shape.layer.layer,
                shape.layer.datatype,
                shape.hierarchy_level,
                f(shape.bounds.min_x).round() as i32,
                f(shape.bounds.min_y).round() as i32,
                f(shape.bounds.max_x).round() as i32,
                f(shape.bounds.max_y).round() as i32,
                shape.points.len(),
            )
        })
        .collect();
    items.sort_unstable();
    items
}

fn view_scene(bundle: &LayoutBundle, options: LayoutViewBuildOptions) -> Scene {
    let root = options.root_cell_id;
    let world = |path: &Vec<PlacementStep>, local: Bounds| along(bundle, root, path).around(local);
    let shape = |path: &Vec<PlacementStep>, id: LayoutCellId, index: usize| {
        outline_of(bundle, root, path, id, index).bounds
    };
    let outline = |shape: &ViewShape| match shape.shape_index {
        Some(index) => outline_of(bundle, root, &shape.path, shape.cell_id, index),
        None => mark_of(shape.bounds, options.subtree_screen_lod.expect("lod")),
    };
    build_workset(bundle, options, &world, &shape, &is_small, &outline)
}

#[test]
fn flat_and_layered_loading_show_the_same() {
    let mut structures = sample_hierarchical_gds();
    structures.push(structure(
        "deep",
        vec![
            boundary(7, 3, vec![(0, 0), (4, 0), (4, 4), (0, 4)]),
            reference(
                "grid",
                (1000, 0),
                Some(GdsTransform {
                    reflection: true,
                    magnification: Some(2.0f64.to_bits()),
                    angle: Some(90.0f64.to_bits()),
                }),
            ),
            reference("empty", (5, 5), None),
        ],
    ));
    structures.push(structure("empty", Vec::new()));
    let flat = gds_scenes(&structures).expect("flat");
    let layered = gds_layout(&structures).expect("layered");
    assert_eq!(flat.views().len(), layered.views().len());
    for (view, layered_view) in flat.views().iter().zip(layered.views()) {
        let metadata = layered_view.metadata();
        assert_eq!(view.name, metadata.name());
        for max_level in 0..3 {
            let built = view_scene(
                &layered,
                LayoutViewBuildOptions::new(metadata.root_cell_id(), 0, max_level),
            );
            let filtered = view.scene.filtered_by_hierarchy_range(0, max_level);
            assert_eq!(signature(&built), signature(&filtered));
        }
    }
}

#[test]
fn layouts_that_cannot_be_built_say_why() {
    let missing = vec![structure("top", vec![reference("gone", (0, 0), None)])];
    assert_eq!(
        gds_layout(&missing).unwrap_err().message(),
        "layout parse failed: missing referenced cell: gone"
    );
    let cyclic = vec![
        structure("a", vec![reference("b", (0, 0), None)]),
        structure("b", vec![reference("a", (0, 0), None)]),
    ];
    assert_eq!(
        gds_layout(&cyclic).unwrap_err().message(),
        "layout parse failed: cyclic cell reference detected at a"
    );
    let below = vec![
        structure("top", vec![reference("b", (0, 0), None)]),
        structure("b", vec![reference("c", (0, 0), None)]),
        structure("c", vec![reference("b", (0, 0), None)]),
    ];
    assert_eq!(
        gds_layout(&below).unwrap_err().message(),
        "layout parse failed: cyclic cell reference detected at b"
    );
}
