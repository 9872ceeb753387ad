//! Scenes, layers, files and what is shown first.

use std::sync::Arc;

use flayout_wgpu::app::{
    alternating_default_hatch_style, fill_missing_layer_hatch_styles,
    is_small_scene_for_initial_hierarchy_range, recommended_initial_hierarchy_level_range,
    LoadState,
};
use flayout_wgpu::config::{DEFAULT_LAYOUT_PATH, INITIAL_HEIGHT, INITIAL_WIDTH, WINDOW_TITLE};
use flayout_wgpu::coords::{coord_bits, coord_from_bits, key_is_nan, INFINITY_KEY, NEG_INFINITY_KEY};
use flayout_wgpu::error::AppError;
use flayout_wgpu::io::{
    check_hierarchy_path, check_layout_path, format_of_extension, is_blank_text, layout_scene,
    LayoutFormat,
};
use flayout_wgpu::layers::{LayerMap, LayerSet};
use flayout_wgpu::renderer::geometry::HatchStylePreset;
use flayout_wgpu::scene::{Bounds, LayerId, Point, RectShape, Scene, SceneBundle, SceneView};

fn k(value: f32) -> i32 {
    coord_from_bits((value + 0.0).to_bits())
}

fn f(key: i32) -> f32 {
    f32::from_bits(coord_bits(key))
}

fn bounds(min_x: f32, min_y: f32, max_x: f32, max_y: f32) -> Bounds {
    Bounds::new(k(min_x), k(min_y), k(max_x), k(max_y))
}

fn pad(around: Bounds, width: i32) -> Bounds {
    let half = f(width) * 0.5;
    bounds(
        f(around.min_x) - half,
        f(around.min_y) - half,
        f(around.max_x) + half,
        f(around.max_y) + half,
    )
}

fn layer(layer: u32, datatype: u32) -> LayerId {
    LayerId { layer, datatype }
}

#[test]
fn default_layout_path_constant_is_available() {
    assert!(!DEFAULT_LAYOUT_PATH.is_empty());
}

#[test]
fn window_starts_with_title_and_size() {
    assert_eq!(WINDOW_TITLE, "flayout-wgpu");
    assert_eq!((INITIAL_WIDTH, INITIAL_HEIGHT), (1440, 960));
}

#[test]
fn empty_scene_reports_zero_shapes() {
    let scene = Scene::empty();
    assert_eq!(scene.stats().shape_count, 0);
    assert!(scene.bounds().is_none());
}

#[test]
fn invalid_path_returns_missing_file_error() {
    let path = "/definitely/not/here/demo.gds";
    let err = check_layout_path(path, false, Some("gds")).unwrap_err();
    assert!(err.message().contains("does not exist"));
    assert_eq!(
        err.message(),
        "layout file does not exist: /definitely/not/here/demo.gds"
    );
}

#[test]
fn failed_load_state_exposes_error_text() {
    let state = LoadState::Failed("parse failed".to_string());
    assert!(state.summary().contains("parse failed"));
    assert_eq!(state.summary(), "Load failed: parse failed");
    assert_eq!(LoadState::Idle.summary(), "Waiting for layout file");
    assert_eq!(LoadState::Loaded.summary(), "Layout loaded");
}

#[test]
fn scene_exposes_unique_sorted_layers() {
    let scene = Scene::from_shapes(vec![
        RectShape::rectangle(layer(70, 31), bounds(0.0, 0.0, 1.0, 1.0)),
        RectShape::rectangle(layer(1, 2), bounds(0.0, 0.0, 1.0, 1.0)),
        RectShape::rectangle(layer(1, 2), bounds(2.0, 2.0, 3.0, 3.0)),
    ]);

    assert_eq!(scene.layer_ids(), vec![layer(1, 2), layer(70, 31)]);
}

#[test]
fn path_shape_can_preserve_world_stroke_width() {
    let shape = RectShape::polyline(
        layer(1, 1),
        vec![
            Point {
                x: k(0.0),
                y: k(0.0),
            },
            Point {
                x: k(10.0),
                y: k(0.0),
            },
        ],
        k(2.5),
        &pad,
    );

    assert_eq!(shape.stroke_width_world, Some(k(2.5)));
    assert!(!shape.closed);
    assert_eq!(shape.bounds, bounds(-1.25, -1.25, 11.25, 1.25));
}

#[test]
fn scene_can_filter_shapes_by_hierarchy_level_range() {
    let mut root = RectShape::rectangle(layer(1, 0), bounds(0.0, 0.0, 10.0, 10.0));
    root.hierarchy_level = 0;
    let mut child = RectShape::rectangle(layer(2, 0), bounds(20.0, 20.0, 30.0, 30.0));
    child.hierarchy_level = 2;
    let scene = Scene::from_shapes(vec![root, child]);

    let filtered = scene.filtered_by_hierarchy_range(0, 1);
    assert_eq!(filtered.stats().shape_count, 1);
    assert_eq!(filtered.shapes()[0].layer, layer(1, 0));
    assert_eq!(scene.max_hierarchy_level(), 2);
    assert_eq!(scene.total_point_count(), 8);
    assert_eq!(scene.bounds(), Some(bounds(0.0, 0.0, 30.0, 30.0)));
    assert_eq!(scene.clone().shapes().len(), 2);
}

#[test]
fn large_scene_defaults_to_half_hierarchy_depth() {
    let mut shapes = Vec::new();
    for index in 0..60_000usize {
        let mut shape = RectShape::rectangle(
            layer(1, 0),
            bounds(index as f32, 0.0, index as f32 + 1.0, 1.0),
        );
        shape.hierarchy_level = if index % 3 == 0 { 5 } else { 0 };
        shapes.push(shape);
    }
    let scene = Scene::from_shapes(shapes);

    assert_eq!(recommended_initial_hierarchy_level_range(&scene), (0, 2));
    assert!(!is_small_scene_for_initial_hierarchy_range(&scene));
}

#[test]
fn small_scene_shows_all_levels_at_first() {
    let mut deep = RectShape::rectangle(layer(1, 0), bounds(0.0, 0.0, 1.0, 1.0));
    deep.hierarchy_level = 7;
    let scene = Scene::from_shapes(vec![deep]);
    assert_eq!(recommended_initial_hierarchy_level_range(&scene), (0, 7));
    assert_eq!(
        recommended_initial_hierarchy_level_range(&Scene::empty()),
        (0, 0)
    );
}

#[test]
fn scene_with_many_points_is_not_small() {
    let mut shape = RectShape::rectangle(layer(1, 0), bounds(0.0, 0.0, 1.0, 1.0));
    shape.points = vec![
        Point {
            x: k(0.0),
            y: k(0.0)
        };
        300_001
    ];
    shape.hierarchy_level = 1;
    let scene = Scene::from_shapes(vec![shape]);
    assert!(!is_small_scene_for_initial_hierarchy_range(&scene));
    assert_eq!(recommended_initial_hierarchy_level_range(&scene), (0, 0));
}

#[test]
fn missing_layer_hatch_styles_receive_predictable_alternating_defaults() {
    let scene = Scene::from_shapes(vec![
        RectShape::rectangle(layer(70, 31), bounds(0.0, 0.0, 1.0, 1.0)),
        RectShape::rectangle(layer(1, 2), bounds(0.0, 0.0, 1.0, 1.0)),
        RectShape::rectangle(layer(5, 0), bounds(2.0, 2.0, 3.0, 3.0)),
    ]);
    let mut hatch_styles = LayerMap::new();
    hatch_styles.insert(layer(5, 0), HatchStylePreset::Cross);

    fill_missing_layer_hatch_styles(&scene, &mut hatch_styles);

    assert_eq!(
        hatch_styles.get(layer(1, 2)),
        Some(HatchStylePreset::LeftDiagonal)
    );
    assert_eq!(hatch_styles.get(layer(5, 0)), Some(HatchStylePreset::Cross));
    assert_eq!(
        hatch_styles.get(layer(70, 31)),
        Some(HatchStylePreset::LeftDiagonal)
    );
    assert_eq!(
        alternating_default_hatch_style(1),
        HatchStylePreset::RightDiagonal
    );
}

#[test]
fn coordinate_keys_order_as_the_numbers_do() {
    let numbers = [
        f32::NEG_INFINITY,
        -1.0e30,
        -2.5,
        -1.0e-30,
        0.0,
        1.0e-30,
        0.5,
        3.0e8,
        f32::INFINITY,
    ];
    for (i, a) in numbers.iter().enumerate() {
        assert_eq!(f(k(*a)), *a);
        for (j, b) in numbers.iter().enumerate() {
            assert_eq!(k(*a) < k(*b), i < j);
        }
    }
    assert_eq!(k(f32::INFINITY), INFINITY_KEY);
    assert_eq!(k(f32::NEG_INFINITY), NEG_INFINITY_KEY);
    assert!(key_is_nan(k(f32::NAN)));
    assert!(!key_is_nan(k(f32::MAX)));
}

#[test]
fn rectangles_meet_and_join() {
    let a = bounds(0.0, 0.0, 10.0, 10.0);
    let b = bounds(10.0, -5.0, 12.0, 0.0);
    let c = bounds(10.5, 0.0, 12.0, 1.0);
    assert!(a.intersects(b) && b.intersects(a));
    assert!(!a.intersects(c));
    assert_eq!(a.union(b), bounds(0.0, -5.0, 12.0, 10.0));
}

#[test]
fn both_zeros_are_the_same_edge() {
    let zero = coord_from_bits(0.0f32.to_bits());
    let negative_zero = coord_from_bits((-0.0f32).to_bits());
    assert_ne!(zero, negative_zero);
    let left = Bounds::new(k(-1.0), k(0.0), negative_zero, k(1.0));
    let right = Bounds::new(zero, k(0.0), k(1.0), k(1.0));
    assert!(left.intersects(right) && right.intersects(left));
    let around = left.union(right);
    assert_eq!(f(around.min_x), -1.0);
    assert_eq!(f(around.max_x), 1.0);
}

#[test]
fn what_is_no_number_joins_nothing_and_meets_nothing() {
    let nan = coord_from_bits(f32::NAN.to_bits());
    let negative_nan = coord_from_bits((-f32::NAN).to_bits());
    for none in [nan, negative_nan] {
        let odd = Bounds::new(none, k(0.0), k(2.0), none);
        let plain = bounds(0.0, 1.0, 1.0, 3.0);
        assert_eq!(odd.union(plain), bounds(0.0, 0.0, 2.0, 3.0));
        assert_eq!(plain.union(odd), bounds(0.0, 0.0, 2.0, 3.0));
        assert!(!odd.intersects(plain) && !plain.intersects(odd));
        assert!(!odd.intersects(odd));
    }
}

#[test]
fn layer_sets_and_maps_stay_in_order() {
    let mut set = LayerSet::from_layers(&[layer(2, 0), layer(1, 5), layer(2, 0)]);
    assert_eq!(set.ids(), &[layer(1, 5), layer(2, 0)]);
    assert!(set.insert(layer(1, 0)));
    assert!(!set.insert(layer(1, 0)));
    assert_eq!(set.ids(), &[layer(1, 0), layer(1, 5), layer(2, 0)]);
    assert!(set.remove(layer(1, 5)));
    assert!(!set.remove(layer(1, 5)));
    set.retain_layers(&[layer(2, 0), layer(9, 9)]);
    assert_eq!(set.ids(), &[layer(2, 0)]);

    let mut map = LayerMap::new();
    map.insert(layer(3, 0), 'c');
    map.insert(layer(1, 0), 'a');
    map.insert(layer(3, 0), 'd');
    assert_eq!(map.entries(), &[(layer(1, 0), 'a'), (layer(3, 0), 'd')]);
    map.remove(layer(1, 0));
    assert_eq!(map.get(layer(1, 0)), None);
    map.insert(layer(4, 0), 'e');
    map.retain_layers(&[layer(4, 0)]);
    assert_eq!(map.entries(), &[(layer(4, 0), 'e')]);
}

#[test]
fn bundle_shares_the_selected_scene() {
    let scene = Arc::new(Scene::from_shapes(vec![RectShape::rectangle(
        layer(1, 0),
        bounds(0.0, 0.0, 1.0, 1.0),
    )]));
    let mut bundle = SceneBundle::new(vec![
        SceneView {
            name: "empty".to_string(),
            scene: Arc::new(Scene::empty()),
        },
        SceneView {
            name: "full".to_string(),
            scene: Arc::clone(&scene),
        },
    ]);
    assert_eq!(layout_scene(&bundle).stats().shape_count, 0);
    assert!(!bundle.select(0));
    assert!(!bundle.select(2));
    assert!(bundle.select(1));
    let handle = bundle.current_scene_handle().expect("selected scene");
    assert!(Arc::ptr_eq(&handle, &scene));
    assert_eq!(layout_scene(&bundle).stats().shape_count, 1);
    bundle.retain_only_selected_scene(handle);
    assert_eq!(bundle.views()[0].scene.stats().shape_count, 0);
    assert_eq!(bundle.views()[1].scene.stats().shape_count, 1);
    assert_eq!(layout_scene(&SceneBundle::empty()).stats().shape_count, 0);
}

#[test]
fn extensions_tell_the_format_in_either_case() {
    assert_eq!(format_of_extension(Some("gds")), Some(LayoutFormat::Gds));
    assert_eq!(format_of_extension(Some("GdS")), Some(LayoutFormat::Gds));
    assert_eq!(format_of_extension(Some("OAS")), Some(LayoutFormat::Oasis));
    assert_eq!(format_of_extension(Some("gdsx")), None);
    assert_eq!(format_of_extension(Some("txt")), None);
    assert_eq!(format_of_extension(None), None);
}

#[test]
fn blank_text_is_white_space_alone() {
    assert!(is_blank_text(""));
    assert!(is_blank_text(" \t\n\u{3000}"));
    assert!(!is_blank_text(" a "));
}

#[test]
fn white_space_is_what_unicode_lists() {
    let spaces = [
        0x09, 0x0a, 0x0b, 0x0c, 0x0d, 0x20, 0x85, 0xa0, 0x1680, 0x2000, 0x2001, 0x2002, 0x2003,
        0x2004, 0x2005, 0x2006, 0x2007, 0x2008, 0x2009, 0x200a, 0x2028, 0x2029, 0x202f, 0x205f,
        0x3000,
    ];
    for code in 0..=0x10ffff {
        if let Some(letter) = char::from_u32(code) {
            let text = letter.to_string();
            assert_eq!(is_blank_text(&text), spaces.contains(&code));
        }
    }
}

#[test]
fn paths_are_checked_before_files_are_read() {
    assert_eq!(
        check_layout_path("a.oas", true, Some("oas")).ok(),
        Some(LayoutFormat::Oasis)
    );
    assert!(matches!(
        check_layout_path(" \t ", true, Some("gds")),
        Err(AppError::MissingPath)
    ));
    let unsupported = check_layout_path("a.txt", true, Some("txt")).unwrap_err();
    assert_eq!(unsupported.message(), "unsupported layout format: a.txt");
    assert!(check_hierarchy_path("a.gds", true, Some("gds")).is_ok());
    let flat_only = check_hierarchy_path("a.oas", true, Some("oas")).unwrap_err();
    assert_eq!(
        flat_only.message(),
        "unsupported layout format: hierarchical OASIS loading is not implemented yet: a.oas"
    );
    assert_eq!(
        AppError::MissingPath.message(),
        "layout path is not configured"
    );
    assert_eq!(
        AppError::Parse("bad".to_string()).message(),
        "layout parse failed: bad"
    );
    assert_eq!(
        AppError::Render("bad".to_string()).message(),
        "render setup failed: bad"
    );
}
