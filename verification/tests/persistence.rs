//! What is remembered from one session to the next.

use std::sync::Arc;

use flayout_wgpu::coords::coord_from_bits;
use flayout_wgpu::persistence::{
    default_layer_bypass_entry_threshold, default_layer_bypass_work_threshold,
    filter_hidden_layers_for_layer_ids, filter_hidden_layers_for_scene,
    filter_layer_draw_modes_for_layer_ids, filter_layer_draw_modes_for_scene,
    filter_layer_hatch_styles_for_layer_ids, filter_layer_hatch_styles_for_scene,
    resolve_saved_view_index, PersistedCamera, PersistedClosedShapeDrawMode,
    PersistedHatchStylePreset, PersistedLayerDrawMode, PersistedLayerHatchStyle, PersistedLayerId,
    PersistenceError, ViewerConfig,
};
use flayout_wgpu::renderer::geometry::{ClosedShapeDrawMode, HatchStylePreset};
use flayout_wgpu::scene::{Bounds, LayerId, RectShape, Scene, SceneBundle, SceneView};

fn k(value: f32) -> i32 {
    coord_from_bits((value + 0.0).to_bits())
}

fn bounds(min_x: f32, min_y: f32, max_x: f32, max_y: f32) -> Bounds {
    Bounds::new(k(min_x), k(min_y), k(max_x), k(max_y))
}

fn layer(layer: u32, datatype: u32) -> LayerId {
    LayerId { layer, datatype }
}

fn saved(layer: u32, datatype: u32) -> PersistedLayerId {
    PersistedLayerId { layer, datatype }
}

fn sample_scene() -> Scene {
    Scene::from_shapes(vec![
        RectShape::rectangle(layer(1, 1), bounds(0.0, 0.0, 10.0, 10.0)),
        RectShape::rectangle(layer(70, 30), bounds(20.0, 20.0, 40.0, 40.0)),
    ])
}

fn sample_config() -> ViewerConfig {
    ViewerConfig {
        layout_path: "/tmp/example.gds".to_string(),
        selected_view_name: Some("top".to_string()),
        camera: PersistedCamera {
            pan_x: k(120.0),
            pan_y: k(64.0),
            zoom: k(2.5),
        },
        min_hierarchy_level: Some(1),
        max_hierarchy_level: Some(3),
        hidden_layers: vec![saved(70, 30)],
        layer_draw_modes: vec![PersistedLayerDrawMode {
            layer: saved(1, 1),
            mode: PersistedClosedShapeDrawMode::Outline,
        }],
        layer_hatch_styles: vec![PersistedLayerHatchStyle {
            layer: saved(70, 30),
            style: PersistedHatchStylePreset::Cross,
        }],
        draw_mode: PersistedClosedShapeDrawMode::HatchOutline,
        hatch_spacing: k(12.0),
        hatch_width: k(2.0),
        tile_grid_divisions: 9,
        tile_cache_capacity: 256,
        progressive_bypass_threshold: 24,
        layer_bypass_entry_threshold: 8,
        layer_bypass_work_threshold: 128,
    }
}

#[test]
fn resolve_saved_view_index_matches_saved_name() {
    let bundle = SceneBundle::new(vec![
        SceneView {
            name: "leaf".to_string(),
            scene: Arc::new(Scene::empty()),
        },
        SceneView {
            name: "top".to_string(),
            scene: Arc::new(Scene::empty()),
        },
    ]);

    assert_eq!(resolve_saved_view_index(&bundle, Some("top")), Some(1));
    assert_eq!(resolve_saved_view_index(&bundle, Some("missing")), None);
    assert_eq!(resolve_saved_view_index(&bundle, None), None);
}

#[test]
fn scene_layer_filters_ignore_unknown_saved_layers() {
    let scene = sample_scene();
    let config = ViewerConfig {
        hidden_layers: vec![saved(70, 30), saved(999, 0)],
        layer_draw_modes: vec![
            PersistedLayerDrawMode {
                layer: saved(1, 1),
                mode: PersistedClosedShapeDrawMode::Outline,
            },
            PersistedLayerDrawMode {
                layer: saved(999, 0),
                mode: PersistedClosedShapeDrawMode::Hatch,
            },
        ],
        layer_hatch_styles: vec![
            PersistedLayerHatchStyle {
                layer: saved(70, 30),
                style: PersistedHatchStylePreset::Dots,
            },
            PersistedLayerHatchStyle {
                layer: saved(999, 0),
                style: PersistedHatchStylePreset::RightDiagonal,
            },
        ],
        ..sample_config()
    };

    let hidden = filter_hidden_layers_for_scene(&config, &scene);
    let draw_modes = filter_layer_draw_modes_for_scene(&config, &scene);
    let hatch_styles = filter_layer_hatch_styles_for_scene(&config, &scene);

    assert_eq!(hidden.ids(), &[layer(70, 30)]);
    assert_eq!(
        draw_modes.entries(),
        &[(layer(1, 1), ClosedShapeDrawMode::Outline)]
    );
    assert_eq!(
        hatch_styles.entries(),
        &[(layer(70, 30), HatchStylePreset::Dots)]
    );
    let layers = scene.layer_ids();
    assert_eq!(filter_hidden_layers_for_layer_ids(&config, &layers), hidden);
    assert_eq!(
        filter_layer_draw_modes_for_layer_ids(&config, &layers),
        draw_modes
    );
    assert_eq!(
        filter_layer_hatch_styles_for_layer_ids(&config, &layers),
        hatch_styles
    );
}

#[test]
fn the_last_saved_setting_of_a_layer_counts() {
    let config = ViewerConfig {
        layer_draw_modes: vec![
            PersistedLayerDrawMode {
                layer: saved(1, 1),
                mode: PersistedClosedShapeDrawMode::Outline,
            },
            PersistedLayerDrawMode {
                layer: saved(1, 1),
                mode: PersistedClosedShapeDrawMode::Hatch,
            },
        ],
        layer_hatch_styles: vec![
            PersistedLayerHatchStyle {
                layer: saved(1, 1),
                style: PersistedHatchStylePreset::Dots,
            },
            PersistedLayerHatchStyle {
                layer: saved(1, 1),
                style: PersistedHatchStylePreset::Cross,
            },
        ],
        ..sample_config()
    };
    let modes = filter_layer_draw_modes_for_layer_ids(&config, &[layer(1, 1)]);
    assert_eq!(modes.get(layer(1, 1)), Some(ClosedShapeDrawMode::Hatch));
    let styles = filter_layer_hatch_styles_for_layer_ids(&config, &[layer(1, 1)]);
    assert_eq!(styles.get(layer(1, 1)), Some(HatchStylePreset::Cross));
}

#[test]
fn remembered_things_come_back() {
    assert_eq!(
        PersistedLayerId::from_runtime(layer(4, 2)).to_runtime(),
        layer(4, 2)
    );
    for mode in [
        ClosedShapeDrawMode::Outline,
        ClosedShapeDrawMode::Hatch,
        ClosedShapeDrawMode::HatchOutline,
    ] {
        assert_eq!(
            PersistedClosedShapeDrawMode::from_runtime(mode).to_runtime(),
            mode
        );
    }
    for style in [
        HatchStylePreset::LeftDiagonal,
        HatchStylePreset::RightDiagonal,
        HatchStylePreset::Cross,
        HatchStylePreset::Dots,
    ] {
        assert_eq!(
            PersistedHatchStylePreset::from_runtime(style).to_runtime(),
            style
        );
    }
}

#[test]
fn thresholds_that_settings_do_not_name() {
    assert_eq!(default_layer_bypass_entry_threshold(), 8);
    assert_eq!(default_layer_bypass_work_threshold(), 128);
}

#[test]
fn persistence_errors_say_what_failed() {
    assert_eq!(
        PersistenceError::ConfigDirUnavailable.message(),
        "viewer config directory is not available on this platform"
    );
    assert_eq!(
        PersistenceError::Io("gone".to_string()).message(),
        "viewer config I/O failed: gone"
    );
    assert_eq!(
        PersistenceError::Json("odd".to_string()).message(),
        "viewer config JSON failed: odd"
    );
}
