//! When frames are drawn and what a layout shows first.

pub mod setting_laws;
pub mod source;
pub mod source_laws;
pub mod viewer;

use crate::error::joined;
use crate::layers::LayerMap;
use crate::renderer::geometry::HatchStylePreset;
use crate::scene;
use crate::scene::{bounds_contains_bounds, Bounds, LayerId, Scene};
use vstd::prelude::*;

verus! {

/// Whether a layout is there.
#[derive(Debug)]
pub enum LoadState {
    Idle,
    Loaded,
    Failed(String),
}

impl LoadState {
    /// What is said about the state.
    pub open spec fn text(self) -> Seq<char> {
        match self {
            LoadState::Idle => "Waiting for layout file"@,
            LoadState::Loaded => "Layout loaded"@,
            LoadState::Failed(message) => "Load failed: "@ + message@,
        }
    }

    /// What is said about the state.
    pub fn summary(&self) -> (summary: String)
        ensures
            summary@ == self.text(),
    {
        match self {
            LoadState::Idle => String::from_str("Waiting for layout file"),
            LoadState::Loaded => String::from_str("Layout loaded"),
            LoadState::Failed(message) => joined("Load failed: ", message.as_str()),
        }
    }
}

/// Whether the next frame follows at once: where the controls want it, or entries are missing.
pub fn should_request_continuous_redraw(pending_entries: usize, egui_wants_repaint: bool) -> (again:
    bool)
    ensures
        again == (egui_wants_repaint || pending_entries > 0),
{
    egui_wants_repaint || pending_entries > 0
}

/// What can happen to a window.
#[derive(Debug, Clone, Copy, PartialEq, Eq, Structural)]
pub enum WindowEventKind {
    ActivationTokenDone,
    Resized,
    Moved,
    CloseRequested,
    Destroyed,
    DroppedFile,
    HoveredFile,
    HoveredFileCancelled,
    Focused,
    KeyboardInput,
    ModifiersChanged,
    Ime,
    CursorMoved,
    CursorEntered,
    CursorLeft,
    MouseWheel,
    MouseInput,
    PinchGesture,
    PanGesture,
    DoubleTapGesture,
    RotationGesture,
    TouchpadPressure,
    AxisMotion,
    Touch,
    ScaleFactorChanged,
    ThemeChanged,
    Occluded,
    RedrawRequested,
}

/// Whether an event is an act of the user: with pointer, keys or fingers.
pub open spec fn is_input(event: WindowEventKind) -> bool {
    match event {
        WindowEventKind::CursorMoved => true,
        WindowEventKind::CursorEntered => true,
        WindowEventKind::CursorLeft => true,
        WindowEventKind::MouseInput => true,
        WindowEventKind::MouseWheel => true,
        WindowEventKind::KeyboardInput => true,
        WindowEventKind::TouchpadPressure => true,
        WindowEventKind::Touch => true,
        WindowEventKind::ModifiersChanged => true,
        WindowEventKind::Ime => true,
        WindowEventKind::PinchGesture => true,
        WindowEventKind::PanGesture => true,
        WindowEventKind::DoubleTapGesture => true,
        WindowEventKind::RotationGesture => true,
        _ => false,
    }
}

/// Whether an event calls for a frame.
pub fn should_request_redraw_after_window_event(
    egui_wants_repaint: bool,
    event: WindowEventKind,
) -> (redraw: bool)
    ensures
        redraw == (egui_wants_repaint || is_input(event)),
{
    egui_wants_repaint || match event {
        WindowEventKind::CursorMoved => true,
        WindowEventKind::CursorEntered => true,
        WindowEventKind::CursorLeft => true,
        WindowEventKind::MouseInput => true,
        WindowEventKind::MouseWheel => true,
        WindowEventKind::KeyboardInput => true,
        WindowEventKind::TouchpadPressure => true,
        WindowEventKind::Touch => true,
        WindowEventKind::ModifiersChanged => true,
        WindowEventKind::Ime => true,
        WindowEventKind::PinchGesture => true,
        WindowEventKind::PanGesture => true,
        WindowEventKind::DoubleTapGesture => true,
        WindowEventKind::RotationGesture => true,
        _ => false,
    }
}

/// What is done about an event, once the controls have seen it.
#[derive(Debug, Clone, Copy, PartialEq, Eq, Structural)]
pub enum WindowReaction {
    /// The settings are saved and the program ends.
    SaveAndExit,
    /// The picture takes the new size, and a frame follows.
    ResizeAndRequestFrame,
    /// A frame follows.
    RequestFrame,
    /// A frame is drawn.
    DrawFrame,
    /// Nothing is done.
    Ignore,
}

/// What is done about an event, once the controls have seen it.
pub fn react_to_window_event(event: WindowEventKind) -> (reaction: WindowReaction)
    ensures
        reaction == match event {
            WindowEventKind::CloseRequested => WindowReaction::SaveAndExit,
            WindowEventKind::Resized => WindowReaction::ResizeAndRequestFrame,
            WindowEventKind::ScaleFactorChanged => WindowReaction::RequestFrame,
            WindowEventKind::RedrawRequested => WindowReaction::DrawFrame,
            _ => WindowReaction::Ignore,
        },
{
    match event {
        WindowEventKind::CloseRequested => WindowReaction::SaveAndExit,
        WindowEventKind::Resized => WindowReaction::ResizeAndRequestFrame,
        WindowEventKind::ScaleFactorChanged => WindowReaction::RequestFrame,
        WindowEventKind::RedrawRequested => WindowReaction::DrawFrame,
        _ => WindowReaction::Ignore,
    }
}

/// How long after a movement the picture stays simple, in nanoseconds.
pub const INTERACTION_RENDER_DEGRADE_HOLD: u64 = 120_000_000;

/// Up to how many shapes a scene is small.
pub const SMALL_SCENE_SHAPE_THRESHOLD: usize = 50_000;

/// Up to how many points a scene is small.
pub const SMALL_SCENE_POINT_THRESHOLD: usize = 300_000;

/// From which size on the screen a deep cell is entered, as a coordinate key: two.
pub const HIERARCHICAL_SUBTREE_MIN_SCREEN_EXTENT: i32 = 0x4000_0000;

/// From which level on a cell that is small on the screen is left closed.
pub const HIERARCHICAL_SUBTREE_MIN_COLLAPSE_LEVEL: u32 = 4;

/// Whether the picture is simple because the view has just been moved.
pub fn should_degrade_interaction_render(
    elapsed_since_interaction: Option<u64>,
    hold: u64,
) -> (degraded: bool)
    ensures
        degraded == (elapsed_since_interaction matches Some(elapsed) && elapsed <= hold),
{
    match elapsed_since_interaction {
        Some(elapsed) => elapsed <= hold,
        None => false,
    }
}

/// Whether the function tells in this way that a zoom has left that of the scene too far behind.
pub open spec fn tells_drift<F: Fn(i32, i32) -> bool>(
    drifted: F,
    d: spec_fn(i32, i32) -> bool,
) -> bool {
    forall|now: i32, then_: i32, r: bool| #[trigger]
        drifted.ensures((now, then_), r) ==> r == d(now, then_)
}

/// Whether a scene built for one view does not serve for another: where it was built for none,
/// where the view has left it, or where the zoom has changed too much.
pub open spec fn scene_is_outdated(
    current_bounds: Option<Bounds>,
    current_zoom: i32,
    covered_bounds: Option<Bounds>,
    covered_zoom: Option<i32>,
    drifted: spec_fn(i32, i32) -> bool,
) -> bool {
    match current_bounds {
        None => false,
        Some(current) => match (covered_bounds, covered_zoom) {
            (Some(covered), Some(zoom)) => !scene::within(current, covered) || drifted(
                current_zoom,
                zoom,
            ),
            _ => true,
        },
    }
}

/// Whether a scene built for one view does not serve for another.
///
/// `drifted` tells whether the first zoom has left the second too far behind.
pub fn should_rebuild_layout_workset_for_camera<F: Fn(i32, i32) -> bool>(
    current_visible_world_bounds: Option<Bounds>,
    current_zoom: i32,
    covered_visible_world_bounds: Option<Bounds>,
    covered_zoom: Option<i32>,
    drifted: &F,
) -> (rebuild: bool)
    requires
        forall|now: i32, then_: i32| #[trigger] drifted.requires((now, then_)),
    ensures
        forall|d: spec_fn(i32, i32) -> bool| #[trigger]
            tells_drift(*drifted, d) ==> rebuild == scene_is_outdated(
                current_visible_world_bounds,
                current_zoom,
                covered_visible_world_bounds,
                covered_zoom,
                d,
            ),
{
    match current_visible_world_bounds {
        None => false,
        Some(current) => match (covered_visible_world_bounds, covered_zoom) {
            (Some(covered), Some(zoom)) => {
                if !bounds_contains_bounds(covered, current) {
                    true
                } else {
                    drifted(current_zoom, zoom)
                }
            },
            _ => true,
        },
    }
}

/// The pattern of a layer at this place of the list, unless it has one of its own.
pub open spec fn default_style(layer_index: int) -> HatchStylePreset {
    if layer_index % 2 == 0 {
        HatchStylePreset::LeftDiagonal
    } else {
        HatchStylePreset::RightDiagonal
    }
}

/// The pattern of a layer at this place of the list, unless it has one of its own.
pub fn alternating_default_hatch_style(layer_index: usize) -> (style: HatchStylePreset)
    ensures
        style == default_style(layer_index as int),
{
    if layer_index % 2 == 0 {
        HatchStylePreset::LeftDiagonal
    } else {
        HatchStylePreset::RightDiagonal
    }
}

/// The patterns, with those added that the listed layers lack.
pub open spec fn with_default_styles(
    styles: Map<LayerId, HatchStylePreset>,
    layers: Seq<LayerId>,
) -> Map<LayerId, HatchStylePreset>
    decreases layers.len(),
{
    if layers.len() == 0 {
        styles
    } else {
        let head = with_default_styles(styles, layers.drop_last());
        if head.dom().contains(layers.last()) {
            head
        } else {
            head.insert(layers.last(), default_style(layers.len() - 1))
        }
    }
}

/// Adds the patterns that the listed layers lack.
pub fn fill_missing_layer_hatch_styles_for_layers(
    layers: &[LayerId],
    layer_hatch_styles: &mut LayerMap<HatchStylePreset>,
)
    ensures
        final(layer_hatch_styles)@ == with_default_styles(old(layer_hatch_styles)@, layers@),
{
    let mut i: usize = 0;
    assert(layers@.take(0) =~= Seq::empty());
    while i < layers.len()
        invariant
            i <= layers@.len(),
            layer_hatch_styles@ == with_default_styles(
                old(layer_hatch_styles)@,
                layers@.take(i as int),
            ),
        decreases layers@.len() - i,
    {
        assert(layers@.take(i + 1).drop_last() =~= layers@.take(i as int));
        let layer = layers[i];
        if layer_hatch_styles.get(layer).is_none() {
            layer_hatch_styles.insert(layer, alternating_default_hatch_style(i));
        }
        i += 1;
    }
    assert(layers@.take(i as int) =~= layers@);
}

/// Adds the patterns that the layers of the scene lack.
pub fn fill_missing_layer_hatch_styles(
    scene: &Scene,
    layer_hatch_styles: &mut LayerMap<HatchStylePreset>,
)
    ensures
        final(layer_hatch_styles)@ == with_default_styles(
            old(layer_hatch_styles)@,
            crate::layers::ascending(scene::shape_layers(scene@).to_set()),
        ),
{
    let layers = scene.layer_ids();
    fill_missing_layer_hatch_styles_for_layers(layers.as_slice(), layer_hatch_styles);
}

/// A layer that has a pattern keeps it; of the others, those that are listed get one by the place
/// where they are listed first, whatever patterns other layers have.
pub proof fn law_default_styles_go_by_place(
    styles: Map<LayerId, HatchStylePreset>,
    layers: Seq<LayerId>,
    layer: LayerId,
)
    ensures
        styles.dom().contains(layer) ==> with_default_styles(styles, layers).dom().contains(layer)
            && with_default_styles(styles, layers)[layer] == styles[layer],
        !styles.dom().contains(layer) ==> (with_default_styles(styles, layers).dom().contains(layer)
            <==> layers.contains(layer)),
        forall|i: int|
            0 <= i < layers.len() && #[trigger] layers[i] == layer && !layers.take(i).contains(
                layer,
            ) && !styles.dom().contains(layer) ==> with_default_styles(styles, layers)[layer]
                == default_style(i),
    decreases layers.len(),
{
    if layers.len() > 0 {
        let init = layers.drop_last();
        law_default_styles_go_by_place(styles, init, layer);
        if layers.contains(layer) {
            let k = choose|k: int| 0 <= k < layers.len() && layers[k] == layer;
            if k < init.len() {
                assert(init[k] == layer);
            }
        }
        if init.contains(layer) {
            let k = choose|k: int| 0 <= k < init.len() && init[k] == layer;
            assert(layers[k] == layer);
        }
        assert(layers[layers.len() - 1] == layers.last());
        assert forall|i: int|
            0 <= i < layers.len() && #[trigger] layers[i] == layer && !layers.take(i).contains(
                layer,
            ) && !styles.dom().contains(layer) implies with_default_styles(styles, layers)[layer]
            == default_style(i) by {
            if i < init.len() {
                assert(init[i] == layer);
                assert(init.take(i) =~= layers.take(i));
            } else {
                assert(init =~= layers.take(i));
            }
        }
    }
}

/// Whether a scene is small enough to be shown whole at first.
pub open spec fn is_small(scene: Seq<scene::ShapeModel>) -> bool {
    scene.len() <= SMALL_SCENE_SHAPE_THRESHOLD && scene::point_count(scene)
        <= SMALL_SCENE_POINT_THRESHOLD
}

/// Fewer shapes have no more points.
proof fn lemma_points_grow(scene: Seq<scene::ShapeModel>, count: int)
    requires
        0 <= count <= scene.len(),
    ensures
        scene::point_count(scene.take(count)) <= scene::point_count(scene),
    decreases scene.len(),
{
    if count < scene.len() {
        lemma_points_grow(scene.drop_last(), count);
        assert(scene.drop_last().take(count) =~= scene.take(count));
    } else {
        assert(scene.take(count) =~= scene);
    }
}

/// Whether the shapes of a scene have no more points than this.
fn has_few_points(scene: &Scene, limit: usize) -> (few: bool)
    requires
        limit <= 0xffff_ffff,
    ensures
        few == (scene::point_count(scene@) <= limit),
{
    let shapes = scene.shapes();
    let mut left: usize = limit;
    let mut i: usize = 0;
    assert(scene@.take(0) =~= Seq::empty());
    while i < shapes.len()
        invariant
            i <= shapes@.len(),
            shapes@.len() == scene@.len(),
            forall|k: int| 0 <= k < shapes@.len() ==> (#[trigger] shapes@[k])@ == scene@[k],
            left <= limit,
            scene::point_count(scene@.take(i as int)) == limit - left,
        decreases shapes@.len() - i,
    {
        let count: usize = shapes[i].points.len();
        proof {
            assert(scene@.take(i + 1).drop_last() =~= scene@.take(i as int));
            assert(scene@[i as int] == shapes@[i as int]@);
            lemma_points_grow(scene@, i + 1);
        }
        if count > left {
            return false;
        }
        left -= count;
        i += 1;
    }
    assert(scene@.take(i as int) =~= scene@);
    true
}

/// Whether a scene is small enough to be shown whole at first.
pub fn is_small_scene_for_initial_hierarchy_range(scene: &Scene) -> (small: bool)
    ensures
        small == is_small(scene@),
{
    scene.stats().shape_count <= SMALL_SCENE_SHAPE_THRESHOLD && has_few_points(
        scene,
        SMALL_SCENE_POINT_THRESHOLD,
    )
}

/// The last level that a scene shows at first: all levels of a small scene, the upper half of a
/// large one.
pub open spec fn first_max_level(scene: Seq<scene::ShapeModel>) -> int {
    let deepest = scene::deepest_level(scene);
    if is_small(scene) {
        deepest as int
    } else {
        (deepest as int + 2) / 2 - 1
    }
}

/// The levels that a scene shows at first.
pub fn recommended_initial_hierarchy_level_range(scene: &Scene) -> (range: (u32, u32))
    ensures
        range.0 == 0,
        range.1 == first_max_level(scene@),
        range.1 <= scene::deepest_level(scene@),
{
    let max_level: u32 = scene.max_hierarchy_level();
    if is_small_scene_for_initial_hierarchy_range(scene) {
        return (0, max_level);
    }
    let total_levels: u64 = max_level as u64 + 1;
    let visible: u64 = (total_levels + 1) / 2;
    (0, (visible - 1) as u32)
}

} // verus!
