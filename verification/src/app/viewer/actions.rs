//! What the user does in a frame.

use crate::app::source;
use crate::app::source::{
    picture_has_area, LevelRange, RendererUpdate, Sight, ViewerMath, ViewerRules, Viewpoint,
};
use crate::app::viewer;
use crate::app::viewer::{Interaction, RendererCommand, ViewerSettings, ViewerState};
use crate::app::{should_degrade_interaction_render, should_request_continuous_redraw};
use crate::app::INTERACTION_RENDER_DEGRADE_HOLD;
use crate::camera;
use crate::camera::Camera2D;
use crate::coords;
use crate::coords::{key_is_nan, keys_equal, ONE_KEY};
use crate::layers::{LayerMap, LayerSet};
use crate::layout::LayoutCellId;
use crate::renderer::geometry::{ClosedShapeDrawMode, HatchParams, HatchStylePreset};
use crate::scene;
use crate::scene::{Bounds, PlacedOutline, Point};
use crate::ui::UiAction;
use crate::view_builder::{PlacementStep, SubtreeScreenLod, ViewShape};
use vstd::prelude::*;

verus! {

/// One thing that is done because the user asked for it.
#[derive(Debug, Clone, Copy, PartialEq, Eq, Structural)]
pub enum UiStep {
    SelectView(usize),
    HideLayers,
    TileGridDivisions(u32),
    DrawMode(ClosedShapeDrawMode),
    HatchParams(HatchParams),
    LayerDrawModes,
    LayerHatchStyles,
    MinHierarchyLevel(u32),
    MaxHierarchyLevel(u32),
    TileCacheCapacity(usize),
    ProgressiveBypassThreshold(usize),
    LayerBypassEntryThreshold(usize),
    LayerBypassWorkThreshold(usize),
    OpenFile,
    ReloadLayout,
    /// The layout is fitted into the picture where that was asked for, or where the camera has
    /// not been set.
    Fit { asked: bool },
    Pan(Point),
    Zoom { factor: i32, cursor: Point },
}

/// The step, where it is taken.
pub open spec fn taken(step: Option<UiStep>) -> Seq<UiStep> {
    match step {
        Some(step) => seq![step],
        None => Seq::empty(),
    }
}

/// The step, where the condition holds.
pub open spec fn taken_if(condition: bool, step: UiStep) -> Seq<UiStep> {
    if condition {
        seq![step]
    } else {
        Seq::empty()
    }
}

/// What is done about the view and the layers.
pub open spec fn layer_plan(action: UiAction) -> Seq<UiStep> {
    taken(
        match action.selected_view {
            Some(index) => Some(UiStep::SelectView(index)),
            None => None,
        },
    ) + taken_if(action.hidden_layers is Some, UiStep::HideLayers)
}

/// What is done about how things are drawn.
pub open spec fn drawing_plan(action: UiAction) -> Seq<UiStep> {
    taken(
        match action.tile_grid_divisions {
            Some(divisions) => Some(UiStep::TileGridDivisions(divisions)),
            None => None,
        },
    ) + taken(
        match action.draw_mode {
            Some(mode) => Some(UiStep::DrawMode(mode)),
            None => None,
        },
    ) + taken(
        match action.hatch_params {
            Some(params) => Some(UiStep::HatchParams(params)),
            None => None,
        },
    ) + taken_if(action.layer_draw_modes is Some, UiStep::LayerDrawModes) + taken_if(
        action.layer_hatch_styles is Some,
        UiStep::LayerHatchStyles,
    )
}

/// What is done about the levels.
pub open spec fn level_plan(action: UiAction) -> Seq<UiStep> {
    taken(
        match action.min_hierarchy_level {
            Some(level) => Some(UiStep::MinHierarchyLevel(level)),
            None => None,
        },
    ) + taken(
        match action.max_hierarchy_level {
            Some(level) => Some(UiStep::MaxHierarchyLevel(level)),
            None => None,
        },
    )
}

/// What is done about the limits.
pub open spec fn limit_plan(action: UiAction) -> Seq<UiStep> {
    taken(
        match action.tile_cache_capacity {
            Some(capacity) => Some(UiStep::TileCacheCapacity(capacity)),
            None => None,
        },
    ) + taken(
        match action.progressive_bypass_threshold {
            Some(threshold) => Some(UiStep::ProgressiveBypassThreshold(threshold)),
            None => None,
        },
    ) + taken(
        match action.layer_bypass_entry_threshold {
            Some(threshold) => Some(UiStep::LayerBypassEntryThreshold(threshold)),
            None => None,
        },
    ) + taken(
        match action.layer_bypass_work_threshold {
            Some(threshold) => Some(UiStep::LayerBypassWorkThreshold(threshold)),
            None => None,
        },
    )
}

/// What is done about files.
pub open spec fn file_plan(action: UiAction) -> Seq<UiStep> {
    taken_if(action.request_open_file, UiStep::OpenFile) + taken_if(
        action.request_reload_layout,
        UiStep::ReloadLayout,
    )
}

/// What is done about the camera.
pub open spec fn camera_plan(action: UiAction) -> Seq<UiStep> {
    seq![UiStep::Fit { asked: action.request_fit }] + taken_if(
        !(coords::same_number(action.pan_delta.x, 0) && coords::same_number(action.pan_delta.y, 0)),
        UiStep::Pan(action.pan_delta),
    ) + taken(
        match action.zoom {
            Some((factor, cursor)) => Some(UiStep::Zoom { factor, cursor }),
            None => None,
        },
    )
}

/// What is done in a frame, in order: the view first, then the layers, then how things are drawn,
/// then the levels and the limits, then files, and the camera last.
pub open spec fn frame_plan(action: UiAction) -> Seq<UiStep> {
    layer_plan(action) + drawing_plan(action) + level_plan(action) + limit_plan(action) + file_plan(
        action,
    ) + camera_plan(action)
}

/// No wish is passed over: each that the user has in a frame is a step of its plan.
pub proof fn law_no_wish_is_passed_over(action: UiAction)
    ensures
        ({
            let plan = frame_plan(action);
            &&& action.selected_view matches Some(index) ==> plan.contains(UiStep::SelectView(index))
            &&& action.hidden_layers is Some ==> plan.contains(UiStep::HideLayers)
            &&& action.tile_grid_divisions matches Some(divisions) ==> plan.contains(
                UiStep::TileGridDivisions(divisions),
            )
            &&& action.draw_mode matches Some(mode) ==> plan.contains(UiStep::DrawMode(mode))
            &&& action.hatch_params matches Some(params) ==> plan.contains(
                UiStep::HatchParams(params),
            )
            &&& action.layer_draw_modes is Some ==> plan.contains(UiStep::LayerDrawModes)
            &&& action.layer_hatch_styles is Some ==> plan.contains(UiStep::LayerHatchStyles)
            &&& action.min_hierarchy_level matches Some(level) ==> plan.contains(
                UiStep::MinHierarchyLevel(level),
            )
            &&& action.max_hierarchy_level matches Some(level) ==> plan.contains(
                UiStep::MaxHierarchyLevel(level),
            )
            &&& action.tile_cache_capacity matches Some(capacity) ==> plan.contains(
                UiStep::TileCacheCapacity(capacity),
            )
            &&& action.progressive_bypass_threshold matches Some(threshold) ==> plan.contains(
                UiStep::ProgressiveBypassThreshold(threshold),
            )
            &&& action.layer_bypass_entry_threshold matches Some(threshold) ==> plan.contains(
                UiStep::LayerBypassEntryThreshold(threshold),
            )
            &&& action.layer_bypass_work_threshold matches Some(threshold) ==> plan.contains(
                UiStep::LayerBypassWorkThreshold(threshold),
            )
            &&& action.request_open_file ==> plan.contains(UiStep::OpenFile)
            &&& action.request_reload_layout ==> plan.contains(UiStep::ReloadLayout)
            &&& plan.contains(UiStep::Fit { asked: action.request_fit })
            &&& !(coords::same_number(action.pan_delta.x, 0) && coords::same_number(
                action.pan_delta.y,
                0,
            )) ==> plan.contains(UiStep::Pan(action.pan_delta))
            &&& action.zoom matches Some((factor, cursor)) ==> plan.contains(
                UiStep::Zoom { factor, cursor },
            )
        }),
{
    broadcast use lemma_either_contains, lemma_only_contains;

}

broadcast proof fn lemma_either_contains(a: Seq<UiStep>, b: Seq<UiStep>, step: UiStep)
    ensures
        #[trigger] (a + b).contains(step) <==> a.contains(step) || b.contains(step),
{
    if a.contains(step) {
        let k = choose|k: int| 0 <= k < a.len() && a[k] == step;
        assert((a + b)[k] == step);
    }
    if b.contains(step) {
        let k = choose|k: int| 0 <= k < b.len() && b[k] == step;
        assert((a + b)[a.len() + k] == step);
    }
    if (a + b).contains(step) {
        let k = choose|k: int| 0 <= k < (a + b).len() && (a + b)[k] == step;
        if k < a.len() {
            assert(a[k] == step);
        } else {
            assert(b[k - a.len()] == step);
        }
    }
}

broadcast proof fn lemma_only_contains(only: UiStep, step: UiStep)
    ensures
        #[trigger] seq![only].contains(step) <==> only == step,
{
    assert(seq![only][0] == only);
}

fn push_if(steps: &mut Vec<UiStep>, condition: bool, step: UiStep)
    ensures
        final(steps)@ == old(steps)@ + taken_if(condition, step),
{
    if condition {
        steps.push(step);
        assert(steps@ =~= old(steps)@ + seq![step]);
    } else {
        assert(steps@ =~= old(steps)@ + Seq::<UiStep>::empty());
    }
}

fn push_some(steps: &mut Vec<UiStep>, step: Option<UiStep>)
    ensures
        final(steps)@ == old(steps)@ + taken(step),
{
    match step {
        Some(step) => {
            steps.push(step);
            assert(steps@ =~= old(steps)@ + seq![step]);
        },
        None => {
            assert(steps@ =~= old(steps)@ + Seq::<UiStep>::empty());
        },
    }
}

fn plan_layers(action: &UiAction) -> (steps: Vec<UiStep>)
    ensures
        steps@ == layer_plan(*action),
{
    let mut steps: Vec<UiStep> = Vec::new();
    push_some(
        &mut steps,
        match action.selected_view {
            Some(index) => Some(UiStep::SelectView(index)),
            None => None,
        },
    );
    push_if(&mut steps, action.hidden_layers.is_some(), UiStep::HideLayers);
    steps
}

fn plan_drawing(action: &UiAction) -> (steps: Vec<UiStep>)
    ensures
        steps@ == drawing_plan(*action),
{
    let mut steps: Vec<UiStep> = Vec::new();
    push_some(
        &mut steps,
        match action.tile_grid_divisions {
            Some(divisions) => Some(UiStep::TileGridDivisions(divisions)),
            None => None,
        },
    );
    push_some(
        &mut steps,
        match action.draw_mode {
            Some(mode) => Some(UiStep::DrawMode(mode)),
            None => None,
        },
    );
    push_some(
        &mut steps,
        match action.hatch_params {
            Some(params) => Some(UiStep::HatchParams(params)),
            None => None,
        },
    );
    push_if(&mut steps, action.layer_draw_modes.is_some(), UiStep::LayerDrawModes);
    push_if(&mut steps, action.layer_hatch_styles.is_some(), UiStep::LayerHatchStyles);
    steps
}

fn plan_levels(action: &UiAction) -> (steps: Vec<UiStep>)
    ensures
        steps@ == level_plan(*action),
{
    let mut steps: Vec<UiStep> = Vec::new();
    push_some(
        &mut steps,
        match action.min_hierarchy_level {
            Some(level) => Some(UiStep::MinHierarchyLevel(level)),
            None => None,
        },
    );
    push_some(
        &mut steps,
        match action.max_hierarchy_level {
            Some(level) => Some(UiStep::MaxHierarchyLevel(level)),
            None => None,
        },
    );
    steps
}

fn plan_limits(action: &UiAction) -> (steps: Vec<UiStep>)
    ensures
        steps@ == limit_plan(*action),
{
    let mut steps: Vec<UiStep> = Vec::new();
    push_some(
        &mut steps,
        match action.tile_cache_capacity {
            Some(capacity) => Some(UiStep::TileCacheCapacity(capacity)),
            None => None,
        },
    );
    push_some(
        &mut steps,
        match action.progressive_bypass_threshold {
            Some(threshold) => Some(UiStep::ProgressiveBypassThreshold(threshold)),
            None => None,
        },
    );
    push_some(
        &mut steps,
        match action.layer_bypass_entry_threshold {
            Some(threshold) => Some(UiStep::LayerBypassEntryThreshold(threshold)),
            None => None,
        },
    );
    push_some(
        &mut steps,
        match action.layer_bypass_work_threshold {
            Some(threshold) => Some(UiStep::LayerBypassWorkThreshold(threshold)),
            None => None,
        },
    );
    steps
}

fn plan_files(action: &UiAction) -> (steps: Vec<UiStep>)
    ensures
        steps@ == file_plan(*action),
{
    let mut steps: Vec<UiStep> = Vec::new();
    push_if(&mut steps, action.request_open_file, UiStep::OpenFile);
    push_if(&mut steps, action.request_reload_layout, UiStep::ReloadLayout);
    steps
}

fn plan_camera(action: &UiAction) -> (steps: Vec<UiStep>)
    ensures
        steps@ == camera_plan(*action),
{
    let mut steps: Vec<UiStep> = Vec::new();
    push_if(&mut steps, true, UiStep::Fit { asked: action.request_fit });
    push_if(
        &mut steps,
        !(keys_equal(action.pan_delta.x, 0) && keys_equal(action.pan_delta.y, 0)),
        UiStep::Pan(action.pan_delta),
    );
    push_some(
        &mut steps,
        match action.zoom {
            Some((factor, cursor)) => Some(UiStep::Zoom { factor, cursor }),
            None => None,
        },
    );
    steps
}

/// What is done in a frame, in order.
pub fn plan_frame(action: &UiAction) -> (steps: Vec<UiStep>)
    ensures
        steps@ == frame_plan(*action),
{
    let mut steps = plan_layers(action);
    let mut drawing = plan_drawing(action);
    let mut levels = plan_levels(action);
    let mut limits = plan_limits(action);
    let mut files = plan_files(action);
    let mut camera = plan_camera(action);
    steps.append(&mut drawing);
    steps.append(&mut levels);
    steps.append(&mut limits);
    steps.append(&mut files);
    steps.append(&mut camera);
    steps
}

/// The settings after a step, and the command for the renderer; other steps change nothing.
pub open spec fn set_by(settings: ViewerSettings, step: UiStep) -> (ViewerSettings, Option<
    RendererCommand,
>) {
    match step {
        UiStep::TileGridDivisions(divisions) => (
            ViewerSettings { tile_grid_divisions: divisions, ..settings },
            Some(RendererCommand::TileGridDivisions(divisions)),
        ),
        UiStep::DrawMode(mode) => (
            ViewerSettings { draw_mode: mode, ..settings },
            Some(RendererCommand::DrawMode(mode)),
        ),
        UiStep::HatchParams(params) => (
            ViewerSettings { hatch_params: params, ..settings },
            Some(RendererCommand::HatchParams(params)),
        ),
        UiStep::TileCacheCapacity(capacity) => (
            ViewerSettings { tile_cache_capacity: capacity, ..settings },
            Some(RendererCommand::TileCacheCapacity(capacity)),
        ),
        UiStep::ProgressiveBypassThreshold(threshold) => (
            ViewerSettings { progressive_bypass_threshold: threshold, ..settings },
            Some(RendererCommand::ProgressiveBypassThreshold(threshold)),
        ),
        UiStep::LayerBypassEntryThreshold(threshold) => (
            ViewerSettings { layer_bypass_entry_threshold: threshold, ..settings },
            Some(
                RendererCommand::LayerBypassThresholds(
                    threshold,
                    settings.layer_bypass_work_threshold,
                ),
            ),
        ),
        UiStep::LayerBypassWorkThreshold(threshold) => (
            ViewerSettings { layer_bypass_work_threshold: threshold, ..settings },
            Some(
                RendererCommand::LayerBypassThresholds(
                    settings.layer_bypass_entry_threshold,
                    threshold,
                ),
            ),
        ),
        _ => (settings, None),
    }
}

/// The rectangle that is fitted into the picture: that of the whole layout, or, where there is
/// none, that of the scene.
pub open spec fn fitted(state: ViewerState) -> Option<Bounds> {
    let whole = match state.source.layout_bundle {
        Some(bundle) => match source::selected_root(bundle) {
            Some(root) => bundle.at(root).bounds,
            None => None,
        },
        None => None,
    };
    if !source::has_area(state.viewpoint.canvas_size) {
        None
    } else if whole is Some {
        whole
    } else {
        scene::union_of(scene::shape_bounds(state.shown@.scene))
    }
}

/// The key, or that of one where it is less or no number.
pub open spec fn one_at_least(key: i32) -> i32 {
    if coords::is_nan_key(key) || key < ONE_KEY {
        ONE_KEY
    } else {
        key
    }
}

impl ViewerState {
    /// Takes over a setting; tells the command for the renderer.
    pub fn apply_setting(&mut self, step: UiStep) -> (command: Option<RendererCommand>)
        ensures
            (final(self).settings, command) == set_by(old(self).settings, step),
            *final(self) == (ViewerState { settings: final(self).settings, ..*old(self) }),
    {
        match step {
            UiStep::TileGridDivisions(divisions) => {
                self.settings.tile_grid_divisions = divisions;
                Some(RendererCommand::TileGridDivisions(divisions))
            },
            UiStep::DrawMode(mode) => {
                self.settings.draw_mode = mode;
                Some(RendererCommand::DrawMode(mode))
            },
            UiStep::HatchParams(params) => {
                self.settings.hatch_params = params;
                Some(RendererCommand::HatchParams(params))
            },
            UiStep::TileCacheCapacity(capacity) => {
                self.settings.tile_cache_capacity = capacity;
                Some(RendererCommand::TileCacheCapacity(capacity))
            },
            UiStep::ProgressiveBypassThreshold(threshold) => {
                self.settings.progressive_bypass_threshold = threshold;
                Some(RendererCommand::ProgressiveBypassThreshold(threshold))
            },
            UiStep::LayerBypassEntryThreshold(threshold) => {
                self.settings.layer_bypass_entry_threshold = threshold;
                Some(
                    RendererCommand::LayerBypassThresholds(
                        threshold,
                        self.settings.layer_bypass_work_threshold,
                    ),
                )
            },
            UiStep::LayerBypassWorkThreshold(threshold) => {
                self.settings.layer_bypass_work_threshold = threshold;
                Some(
                    RendererCommand::LayerBypassThresholds(
                        self.settings.layer_bypass_entry_threshold,
                        threshold,
                    ),
                )
            },
            _ => None,
        }
    }

    /// Hides these layers and shows the others.
    pub fn hide_layers(&mut self, hidden_layers: LayerSet)
        ensures
            final(self).look.hidden_layers == hidden_layers,
            final(self).look.layer_draw_modes == old(self).look.layer_draw_modes,
            final(self).look.layer_hatch_styles == old(self).look.layer_hatch_styles,
            *final(self) == (ViewerState { look: final(self).look, ..*old(self) }),
    {
        self.look.hidden_layers = hidden_layers;
    }

    /// Draws these layers in ways of their own; tells the command for the renderer.
    pub fn set_layer_draw_modes(&mut self, modes: LayerMap<ClosedShapeDrawMode>) -> (command:
        RendererCommand)
        ensures
            command == RendererCommand::LayerDrawModes,
            final(self).look.layer_draw_modes == modes,
            final(self).look.hidden_layers == old(self).look.hidden_layers,
            final(self).look.layer_hatch_styles == old(self).look.layer_hatch_styles,
            *final(self) == (ViewerState { look: final(self).look, ..*old(self) }),
    {
        self.look.layer_draw_modes = modes;
        RendererCommand::LayerDrawModes
    }

    /// Draws these layers in patterns of their own; tells the command for the renderer.
    pub fn set_layer_hatch_styles(&mut self, styles: LayerMap<HatchStylePreset>) -> (command:
        RendererCommand)
        ensures
            command == RendererCommand::LayerHatchStyles,
            final(self).look.layer_hatch_styles == styles,
            final(self).look.hidden_layers == old(self).look.hidden_layers,
            final(self).look.layer_draw_modes == old(self).look.layer_draw_modes,
            *final(self) == (ViewerState { look: final(self).look, ..*old(self) }),
    {
        self.look.layer_hatch_styles = styles;
        RendererCommand::LayerHatchStyles
    }

    /// Shows the levels from this one on.
    pub fn set_min_hierarchy_level<
        W: Fn(LayoutCellId, &Vec<PlacementStep>, Bounds) -> Bounds,
        B: Fn(LayoutCellId, &Vec<PlacementStep>, LayoutCellId, usize) -> Bounds,
        S: Fn(Bounds, SubtreeScreenLod) -> bool,
        P: Fn(LayoutCellId, Option<SubtreeScreenLod>, &ViewShape) -> PlacedOutline,
        V: Fn(Camera2D, Point) -> Sight,
        D: Fn(i32, i32) -> bool,
    >(&mut self, level: u32, math: &ViewerMath<W, B, S, P, V, D>) -> (update: RendererUpdate)
        requires
            source::is_countable(old(self).source),
            source::can_compute(*math),
        ensures
            final(self).source == old(self).source,
            final(self).levels.min_level <= final(self).levels.max_level
                <= final(self).levels.deepest,
            forall|rules: ViewerRules| #[trigger]
                source::computes(*math, rules) ==> {
                    &&& viewer::is_refreshed(
                        ViewerState {
                            levels: LevelRange {
                                min_level: level,
                                chosen: true,
                                ..old(self).levels
                            },
                            ..*old(self)
                        },
                        *final(self),
                        rules,
                    )
                    &&& update == source::renderer_update(
                        final(self).source,
                        final(self).levels,
                        final(self).viewpoint,
                        final(self).shown@,
                    )
                },
    {
        self.levels.min_level = level;
        self.levels.chosen = true;
        self.refresh_filtered_scene_and_renderer(math)
    }

    /// Shows the levels down to this one.
    pub fn set_max_hierarchy_level<
        W: Fn(LayoutCellId, &Vec<PlacementStep>, Bounds) -> Bounds,
        B: Fn(LayoutCellId, &Vec<PlacementStep>, LayoutCellId, usize) -> Bounds,
        S: Fn(Bounds, SubtreeScreenLod) -> bool,
        P: Fn(LayoutCellId, Option<SubtreeScreenLod>, &ViewShape) -> PlacedOutline,
        V: Fn(Camera2D, Point) -> Sight,
        D: Fn(i32, i32) -> bool,
    >(&mut self, level: u32, math: &ViewerMath<W, B, S, P, V, D>) -> (update: RendererUpdate)
        requires
            source::is_countable(old(self).source),
            source::can_compute(*math),
        ensures
            final(self).source == old(self).source,
            final(self).levels.min_level <= final(self).levels.max_level
                <= final(self).levels.deepest,
            forall|rules: ViewerRules| #[trigger]
                source::computes(*math, rules) ==> {
                    &&& viewer::is_refreshed(
                        ViewerState {
                            levels: LevelRange {
                                max_level: level,
                                chosen: true,
                                ..old(self).levels
                            },
                            ..*old(self)
                        },
                        *final(self),
                        rules,
                    )
                    &&& update == source::renderer_update(
                        final(self).source,
                        final(self).levels,
                        final(self).viewpoint,
                        final(self).shown@,
                    )
                },
    {
        self.levels.max_level = level;
        self.levels.chosen = true;
        self.refresh_filtered_scene_and_renderer(math)
    }

    /// Opens another file next.
    pub fn set_layout_path(&mut self, path: String)
        ensures
            *final(self) == (ViewerState { layout_path: path, ..*old(self) }),
    {
        self.layout_path = path;
    }

    /// Takes over the size of the picture, one at least in either direction; the scene of a layout
    /// that is not flattened may have to be built anew.
    pub fn resize_canvas<
        W: Fn(LayoutCellId, &Vec<PlacementStep>, Bounds) -> Bounds,
        B: Fn(LayoutCellId, &Vec<PlacementStep>, LayoutCellId, usize) -> Bounds,
        S: Fn(Bounds, SubtreeScreenLod) -> bool,
        P: Fn(LayoutCellId, Option<SubtreeScreenLod>, &ViewShape) -> PlacedOutline,
        V: Fn(Camera2D, Point) -> Sight,
        D: Fn(i32, i32) -> bool,
    >(&mut self, size: Point, elapsed: Option<u64>, math: &ViewerMath<W, B, S, P, V, D>) -> (update:
        Option<RendererUpdate>)
        requires
            source::is_countable(old(self).source),
            source::can_compute(*math),
        ensures
            final(self).source == old(self).source,
            ({
                let canvas_size = Point { x: one_at_least(size.x), y: one_at_least(size.y) };
                let resized = ViewerState {
                    viewpoint: Viewpoint { canvas_size, ..old(self).viewpoint },
                    ..*old(self)
                };
                if old(self).source.layout_bundle is Some && old(self).viewpoint.initialized
                    && canvas_size != old(self).viewpoint.canvas_size {
                    forall|rules: ViewerRules| #[trigger]
                        source::computes(*math, rules) ==> viewer::is_caught_up(
                            resized,
                            *final(self),
                            update,
                            elapsed,
                            rules,
                        )
                } else {
                    update is None && *final(self) == resized
                }
            }),
    {
        let previous = self.viewpoint.canvas_size;
        let width: i32 = if key_is_nan(size.x) || size.x < ONE_KEY {
            ONE_KEY
        } else {
            size.x
        };
        let height: i32 = if key_is_nan(size.y) || size.y < ONE_KEY {
            ONE_KEY
        } else {
            size.y
        };
        self.viewpoint.canvas_size = Point { x: width, y: height };
        if self.source.layout_bundle.is_some() && self.viewpoint.initialized && (width
            != previous.x || height != previous.y) {
            self.refresh_layout_scene_if_camera_requires_rebuild(elapsed, math)
        } else {
            None
        }
    }

    /// Fits the layout into the picture, where it has a rectangle. `scale` is the zoom at which a
    /// rectangle fits, `pan` the shift that centres it at a zoom.
    pub fn fit_scene<F: Fn(Bounds, Point) -> i32, C: Fn(Bounds, Point, i32) -> Point>(
        &mut self,
        scale: &F,
        pan: &C,
    )
        requires
            forall|bounds: Bounds, size: Point| #[trigger] scale.requires((bounds, size)),
            forall|bounds: Bounds, size: Point, zoom: i32| #[trigger]
                pan.requires((bounds, size, zoom)),
        ensures
            match fitted(*old(self)) {
                Some(bounds) => {
                    let size = old(self).viewpoint.canvas_size;
                    &&& *final(self) == (ViewerState {
                        viewpoint: final(self).viewpoint,
                        ..*old(self)
                    })
                    &&& final(self).viewpoint.initialized
                    &&& final(self).viewpoint.canvas_size == size
                    &&& exists|zoom: i32| #[trigger]
                        scale.ensures((bounds, size), zoom) && final(self).viewpoint.camera@.zoom
                            == camera::clamped_zoom(zoom)
                    &&& forall|d: spec_fn(Bounds, Point, i32) -> Point| #[trigger]
                        camera::centres(*pan, d) ==> final(self).viewpoint.camera@.pan == d(
                            bounds,
                            size,
                            final(self).viewpoint.camera@.zoom,
                        )
                },
                None => *final(self) == *old(self),
            },
    {
        let size = self.viewpoint.canvas_size;
        if !picture_has_area(size) {
            return;
        }
        let whole: Option<Bounds> = match &self.source.layout_bundle {
            Some(bundle) => match bundle.selected_root_cell() {
                Some(cell) => cell.local_bounds(),
                None => None,
            },
            None => None,
        };
        let bounds: Option<Bounds> = match whole {
            Some(bounds) => Some(bounds),
            None => self.shown.scene.bounds(),
        };
        if let Some(bounds) = bounds {
            let zoom: i32 = scale(bounds, size);
            assert(scale.ensures((bounds, size), zoom));
            self.viewpoint.camera.fit_bounds(bounds, size, zoom, pan);
            self.viewpoint.initialized = true;
        }
    }

    /// Whether the layout is fitted in this frame.
    pub fn should_fit(&self, asked: bool) -> (fit: bool)
        ensures
            fit == (asked || !self.viewpoint.initialized),
    {
        asked || !self.viewpoint.initialized
    }

    /// Whether the scene is built anew after the layout was fitted.
    pub fn should_refresh_after_fit(&self) -> (refresh: bool)
        ensures
            refresh == (self.source.layout_bundle is Some && self.viewpoint.initialized),
    {
        self.source.layout_bundle.is_some() && self.viewpoint.initialized
    }

    /// Shifts the view by a distance on the screen; `sum` adds the distance to the pan.
    pub fn pan_view<F: Fn(Point, Point) -> Point>(&mut self, delta: Point, now: u64, sum: &F)
        requires
            forall|a: Point, b: Point| #[trigger] sum.requires((a, b)),
        ensures
            sum.ensures(
                (old(self).viewpoint.camera@.pan, delta),
                final(self).viewpoint.camera@.pan,
            ),
            final(self).viewpoint.camera@.zoom == old(self).viewpoint.camera@.zoom,
            final(self).viewpoint.canvas_size == old(self).viewpoint.canvas_size,
            final(self).viewpoint.initialized,
            *final(self) == (ViewerState {
                viewpoint: final(self).viewpoint,
                interaction: Interaction {
                    last_moved_at: Some(now),
                    view_dirty: true,
                    ..old(self).interaction
                },
                ..*old(self)
            }),
    {
        self.viewpoint.camera.translate_screen(delta, sum);
        self.viewpoint.initialized = true;
        self.interaction.last_moved_at = Some(now);
        self.interaction.view_dirty = true;
    }

    /// Changes the zoom by a factor, with the point under the cursor in its place.
    pub fn zoom_view<
        M: Fn(i32, i32) -> i32,
        N: Fn(i32, i32) -> bool,
        C: Fn(Point, Point, i32, i32) -> Point,
    >(&mut self, factor: i32, cursor: Point, now: u64, product: &M, close: &N, pan: &C)
        requires
            forall|a: i32, b: i32| #[trigger] product.requires((a, b)),
            forall|a: i32, b: i32| #[trigger] close.requires((a, b)),
            forall|from: Point, cursor: Point, next: i32, previous: i32| #[trigger]
                pan.requires((from, cursor, next, previous)),
        ensures
            forall|d: camera::Zooming| #[trigger]
                camera::zooms(*product, *close, *pan, d) ==> final(self).viewpoint.camera@
                    == camera::zoomed(old(self).viewpoint.camera@, factor, cursor, d),
            final(self).viewpoint.canvas_size == old(self).viewpoint.canvas_size,
            final(self).viewpoint.initialized,
            *final(self) == (ViewerState {
                viewpoint: final(self).viewpoint,
                interaction: Interaction {
                    last_moved_at: Some(now),
                    view_dirty: true,
                    ..old(self).interaction
                },
                ..*old(self)
            }),
    {
        self.viewpoint.camera.zoom_by(factor, cursor, product, close, pan);
        self.viewpoint.initialized = true;
        self.interaction.last_moved_at = Some(now);
        self.interaction.view_dirty = true;
    }

    /// Notes that a frame was drawn; one that was not simplified has caught up with the camera.
    pub fn after_frame(&mut self, simplified: bool)
        ensures
            *final(self) == (ViewerState {
                interaction: Interaction {
                    view_dirty: simplified && old(self).interaction.view_dirty,
                    ..old(self).interaction
                },
                ..*old(self)
            }),
    {
        if !simplified {
            self.interaction.view_dirty = false;
        }
    }

    /// Builds the scene that was put off, once the view rests; tells whether another frame follows
    /// for it.
    pub fn settle<
        W: Fn(LayoutCellId, &Vec<PlacementStep>, Bounds) -> Bounds,
        B: Fn(LayoutCellId, &Vec<PlacementStep>, LayoutCellId, usize) -> Bounds,
        S: Fn(Bounds, SubtreeScreenLod) -> bool,
        P: Fn(LayoutCellId, Option<SubtreeScreenLod>, &ViewShape) -> PlacedOutline,
        V: Fn(Camera2D, Point) -> Sight,
        D: Fn(i32, i32) -> bool,
    >(&mut self, simplified: bool, elapsed: Option<u64>, math: &ViewerMath<W, B, S, P, V, D>) -> (result:
        (bool, Option<RendererUpdate>))
        requires
            source::is_countable(old(self).source),
            source::can_compute(*math),
        ensures
            final(self).source == old(self).source,
            result.0 == (!simplified && old(self).interaction.rebuild_pending),
            !result.0 ==> result.1 is None && *final(self) == *old(self),
            result.0 ==> forall|rules: ViewerRules| #[trigger]
                source::computes(*math, rules) ==> viewer::is_caught_up(
                    *old(self),
                    *final(self),
                    result.1,
                    elapsed,
                    rules,
                ),
    {
        if !simplified && self.interaction.rebuild_pending {
            let update = self.refresh_layout_scene_if_camera_requires_rebuild(elapsed, math);
            (true, update)
        } else {
            (false, None)
        }
    }

    /// Whether another frame follows: where the controls want it, entries are missing, the view
    /// has just been moved, the picture lags behind, or the scene is to be built anew.
    pub fn wants_next_frame(
        &self,
        pending_entries: usize,
        egui_wants_repaint: bool,
        elapsed: Option<u64>,
    ) -> (again: bool)
        ensures
            again == (egui_wants_repaint || pending_entries > 0 || viewer::is_moving(elapsed)
                || self.interaction.view_dirty || self.interaction.rebuild_pending),
    {
        should_request_continuous_redraw(pending_entries, egui_wants_repaint)
            || should_degrade_interaction_render(elapsed, INTERACTION_RENDER_DEGRADE_HOLD)
            || self.interaction.view_dirty || self.interaction.rebuild_pending
    }
}

} // verus!
