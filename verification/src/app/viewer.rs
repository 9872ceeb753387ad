//! The state of the viewer, and what becomes of it when the user acts.

pub mod action_laws;
pub mod actions;
pub mod laws;
pub mod loading;
pub mod loading_laws;

use crate::app;
use crate::app::source;
use crate::app::source::{
    clamp_levels, picture_has_area, rebuild_scene_from_source, update_for_renderer, LayoutSource, LevelRange,
    RendererUpdate, ShownScene, Sight, ViewerMath, ViewerRules, Viewpoint,
};
use crate::app::{
    fill_missing_layer_hatch_styles_for_layers, should_degrade_interaction_render,
    should_rebuild_layout_workset_for_camera, LoadState, INTERACTION_RENDER_DEGRADE_HOLD,
};
use crate::camera::{Camera2D, CameraModel};
use crate::camera;
use crate::config;
use crate::config::DEFAULT_LAYOUT_PATH;
use crate::io;
use crate::io::is_blank_text;
use crate::layers;
use crate::layers::{LayerMap, LayerSet};
use crate::layout::LayoutCellId;
use crate::persistence;
use crate::persistence::{
    filter_hidden_layers_for_layer_ids, filter_layer_draw_modes_for_layer_ids,
    filter_layer_hatch_styles_for_layer_ids, resolve_saved_view_index, PersistedCamera,
    PersistedClosedShapeDrawMode, PersistedHatchStylePreset, PersistedLayerDrawMode,
    PersistedLayerHatchStyle, PersistedLayerId, ViewerConfig,
};
use crate::renderer::geometry::{
    ClosedShapeDrawMode, HatchParams, HatchStylePreset, DEFAULT_HATCH_SPACING, DEFAULT_HATCH_WIDTH,
    DEFAULT_TILE_GRID_DIVISIONS,
};
use crate::renderer::{
    DEFAULT_LAYER_BYPASS_ENTRY_THRESHOLD, DEFAULT_LAYER_BYPASS_WORK_THRESHOLD,
    DEFAULT_PROGRESSIVE_BYPASS_THRESHOLD, DEFAULT_TILE_CACHE_CAPACITY,
};
use crate::scene;
use crate::scene::{Bounds, LayerId, PlacedOutline, Point, Scene, SceneBundle};
use crate::view_builder::{PlacementStep, SubtreeScreenLod, ViewShape};
use std::sync::Arc;
use vstd::prelude::*;

verus! {

/// How the viewer draws.
#[derive(Debug, Clone, Copy, PartialEq, Eq, Structural)]
pub struct ViewerSettings {
    pub tile_grid_divisions: u32,
    pub draw_mode: ClosedShapeDrawMode,
    pub hatch_params: HatchParams,
    pub tile_cache_capacity: usize,
    pub progressive_bypass_threshold: usize,
    pub layer_bypass_entry_threshold: usize,
    pub layer_bypass_work_threshold: usize,
}

/// How the viewer draws at first.
pub open spec fn default_settings() -> ViewerSettings {
    ViewerSettings {
        tile_grid_divisions: DEFAULT_TILE_GRID_DIVISIONS,
        draw_mode: ClosedShapeDrawMode::HatchOutline,
        hatch_params: HatchParams { spacing: DEFAULT_HATCH_SPACING, width: DEFAULT_HATCH_WIDTH },
        tile_cache_capacity: DEFAULT_TILE_CACHE_CAPACITY,
        progressive_bypass_threshold: DEFAULT_PROGRESSIVE_BYPASS_THRESHOLD,
        layer_bypass_entry_threshold: DEFAULT_LAYER_BYPASS_ENTRY_THRESHOLD,
        layer_bypass_work_threshold: DEFAULT_LAYER_BYPASS_WORK_THRESHOLD,
    }
}

/// How the viewer drew when the settings were saved.
pub open spec fn saved_settings(config: ViewerConfig) -> ViewerSettings {
    ViewerSettings {
        tile_grid_divisions: config.tile_grid_divisions,
        draw_mode: config.draw_mode.runtime(),
        hatch_params: HatchParams { spacing: config.hatch_spacing, width: config.hatch_width },
        tile_cache_capacity: config.tile_cache_capacity,
        progressive_bypass_threshold: config.progressive_bypass_threshold,
        layer_bypass_entry_threshold: config.layer_bypass_entry_threshold,
        layer_bypass_work_threshold: config.layer_bypass_work_threshold,
    }
}

/// What is special about single layers.
#[derive(Debug)]
pub struct LayerLook {
    pub hidden_layers: LayerSet,
    pub layer_draw_modes: LayerMap<ClosedShapeDrawMode>,
    pub layer_hatch_styles: LayerMap<HatchStylePreset>,
}

/// What is special about single layers.
#[verifier::ext_equal]
pub struct LookModel {
    pub hidden_layers: Set<LayerId>,
    pub layer_draw_modes: Map<LayerId, ClosedShapeDrawMode>,
    pub layer_hatch_styles: Map<LayerId, HatchStylePreset>,
}

impl View for LayerLook {
    type V = LookModel;

    open spec fn view(&self) -> LookModel {
        LookModel {
            hidden_layers: self.hidden_layers@,
            layer_draw_modes: self.layer_draw_modes@,
            layer_hatch_styles: self.layer_hatch_styles@,
        }
    }
}

/// Nothing is special about any layer.
pub open spec fn plain_look() -> LookModel {
    LookModel {
        hidden_layers: Set::empty(),
        layer_draw_modes: Map::empty(),
        layer_hatch_styles: Map::empty(),
    }
}

/// What the user has just done.
#[derive(Debug, Clone, Copy, PartialEq, Eq, Structural)]
pub struct Interaction {
    /// When the view was last moved, in nanoseconds since the viewer started.
    pub last_moved_at: Option<u64>,
    /// Whether the picture lags behind the camera.
    pub view_dirty: bool,
    /// Whether the scene is to be built anew once the view rests.
    pub rebuild_pending: bool,
}

/// The state of the viewer.
#[derive(Debug)]
pub struct ViewerState {
    pub source: LayoutSource,
    pub shown: ShownScene,
    pub levels: LevelRange,
    pub look: LayerLook,
    pub settings: ViewerSettings,
    pub viewpoint: Viewpoint,
    pub interaction: Interaction,
    pub load_state: LoadState,
    pub layout_path: String,
    pub pending_restore_config: Option<ViewerConfig>,
}

/// Whether no layout is open: there are no views and nothing is shown.
pub open spec fn nothing_open(state: ViewerState) -> bool {
    &&& state.source.layout_bundle is None
    &&& state.source.scene_bundle.listed().len() == 0
    &&& state.source.scene_bundle.selection() == 0
    &&& state.shown@ == source::showing(Seq::empty(), None, None)
    &&& state.levels == (LevelRange { min_level: 0, max_level: 0, deepest: 0, chosen: false })
    &&& state.look@ == plain_look()
    &&& !state.viewpoint.initialized
}

fn empty_shown() -> (shown: ShownScene)
    ensures
        shown@ == source::showing(Seq::empty(), None, None),
{
    let none = Scene::empty();
    let layer_ids = none.layer_ids();
    let bounds_hint = none.bounds();
    ShownScene {
        scene: Arc::new(none),
        layer_ids,
        bounds_hint,
        tile_render_active: false,
        covered_bounds: None,
        covered_zoom: None,
    }
}

fn empty_look() -> (look: LayerLook)
    ensures
        look@ == plain_look(),
{
    LayerLook {
        hidden_layers: LayerSet::new(),
        layer_draw_modes: LayerMap::new(),
        layer_hatch_styles: LayerMap::new(),
    }
}

/// The size of the first picture, in coordinate keys: 1160 by 960, the window without the panel.
pub open spec fn first_canvas() -> Point {
    Point { x: 0x4491_0000, y: 0x4470_0000 }
}

/// Which command brings the renderer in line with the state.
#[derive(Debug, Clone, Copy, PartialEq, Eq, Structural)]
pub enum RendererCommand {
    TileGridDivisions(u32),
    DrawMode(ClosedShapeDrawMode),
    /// The ways of drawing of the state.
    LayerDrawModes,
    /// The patterns of the state.
    LayerHatchStyles,
    HatchParams(HatchParams),
    TileCacheCapacity(usize),
    ProgressiveBypassThreshold(usize),
    LayerBypassThresholds(usize, usize),
}

/// The commands that bring a new renderer in line with the settings.
pub open spec fn setup_commands(settings: ViewerSettings) -> Seq<RendererCommand> {
    seq![
        RendererCommand::TileGridDivisions(settings.tile_grid_divisions),
        RendererCommand::DrawMode(settings.draw_mode),
        RendererCommand::LayerDrawModes,
        RendererCommand::LayerHatchStyles,
        RendererCommand::HatchParams(settings.hatch_params),
        RendererCommand::TileCacheCapacity(settings.tile_cache_capacity),
        RendererCommand::ProgressiveBypassThreshold(settings.progressive_bypass_threshold),
        RendererCommand::LayerBypassThresholds(
            settings.layer_bypass_entry_threshold,
            settings.layer_bypass_work_threshold,
        ),
    ]
}

/// Whether everything but what is shown, the levels and the patterns is the same.
pub open spec fn same_but_shown(a: ViewerState, b: ViewerState) -> bool {
    &&& a.source == b.source
    &&& a.look.hidden_layers == b.look.hidden_layers
    &&& a.look.layer_draw_modes == b.look.layer_draw_modes
    &&& a.settings == b.settings
    &&& a.viewpoint == b.viewpoint
    &&& a.interaction == b.interaction
    &&& a.load_state == b.load_state
    &&& a.layout_path == b.layout_path
    &&& a.pending_restore_config == b.pending_restore_config
}

/// Whether the state after is that before with the scene built anew: the levels are brought within
/// those that there are, and layers without a pattern get one.
pub open spec fn is_refreshed(before: ViewerState, after: ViewerState, rules: ViewerRules) -> bool {
    &&& same_but_shown(before, after)
    &&& after.levels == source::clamped_levels(before.levels)
    &&& after.shown@ == source::shown_of(before.source, after.levels, before.viewpoint, rules)
    &&& after.look.layer_hatch_styles@ == app::with_default_styles(
        before.look.layer_hatch_styles@,
        after.shown@.layer_ids,
    )
}

impl ViewerState {
    /// The state at the start, with the settings that were saved.
    pub fn new(persisted: Option<ViewerConfig>) -> (state: Self)
        ensures
            nothing_open(state),
            state.load_state is Idle,
            state.layout_path@ == (match persisted {
                Some(config) => if io::is_blank(config.layout_path@) {
                    DEFAULT_LAYOUT_PATH@
                } else {
                    config.layout_path@
                },
                None => DEFAULT_LAYOUT_PATH@,
            }),
            state.settings == (match persisted {
                Some(config) => saved_settings(config),
                None => default_settings(),
            }),
            state.viewpoint.camera@ == (CameraModel {
                pan: Point { x: 0, y: 0 },
                zoom: crate::coords::ONE_KEY,
            }),
            state.viewpoint.canvas_size == first_canvas(),
            state.interaction == (Interaction {
                last_moved_at: None,
                view_dirty: false,
                rebuild_pending: false,
            }),
            state.pending_restore_config == persisted,
    {
        let mut layout_path = String::from_str(DEFAULT_LAYOUT_PATH);
        let mut settings = ViewerSettings {
            tile_grid_divisions: DEFAULT_TILE_GRID_DIVISIONS,
            draw_mode: ClosedShapeDrawMode::HatchOutline,
            hatch_params: HatchParams {
                spacing: DEFAULT_HATCH_SPACING,
                width: DEFAULT_HATCH_WIDTH,
            },
            tile_cache_capacity: DEFAULT_TILE_CACHE_CAPACITY,
            progressive_bypass_threshold: DEFAULT_PROGRESSIVE_BYPASS_THRESHOLD,
            layer_bypass_entry_threshold: DEFAULT_LAYER_BYPASS_ENTRY_THRESHOLD,
            layer_bypass_work_threshold: DEFAULT_LAYER_BYPASS_WORK_THRESHOLD,
        };
        if let Some(config) = &persisted {
            if !is_blank_text(config.layout_path.as_str()) {
                layout_path = config.layout_path.clone();
            }
            settings = ViewerSettings {
                tile_grid_divisions: config.tile_grid_divisions,
                draw_mode: config.draw_mode.to_runtime(),
                hatch_params: HatchParams {
                    spacing: config.hatch_spacing,
                    width: config.hatch_width,
                },
                tile_cache_capacity: config.tile_cache_capacity,
                progressive_bypass_threshold: config.progressive_bypass_threshold,
                layer_bypass_entry_threshold: config.layer_bypass_entry_threshold,
                layer_bypass_work_threshold: config.layer_bypass_work_threshold,
            };
        }
        ViewerState {
            source: LayoutSource { scene_bundle: SceneBundle::empty(), layout_bundle: None },
            shown: empty_shown(),
            levels: LevelRange { min_level: 0, max_level: 0, deepest: 0, chosen: false },
            look: empty_look(),
            settings,
            viewpoint: Viewpoint {
                camera: Camera2D::new(),
                canvas_size: Point { x: 0x4491_0000, y: 0x4470_0000 },
                initialized: false,
            },
            interaction: Interaction {
                last_moved_at: None,
                view_dirty: false,
                rebuild_pending: false,
            },
            load_state: LoadState::Idle,
            layout_path,
            pending_restore_config: persisted,
        }
    }

    /// The commands that bring a new renderer in line with the settings.
    pub fn renderer_setup(&self) -> (commands: Vec<RendererCommand>)
        ensures
            commands@ == setup_commands(self.settings),
    {
        let mut commands: Vec<RendererCommand> = Vec::new();
        commands.push(RendererCommand::TileGridDivisions(self.settings.tile_grid_divisions));
        commands.push(RendererCommand::DrawMode(self.settings.draw_mode));
        commands.push(RendererCommand::LayerDrawModes);
        commands.push(RendererCommand::LayerHatchStyles);
        commands.push(RendererCommand::HatchParams(self.settings.hatch_params));
        commands.push(RendererCommand::TileCacheCapacity(self.settings.tile_cache_capacity));
        commands.push(
            RendererCommand::ProgressiveBypassThreshold(
                self.settings.progressive_bypass_threshold,
            ),
        );
        commands.push(
            RendererCommand::LayerBypassThresholds(
                self.settings.layer_bypass_entry_threshold,
                self.settings.layer_bypass_work_threshold,
            ),
        );
        assert(commands@ =~= setup_commands(self.settings));
        commands
    }

    /// Builds the scene anew and tells how the renderer takes it over; the ways of drawing and the
    /// patterns of the layers go to the renderer after it.
    pub fn refresh_filtered_scene_and_renderer<
        W: Fn(LayoutCellId, &Vec<PlacementStep>, Bounds) -> Bounds,
        B: Fn(LayoutCellId, &Vec<PlacementStep>, LayoutCellId, usize) -> Bounds,
        S: Fn(Bounds, SubtreeScreenLod) -> bool,
        P: Fn(LayoutCellId, Option<SubtreeScreenLod>, &ViewShape) -> PlacedOutline,
        V: Fn(Camera2D, Point) -> Sight,
        D: Fn(i32, i32) -> bool,
    >(&mut self, math: &ViewerMath<W, B, S, P, V, D>) -> (update: RendererUpdate)
        requires
            source::is_countable(old(self).source),
            source::can_compute(*math),
        ensures
            same_but_shown(*old(self), *final(self)),
            final(self).levels == source::clamped_levels(old(self).levels),
            final(self).levels.min_level <= final(self).levels.max_level
                <= final(self).levels.deepest,
            forall|rules: ViewerRules| #[trigger]
                source::computes(*math, rules) ==> is_refreshed(*old(self), *final(self), rules),
            update == source::renderer_update(
                old(self).source,
                final(self).levels,
                old(self).viewpoint,
                final(self).shown@,
            ),
    {
        self.levels = clamp_levels(self.levels);
        let shown = rebuild_scene_from_source(&self.source, self.levels, self.viewpoint, math);
        fill_missing_layer_hatch_styles_for_layers(
            shown.layer_ids.as_slice(),
            &mut self.look.layer_hatch_styles,
        );
        let update = update_for_renderer(&self.source, self.levels, self.viewpoint, &shown);
        self.shown = shown;
        update
    }
}

/// Whether the scene of a layout that is not flattened no longer serves for what is seen.
pub open spec fn needs_rebuild(state: ViewerState, rules: ViewerRules) -> bool {
    &&& state.source.layout_bundle is Some
    &&& state.viewpoint.initialized
    &&& app::scene_is_outdated(
        match source::layout_sight(state.viewpoint, rules) {
            Some(sight) => Some(sight.visible),
            None => None,
        },
        state.viewpoint.camera@.zoom,
        state.shown.covered_bounds,
        state.shown.covered_zoom,
        rules.drifted,
    )
}

/// Whether the view has just been moved.
pub open spec fn is_moving(elapsed: Option<u64>) -> bool {
    elapsed matches Some(nanos) && nanos <= INTERACTION_RENDER_DEGRADE_HOLD
}

/// The state with a rebuild pending, or not.
pub open spec fn with_pending(state: ViewerState, rebuild_pending: bool) -> ViewerState {
    ViewerState { interaction: Interaction { rebuild_pending, ..state.interaction }, ..state }
}

/// What becomes of the state when the scene may no longer serve: it is built anew at once, or,
/// while the view is being moved, later.
pub open spec fn is_caught_up(
    before: ViewerState,
    after: ViewerState,
    update: Option<RendererUpdate>,
    elapsed: Option<u64>,
    rules: ViewerRules,
) -> bool {
    if !needs_rebuild(before, rules) {
        after == with_pending(before, false) && update is None
    } else if is_moving(elapsed) {
        after == with_pending(before, true) && update is None
    } else {
        &&& is_refreshed(with_pending(before, false), after, rules)
        &&& update == Some(
            source::renderer_update(after.source, after.levels, after.viewpoint, after.shown@),
        )
    }
}

/// The place of the selected view after a selection.
pub open spec fn selected_after(bundle: SceneBundle, index: usize) -> usize {
    if index < bundle.listed().len() {
        index
    } else {
        bundle.selection()
    }
}

/// The settings of layers that are there.
pub open spec fn look_within(look: LookModel, layers: Set<LayerId>) -> LookModel {
    LookModel {
        hidden_layers: look.hidden_layers.intersect(layers),
        layer_draw_modes: look.layer_draw_modes.restrict(layers),
        layer_hatch_styles: look.layer_hatch_styles.restrict(layers),
    }
}

impl ViewerState {
    /// Whether the scene of a layout that is not flattened no longer serves for what is seen.
    pub fn layout_scene_rebuild_needed_for_current_camera<
        W: Fn(LayoutCellId, &Vec<PlacementStep>, Bounds) -> Bounds,
        B: Fn(LayoutCellId, &Vec<PlacementStep>, LayoutCellId, usize) -> Bounds,
        S: Fn(Bounds, SubtreeScreenLod) -> bool,
        P: Fn(LayoutCellId, Option<SubtreeScreenLod>, &ViewShape) -> PlacedOutline,
        V: Fn(Camera2D, Point) -> Sight,
        D: Fn(i32, i32) -> bool,
    >(&self, math: &ViewerMath<W, B, S, P, V, D>) -> (needed: bool)
        requires
            source::can_compute(*math),
        ensures
            forall|rules: ViewerRules| #[trigger]
                source::computes(*math, rules) ==> needed == needs_rebuild(*self, rules),
    {
        if self.source.layout_bundle.is_none() || !self.viewpoint.initialized {
            return false;
        }
        let canvas = self.viewpoint.canvas_size;
        let visible: Option<Bounds> = if picture_has_area(canvas) {
            Some((math.sight)(self.viewpoint.camera, canvas).visible)
        } else {
            None
        };
        let needed = should_rebuild_layout_workset_for_camera(
            visible,
            self.viewpoint.camera.zoom(),
            self.shown.covered_bounds,
            self.shown.covered_zoom,
            &math.drifted,
        );
        proof {
            assert forall|rules: ViewerRules| #[trigger]
                source::computes(*math, rules) implies needed == needs_rebuild(*self, rules) by {
                assert(app::tells_drift(math.drifted, rules.drifted));
            }
        }
        needed
    }

    /// Builds the scene anew where it no longer serves for what is seen; while the view is being
    /// moved, that is put off.
    pub fn refresh_layout_scene_if_camera_requires_rebuild<
        W: Fn(LayoutCellId, &Vec<PlacementStep>, Bounds) -> Bounds,
        B: Fn(LayoutCellId, &Vec<PlacementStep>, LayoutCellId, usize) -> Bounds,
        S: Fn(Bounds, SubtreeScreenLod) -> bool,
        P: Fn(LayoutCellId, Option<SubtreeScreenLod>, &ViewShape) -> PlacedOutline,
        V: Fn(Camera2D, Point) -> Sight,
        D: Fn(i32, i32) -> bool,
    >(&mut self, elapsed: Option<u64>, math: &ViewerMath<W, B, S, P, V, D>) -> (update: Option<
        RendererUpdate,
    >)
        requires
            source::is_countable(old(self).source),
            source::can_compute(*math),
        ensures
            final(self).source == old(self).source,
            forall|rules: ViewerRules| #[trigger]
                source::computes(*math, rules) ==> is_caught_up(
                    *old(self),
                    *final(self),
                    update,
                    elapsed,
                    rules,
                ),
    {
        let needed = self.layout_scene_rebuild_needed_for_current_camera(math);
        if !needed {
            self.interaction.rebuild_pending = false;
            return None;
        }
        if should_degrade_interaction_render(elapsed, INTERACTION_RENDER_DEGRADE_HOLD) {
            self.interaction.rebuild_pending = true;
            return None;
        }
        self.interaction.rebuild_pending = false;
        let ghost settled = *self;
        let update = self.refresh_filtered_scene_and_renderer(math);
        proof {
            assert(settled == with_pending(*old(self), false));
        }
        Some(update)
    }

    /// Whether the file is read again because levels are asked for that the scene does not show.
    pub fn needs_deeper_load(&self, requested_max_level: u32) -> (needed: bool)
        ensures
            needed == (self.source.layout_bundle is None && requested_max_level
                > scene::deepest_level(self.shown@.scene) && requested_max_level
                <= self.levels.deepest),
    {
        self.source.layout_bundle.is_none() && requested_max_level
            > self.shown.scene.max_hierarchy_level() && requested_max_level <= self.levels.deepest
    }

    /// Takes over the views of a file that was read again, with the same view selected; settings
    /// of layers that are not there are dropped.
    pub fn take_deeper_load(&mut self, bundle: SceneBundle)
        ensures
            final(self).source.layout_bundle is None,
            final(self).source.scene_bundle.listed() == bundle.listed(),
            final(self).source.scene_bundle.selection() == selected_after(
                bundle,
                old(self).source.scene_bundle.selection(),
            ),
            final(self).levels == (LevelRange {
                deepest: source::source_depth(final(self).source) as u32,
                ..old(self).levels
            }),
            final(self).look@ == look_within(
                old(self).look@,
                scene::shape_layers(source::selected_scene(final(self).source)).to_set(),
            ),
            *final(self) == (ViewerState {
                source: final(self).source,
                levels: final(self).levels,
                look: final(self).look,
                ..*old(self)
            }),
    {
        let index: usize = self.source.scene_bundle.selected_index();
        let mut loaded = bundle;
        let _changed = loaded.select(index);
        self.source = LayoutSource { scene_bundle: loaded, layout_bundle: None };
        self.levels = LevelRange {
            deepest: self.source.available_max_hierarchy_level(),
            ..self.levels
        };
        let layers: Vec<LayerId> = match self.source.scene_bundle.current_scene() {
            Some(scene) => scene.layer_ids(),
            None => Scene::empty().layer_ids(),
        };
        assert(layers@.to_set() == scene::shape_layers(
            source::selected_scene(self.source),
        ).to_set());
        self.look.hidden_layers.retain_layers(layers.as_slice());
        self.look.layer_draw_modes.retain_layers(layers.as_slice());
        self.look.layer_hatch_styles.retain_layers(layers.as_slice());
    }
}

/// Whether the settings are those of the state.
pub open spec fn is_saved_from(config: ViewerConfig, state: ViewerState) -> bool {
    let scenes = state.source.scene_bundle;
    &&& config.layout_path@ == state.layout_path@
    &&& match config.selected_view_name {
        Some(name) => scenes.selection() < scenes.listed().len() && name@
            == scenes.listed()[scenes.selection() as int].name@,
        None => scenes.selection() >= scenes.listed().len(),
    }
    &&& config.camera == (PersistedCamera {
        pan_x: state.viewpoint.camera@.pan.x,
        pan_y: state.viewpoint.camera@.pan.y,
        zoom: state.viewpoint.camera@.zoom,
    })
    &&& config.min_hierarchy_level == Some(state.levels.min_level)
    &&& config.max_hierarchy_level == Some(state.levels.max_level)
    &&& saves_hidden(config.hidden_layers@, state.look.hidden_layers.listed())
    &&& saves_modes(config.layer_draw_modes@, state.look.layer_draw_modes.listed())
    &&& saves_styles(config.layer_hatch_styles@, state.look.layer_hatch_styles.listed())
    &&& saved_settings(config) == state.settings
}

/// Whether these layers are saved, in this order.
pub open spec fn saves_hidden(saved: Seq<PersistedLayerId>, ids: Seq<LayerId>) -> bool {
    &&& saved.len() == ids.len()
    &&& forall|i: int| 0 <= i < ids.len() ==> (#[trigger] saved[i]).runtime() == ids[i]
}

/// Whether these ways of drawing are saved, in this order.
pub open spec fn saves_modes(
    saved: Seq<PersistedLayerDrawMode>,
    entries: Seq<(LayerId, ClosedShapeDrawMode)>,
) -> bool {
    &&& saved.len() == entries.len()
    &&& forall|i: int|
        0 <= i < entries.len() ==> (#[trigger] saved[i]).layer.runtime() == entries[i].0
            && saved[i].mode.runtime() == entries[i].1
}

/// Whether these patterns are saved, in this order.
pub open spec fn saves_styles(
    saved: Seq<PersistedLayerHatchStyle>,
    entries: Seq<(LayerId, HatchStylePreset)>,
) -> bool {
    &&& saved.len() == entries.len()
    &&& forall|i: int|
        0 <= i < entries.len() ==> (#[trigger] saved[i]).layer.runtime() == entries[i].0
            && saved[i].style.runtime() == entries[i].1
}

fn save_hidden(hidden: &LayerSet) -> (saved: Vec<PersistedLayerId>)
    ensures
        saves_hidden(saved@, hidden.listed()),
{
    let ids = hidden.ids();
    let mut saved: Vec<PersistedLayerId> = Vec::new();
    let mut i: usize = 0;
    while i < ids.len()
        invariant
            i <= ids@.len(),
            saved@.len() == i,
            forall|k: int| 0 <= k < i ==> (#[trigger] saved@[k]).runtime() == ids@[k],
        decreases ids@.len() - i,
    {
        saved.push(PersistedLayerId::from_runtime(ids[i]));
        i += 1;
    }
    saved
}

fn save_modes(modes: &LayerMap<ClosedShapeDrawMode>) -> (saved: Vec<PersistedLayerDrawMode>)
    ensures
        saves_modes(saved@, modes.listed()),
{
    let entries = modes.entries();
    let mut saved: Vec<PersistedLayerDrawMode> = Vec::new();
    let mut i: usize = 0;
    while i < entries.len()
        invariant
            i <= entries@.len(),
            saved@.len() == i,
            forall|k: int|
                0 <= k < i ==> (#[trigger] saved@[k]).layer.runtime() == entries@[k].0
                    && saved@[k].mode.runtime() == entries@[k].1,
        decreases entries@.len() - i,
    {
        saved.push(
            PersistedLayerDrawMode {
                layer: PersistedLayerId::from_runtime(entries[i].0),
                mode: PersistedClosedShapeDrawMode::from_runtime(entries[i].1),
            },
        );
        i += 1;
    }
    saved
}

fn save_styles(styles: &LayerMap<HatchStylePreset>) -> (saved: Vec<PersistedLayerHatchStyle>)
    ensures
        saves_styles(saved@, styles.listed()),
{
    let entries = styles.entries();
    let mut saved: Vec<PersistedLayerHatchStyle> = Vec::new();
    let mut i: usize = 0;
    while i < entries.len()
        invariant
            i <= entries@.len(),
            saved@.len() == i,
            forall|k: int|
                0 <= k < i ==> (#[trigger] saved@[k]).layer.runtime() == entries@[k].0
                    && saved@[k].style.runtime() == entries@[k].1,
        decreases entries@.len() - i,
    {
        saved.push(
            PersistedLayerHatchStyle {
                layer: PersistedLayerId::from_runtime(entries[i].0),
                style: PersistedHatchStylePreset::from_runtime(entries[i].1),
            },
        );
        i += 1;
    }
    saved
}

/// The levels that saved settings bring back: those that they name, or, where they name none,
/// those that the layout shows at first.
pub open spec fn restored_levels(
    source: LayoutSource,
    levels: LevelRange,
    config: ViewerConfig,
) -> LevelRange {
    match (config.min_hierarchy_level, config.max_hierarchy_level) {
        (Some(min_level), Some(max_level)) => source::clamped_levels(
            LevelRange { min_level, max_level, deepest: levels.deepest, chosen: true },
        ),
        _ => source::opened_levels(source, levels, true),
    }
}

/// Whether a view of this name is selected after settings with it are restored, where there is
/// one; else the selection stays.
pub open spec fn selects_saved(before: LayoutSource, after: LayoutSource, name: Option<
    String,
>) -> bool {
    let scenes = before.scene_bundle.listed();
    &&& after.scene_bundle.listed() == scenes
    &&& after.layout_bundle is Some <==> before.layout_bundle is Some
    &&& after.layout_bundle matches Some(layout) ==> {
        &&& layout.listed() == before.layout_bundle->0.listed()
        &&& layout.view_list() == before.layout_bundle->0.view_list()
    }
    &&& if name is Some && exists|i: int|
        0 <= i < scenes.len() && persistence::is_named(#[trigger] scenes[i], name->0@) {
        let at = after.scene_bundle.selection();
        &&& at < scenes.len()
        &&& persistence::is_named(scenes[at as int], name->0@)
        &&& forall|k: int|
            0 <= k < at ==> !persistence::is_named(#[trigger] scenes[k], name->0@)
        &&& after.layout_bundle matches Some(layout) ==> layout.selection() == (if at
            < layout.view_list().len() {
            at
        } else {
            before.layout_bundle->0.selection()
        })
    } else {
        &&& after.scene_bundle.selection() == before.scene_bundle.selection()
        &&& after.layout_bundle matches Some(layout) ==> layout.selection()
            == before.layout_bundle->0.selection()
    }
}

/// Whether the renderer is told of what is shown, as it is seen from here.
pub open spec fn is_shown_from(
    state: ViewerState,
    viewpoint: Viewpoint,
    update: RendererUpdate,
    rules: ViewerRules,
) -> bool {
    &&& state.shown@ == source::shown_of(state.source, state.levels, viewpoint, rules)
    &&& update == source::renderer_update(state.source, state.levels, viewpoint, state.shown@)
}

/// Whether the state after is that before with saved settings restored.
///
/// The settings of layers are those saved for layers that the restored view shows before the
/// camera is set; then the camera is set and the scene is built once more.
pub open spec fn is_restored(
    before: ViewerState,
    after: ViewerState,
    config: ViewerConfig,
    update: RendererUpdate,
    rules: ViewerRules,
) -> bool {
    let first = source::shown_of(after.source, after.levels, before.viewpoint, rules).layer_ids;
    &&& selects_saved(before.source, after.source, config.selected_view_name)
    &&& after.levels == source::clamped_levels(
        restored_levels(
            after.source,
            LevelRange { deepest: source::source_depth(after.source) as u32, ..before.levels },
            config,
        ),
    )
    &&& after.viewpoint.camera@ == (CameraModel {
        pan: Point { x: config.camera.pan_x, y: config.camera.pan_y },
        zoom: camera::clamped_zoom(config.camera.zoom),
    })
    &&& after.viewpoint.canvas_size == before.viewpoint.canvas_size
    &&& after.viewpoint.initialized
    &&& is_shown_from(after, after.viewpoint, update, rules)
    &&& after.look@ == (LookModel {
        hidden_layers: persistence::still_hidden(config.hidden_layers@, first),
        layer_draw_modes: persistence::still_drawn(config.layer_draw_modes@, first),
        layer_hatch_styles: app::with_default_styles(
            app::with_default_styles(
                persistence::still_hatched(config.layer_hatch_styles@, first),
                first,
            ),
            after.shown@.layer_ids,
        ),
    })
    &&& after == (ViewerState {
        source: after.source,
        shown: after.shown,
        levels: after.levels,
        look: after.look,
        viewpoint: after.viewpoint,
        ..before
    })
}

impl ViewerState {
    /// The settings that are saved.
    pub fn collect_viewer_config(&self) -> (config: ViewerConfig)
        ensures
            is_saved_from(config, *self),
    {
        ViewerConfig {
            layout_path: self.layout_path.clone(),
            selected_view_name: match self.source.scene_bundle.current_view() {
                Some(view) => Some(view.name.clone()),
                None => None,
            },
            camera: PersistedCamera {
                pan_x: self.viewpoint.camera.pan().x,
                pan_y: self.viewpoint.camera.pan().y,
                zoom: self.viewpoint.camera.zoom(),
            },
            min_hierarchy_level: Some(self.levels.min_level),
            max_hierarchy_level: Some(self.levels.max_level),
            hidden_layers: save_hidden(&self.look.hidden_layers),
            layer_draw_modes: save_modes(&self.look.layer_draw_modes),
            layer_hatch_styles: save_styles(&self.look.layer_hatch_styles),
            draw_mode: PersistedClosedShapeDrawMode::from_runtime(self.settings.draw_mode),
            hatch_spacing: self.settings.hatch_params.spacing,
            hatch_width: self.settings.hatch_params.width,
            tile_grid_divisions: self.settings.tile_grid_divisions,
            tile_cache_capacity: self.settings.tile_cache_capacity,
            progressive_bypass_threshold: self.settings.progressive_bypass_threshold,
            layer_bypass_entry_threshold: self.settings.layer_bypass_entry_threshold,
            layer_bypass_work_threshold: self.settings.layer_bypass_work_threshold,
        }
    }

    /// The saved settings, once, where they are those of the layout that is open.
    pub fn take_matching_restore_config(&mut self) -> (config: Option<ViewerConfig>)
        ensures
            ({
                let saved = old(self).pending_restore_config;
                if saved is Some && saved->0.layout_path@ == old(self).layout_path@ {
                    config == saved && *final(self) == (ViewerState {
                        pending_restore_config: None,
                        ..*old(self)
                    })
                } else {
                    config is None && *final(self) == *old(self)
                }
            }),
    {
        let matching = match &self.pending_restore_config {
            Some(config) => config.layout_path == self.layout_path,
            None => false,
        };
        if matching {
            let mut taken: Option<ViewerConfig> = None;
            std::mem::swap(&mut taken, &mut self.pending_restore_config);
            taken
        } else {
            None
        }
    }

    /// Restores saved settings of the layout that is open.
    pub fn apply_persisted_scene_config<
        W: Fn(LayoutCellId, &Vec<PlacementStep>, Bounds) -> Bounds,
        B: Fn(LayoutCellId, &Vec<PlacementStep>, LayoutCellId, usize) -> Bounds,
        S: Fn(Bounds, SubtreeScreenLod) -> bool,
        P: Fn(LayoutCellId, Option<SubtreeScreenLod>, &ViewShape) -> PlacedOutline,
        V: Fn(Camera2D, Point) -> Sight,
        D: Fn(i32, i32) -> bool,
    >(&mut self, config: &ViewerConfig, math: &ViewerMath<W, B, S, P, V, D>) -> (update:
        RendererUpdate)
        requires
            source::is_countable(old(self).source),
            source::can_compute(*math),
        ensures
            source::is_countable(final(self).source),
            final(self).levels.min_level <= final(self).levels.max_level
                <= final(self).levels.deepest,
            forall|rules: ViewerRules| #[trigger]
                source::computes(*math, rules) ==> is_restored(
                    *old(self),
                    *final(self),
                    *config,
                    update,
                    rules,
                ),
    {
        let ghost before = *self;
        let saved_name: Option<&str> = match &config.selected_view_name {
            Some(name) => Some(name.as_str()),
            None => None,
        };
        if let Some(index) = resolve_saved_view_index(&self.source.scene_bundle, saved_name) {
            let _changed = self.source.scene_bundle.select(index);
            if let Some(layout) = self.source.layout_bundle.as_mut() {
                let _changed = layout.select(index);
            }
        }
        self.levels = LevelRange {
            deepest: self.source.available_max_hierarchy_level(),
            ..self.levels
        };
        self.levels = match (config.min_hierarchy_level, config.max_hierarchy_level) {
            (Some(min_level), Some(max_level)) => clamp_levels(
                LevelRange { min_level, max_level, deepest: self.levels.deepest, chosen: true },
            ),
            _ => self.source.initialize_or_clamp_hierarchy_level_range(self.levels, true),
        };
        self.levels = clamp_levels(self.levels);
        let first = rebuild_scene_from_source(&self.source, self.levels, self.viewpoint, math);
        self.look.hidden_layers = filter_hidden_layers_for_layer_ids(
            config,
            first.layer_ids.as_slice(),
        );
        self.look.layer_draw_modes = filter_layer_draw_modes_for_layer_ids(
            config,
            first.layer_ids.as_slice(),
        );
        let mut styles = filter_layer_hatch_styles_for_layer_ids(
            config,
            first.layer_ids.as_slice(),
        );
        fill_missing_layer_hatch_styles_for_layers(first.layer_ids.as_slice(), &mut styles);
        self.look.layer_hatch_styles = styles;
        self.viewpoint.camera.set_state(
            Point { x: config.camera.pan_x, y: config.camera.pan_y },
            config.camera.zoom,
        );
        self.viewpoint.initialized = true;
        let update = self.refresh_filtered_scene_and_renderer(math);
        proof {
            source::law_clamped_levels(
                restored_levels(
                    self.source,
                    LevelRange {
                        deepest: source::source_depth(self.source) as u32,
                        ..before.levels
                    },
                    *config,
                ),
            );
        }
        update
    }
}

} // verus!
