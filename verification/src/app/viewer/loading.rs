//! Opening files and views.

use crate::app;
use crate::app::source;
use crate::app::source::{
    placeholder_scene_bundle_from_layout_bundle, LayoutSource, LevelRange, RendererUpdate, Sight,
    ViewerMath, ViewerRules, Viewpoint,
};
use crate::app::viewer;
use crate::app::viewer::{empty_look, empty_shown, Interaction, LookModel, ViewerState};
use crate::app::LoadState;
use crate::camera::Camera2D;
use crate::error::AppError;
use crate::hierarchy;
use crate::io;
use crate::io::{format_of_extension, LayoutFormat};
use crate::layers::LayerSet;
use crate::layout::{LayoutBundle, LayoutCellId};
use crate::scene;
use crate::scene::{Bounds, PlacedOutline, Point, SceneBundle};
use crate::view_builder::{PlacementStep, SubtreeScreenLod, ViewShape};
use vstd::prelude::*;

verus! {

/// What was read from a file.
#[derive(Debug)]
pub enum Loaded {
    /// A layout that is not flattened.
    Layout(LayoutBundle),
    /// Flattened views.
    Flat(SceneBundle),
    /// Nothing, for this reason.
    Failed(AppError),
}

/// Whether a file is read without being flattened: where its extension tells that it is a GDSII
/// file.
pub fn reads_hierarchy(extension: Option<&str>) -> (hierarchical: bool)
    ensures
        hierarchical == (io::format_of(
            match extension {
                Some(text) => Some(text@),
                None => None,
            },
        ) == Some(LayoutFormat::Gds)),
{
    match format_of_extension(extension) {
        Some(LayoutFormat::Gds) => true,
        _ => false,
    }
}

/// Whether what a layout holds can be counted.
pub open spec fn can_count(loaded: Loaded) -> bool {
    loaded matches Loaded::Layout(bundle) ==> hierarchy::countable(bundle)
        && bundle.listed().len() < u32::MAX
}

/// Whether the scenes are empty and called as the views of the layout, the same one selected.
pub open spec fn stands_for(scenes: SceneBundle, layout: LayoutBundle) -> bool {
    &&& scenes.listed().len() == layout.view_list().len()
    &&& forall|i: int|
        0 <= i < scenes.listed().len() ==> (#[trigger] scenes.listed()[i]).name@
            == layout.view_list()[i].about().name_chars() && scenes.listed()[i].scene@ == Seq::<
            scene::ShapeModel,
        >::empty()
    &&& scenes.selection() == (if layout.selection() < layout.view_list().len() {
        layout.selection()
    } else {
        0
    })
}

/// Whether what was read is open.
pub open spec fn opens(source: LayoutSource, loaded: Loaded) -> bool {
    match loaded {
        Loaded::Layout(bundle) => source.layout_bundle == Some(bundle) && stands_for(
            source.scene_bundle,
            bundle,
        ),
        Loaded::Flat(bundle) => source.layout_bundle is None && source.scene_bundle == bundle,
        Loaded::Failed(_) => false,
    }
}

/// Whether the state after is that before with what was read opened, and nothing built yet.
pub open spec fn has_opened(before: ViewerState, after: ViewerState, loaded: Loaded) -> bool {
    &&& opens(after.source, loaded)
    &&& after == (ViewerState {
        source: after.source,
        load_state: LoadState::Loaded,
        levels: LevelRange {
            deepest: source::source_depth(after.source) as u32,
            ..before.levels
        },
        ..before
    })
}

/// Whether the state after is that before with a newly opened layout shown: nothing is special
/// about any layer, and the camera is yet to be set.
pub open spec fn is_started(
    before: ViewerState,
    after: ViewerState,
    update: RendererUpdate,
    rules: ViewerRules,
) -> bool {
    &&& after.levels == source::clamped_levels(
        source::opened_levels(before.source, before.levels, false),
    )
    &&& viewer::is_shown_from(after, before.viewpoint, update, rules)
    &&& after.look@ == (LookModel {
        layer_hatch_styles: app::with_default_styles(Map::empty(), after.shown@.layer_ids),
        ..viewer::plain_look()
    })
    &&& after == (ViewerState {
        shown: after.shown,
        levels: after.levels,
        look: after.look,
        viewpoint: Viewpoint { initialized: false, ..before.viewpoint },
        interaction: Interaction { rebuild_pending: false, ..before.interaction },
        ..before
    })
}

/// The saved settings that are restored with the layout: those that were saved for it.
pub open spec fn restorable(state: ViewerState) -> bool {
    state.pending_restore_config is Some && state.pending_restore_config->0.layout_path@
        == state.layout_path@
}

/// Whether the state after is that before with what was read opened and shown, its saved settings
/// restored where there are any.
pub open spec fn is_loaded(
    before: ViewerState,
    after: ViewerState,
    loaded: Loaded,
    update: RendererUpdate,
    rules: ViewerRules,
) -> bool {
    exists|opened: ViewerState|
        #![trigger has_opened(before, opened, loaded)]
        has_opened(before, opened, loaded) && if restorable(before) {
            viewer::is_restored(
                ViewerState { pending_restore_config: None, ..opened },
                after,
                before.pending_restore_config->0,
                update,
                rules,
            )
        } else {
            is_started(opened, after, update, rules)
        }
}

/// Whether the state after is that before with nothing open, for this reason.
pub open spec fn has_failed(before: ViewerState, after: ViewerState, error: AppError) -> bool {
    &&& viewer::nothing_open(after)
    &&& after.load_state matches LoadState::Failed(message) && message@ == error.text()
    &&& after.settings == before.settings
    &&& after.viewpoint == (Viewpoint { initialized: false, ..before.viewpoint })
    &&& after.interaction == (Interaction { rebuild_pending: false, ..before.interaction })
    &&& after.layout_path == before.layout_path
    &&& after.pending_restore_config == before.pending_restore_config
}

/// Whether the state after is that before with the selected view opened: no layer is hidden, the
/// camera is yet to be set, and the levels stay as they are where there are such.
pub open spec fn is_switched(
    before: ViewerState,
    after: ViewerState,
    update: RendererUpdate,
    rules: ViewerRules,
) -> bool {
    &&& after.levels == source::clamped_levels(
        source::opened_levels(
            before.source,
            LevelRange {
                deepest: source::source_depth(before.source) as u32,
                ..before.levels
            },
            false,
        ),
    )
    &&& viewer::is_shown_from(after, after.viewpoint, update, rules)
    &&& after.look@ == (LookModel {
        hidden_layers: Set::empty(),
        layer_draw_modes: before.look@.layer_draw_modes,
        layer_hatch_styles: app::with_default_styles(
            before.look@.layer_hatch_styles,
            after.shown@.layer_ids,
        ),
    })
    &&& after == (ViewerState {
        shown: after.shown,
        levels: after.levels,
        look: after.look,
        viewpoint: Viewpoint { initialized: false, ..before.viewpoint },
        interaction: Interaction { rebuild_pending: false, ..before.interaction },
        ..before
    })
}

/// What has become of a switch to another view.
#[derive(Debug, Clone, Copy, PartialEq, Eq, Structural)]
pub enum ViewSwitch {
    /// There is no such view, or it is selected already.
    Unchanged,
    /// The view is shown.
    Shown(RendererUpdate),
    /// The view is selected; its scene is to be read from the file again.
    Reload,
}

/// Whether the source is the same with another view selected.
pub open spec fn selects(before: LayoutSource, after: LayoutSource, index: usize) -> bool {
    &&& after.scene_bundle.listed() == before.scene_bundle.listed()
    &&& after.scene_bundle.selection() == index
    &&& after.layout_bundle is Some <==> before.layout_bundle is Some
    &&& after.layout_bundle matches Some(layout) ==> {
        &&& layout.listed() == before.layout_bundle->0.listed()
        &&& layout.view_list() == before.layout_bundle->0.view_list()
        &&& layout.selection() == (if index < layout.view_list().len() {
            index
        } else {
            before.layout_bundle->0.selection()
        })
    }
}

impl ViewerState {
    /// Opens what was read from the file and tells how the renderer takes it over.
    pub fn finish_load<
        W: Fn(LayoutCellId, &Vec<PlacementStep>, Bounds) -> Bounds,
        B: Fn(LayoutCellId, &Vec<PlacementStep>, LayoutCellId, usize) -> Bounds,
        S: Fn(Bounds, SubtreeScreenLod) -> bool,
        P: Fn(LayoutCellId, Option<SubtreeScreenLod>, &ViewShape) -> PlacedOutline,
        V: Fn(Camera2D, Point) -> Sight,
        D: Fn(i32, i32) -> bool,
    >(&mut self, loaded: Loaded, math: &ViewerMath<W, B, S, P, V, D>) -> (update: RendererUpdate)
        requires
            can_count(loaded),
            source::can_compute(*math),
        ensures
            source::is_countable(final(self).source),
            final(self).levels.min_level <= final(self).levels.max_level
                <= final(self).levels.deepest,
            match loaded {
                Loaded::Failed(error) => update == RendererUpdate::Scene && has_failed(
                    *old(self),
                    *final(self),
                    error,
                ),
                _ => forall|rules: ViewerRules| #[trigger]
                    source::computes(*math, rules) ==> is_loaded(
                        *old(self),
                        *final(self),
                        loaded,
                        update,
                        rules,
                    ),
            },
    {
        match loaded {
            Loaded::Layout(layout_bundle) => {
                let scene_bundle = placeholder_scene_bundle_from_layout_bundle(&layout_bundle);
                self.source = LayoutSource { scene_bundle, layout_bundle: Some(layout_bundle) };
            },
            Loaded::Flat(scene_bundle) => {
                self.source = LayoutSource { scene_bundle, layout_bundle: None };
            },
            Loaded::Failed(error) => {
                self.source = LayoutSource {
                    scene_bundle: SceneBundle::empty(),
                    layout_bundle: None,
                };
                self.shown = empty_shown();
                self.load_state = LoadState::Failed(error.message());
                self.look = empty_look();
                self.levels = LevelRange { min_level: 0, max_level: 0, deepest: 0, chosen: false };
                self.viewpoint.initialized = false;
                self.interaction.rebuild_pending = false;
                return RendererUpdate::Scene;
            },
        }
        self.load_state = LoadState::Loaded;
        self.levels = LevelRange {
            deepest: self.source.available_max_hierarchy_level(),
            ..self.levels
        };
        let ghost opened = *self;
        assert(has_opened(*old(self), opened, loaded));
        match self.take_matching_restore_config() {
            Some(config) => {
                let update = self.apply_persisted_scene_config(&config, math);
                assert(restorable(*old(self)));
                update
            },
            None => {
                self.look = empty_look();
                self.interaction.rebuild_pending = false;
                self.levels = self.source.initialize_or_clamp_hierarchy_level_range(
                    self.levels,
                    !self.levels.chosen,
                );
                let update = self.refresh_filtered_scene_and_renderer(math);
                self.viewpoint.initialized = false;
                proof {
                    assert forall|rules: ViewerRules| #[trigger]
                        source::computes(*math, rules) implies is_loaded(
                        *old(self),
                        *self,
                        loaded,
                        update,
                        rules,
                    ) by {
                        assert(is_started(opened, *self, update, rules));
                    }
                }
                update
            },
        }
    }

    /// Shows the selected view.
    fn open_selected_view<
        W: Fn(LayoutCellId, &Vec<PlacementStep>, Bounds) -> Bounds,
        B: Fn(LayoutCellId, &Vec<PlacementStep>, LayoutCellId, usize) -> Bounds,
        S: Fn(Bounds, SubtreeScreenLod) -> bool,
        P: Fn(LayoutCellId, Option<SubtreeScreenLod>, &ViewShape) -> PlacedOutline,
        V: Fn(Camera2D, Point) -> Sight,
        D: Fn(i32, i32) -> bool,
    >(&mut self, math: &ViewerMath<W, B, S, P, V, D>) -> (update: RendererUpdate)
        requires
            source::is_countable(old(self).source),
            source::can_compute(*math),
        ensures
            final(self).source == old(self).source,
            final(self).levels.min_level <= final(self).levels.max_level
                <= final(self).levels.deepest,
            forall|rules: ViewerRules| #[trigger]
                source::computes(*math, rules) ==> is_switched(
                    *old(self),
                    *final(self),
                    update,
                    rules,
                ),
    {
        self.levels = LevelRange {
            deepest: self.source.available_max_hierarchy_level(),
            ..self.levels
        };
        self.look.hidden_layers = LayerSet::new();
        self.levels = self.source.initialize_or_clamp_hierarchy_level_range(self.levels, false);
        self.viewpoint.initialized = false;
        self.interaction.rebuild_pending = false;
        self.refresh_filtered_scene_and_renderer(math)
    }

    /// Switches to another view. A layout that is not flattened is shown at once; the scene of a
    /// flattened file is read again first.
    pub fn select_scene_view<
        W: Fn(LayoutCellId, &Vec<PlacementStep>, Bounds) -> Bounds,
        B: Fn(LayoutCellId, &Vec<PlacementStep>, LayoutCellId, usize) -> Bounds,
        S: Fn(Bounds, SubtreeScreenLod) -> bool,
        P: Fn(LayoutCellId, Option<SubtreeScreenLod>, &ViewShape) -> PlacedOutline,
        V: Fn(Camera2D, Point) -> Sight,
        D: Fn(i32, i32) -> bool,
    >(&mut self, index: usize, math: &ViewerMath<W, B, S, P, V, D>) -> (switch: ViewSwitch)
        requires
            source::is_countable(old(self).source),
            source::can_compute(*math),
        ensures
            source::is_countable(final(self).source),
            ({
                let scenes = old(self).source.scene_bundle;
                if index == scenes.selection() || index >= scenes.listed().len() {
                    switch == ViewSwitch::Unchanged && *final(self) == *old(self)
                } else if old(self).source.layout_bundle is None {
                    &&& switch == ViewSwitch::Reload
                    &&& selects(old(self).source, final(self).source, index)
                    &&& *final(self) == (ViewerState {
                        source: final(self).source,
                        ..*old(self)
                    })
                } else {
                    &&& switch is Shown
                    &&& selects(old(self).source, final(self).source, index)
                    &&& forall|rules: ViewerRules| #[trigger]
                        source::computes(*math, rules) ==> is_switched(
                            ViewerState { source: final(self).source, ..*old(self) },
                            *final(self),
                            switch->Shown_0,
                            rules,
                        )
                }
            }),
    {
        if index == self.source.scene_bundle.selected_index() {
            return ViewSwitch::Unchanged;
        }
        if index >= self.source.scene_bundle.views().len() {
            return ViewSwitch::Unchanged;
        }
        let _changed = self.source.scene_bundle.select(index);
        match self.source.layout_bundle.as_mut() {
            Some(layout) => {
                let _changed = layout.select(index);
            },
            None => {
                return ViewSwitch::Reload;
            },
        }
        let ghost selected = *self;
        let update = self.open_selected_view(math);
        assert(selected == (ViewerState { source: self.source, ..*old(self) }));
        ViewSwitch::Shown(update)
    }

    /// Shows a view of a flattened file that was read again, where it was read and has such a
    /// view.
    pub fn finish_select_scene_view<
        W: Fn(LayoutCellId, &Vec<PlacementStep>, Bounds) -> Bounds,
        B: Fn(LayoutCellId, &Vec<PlacementStep>, LayoutCellId, usize) -> Bounds,
        S: Fn(Bounds, SubtreeScreenLod) -> bool,
        P: Fn(LayoutCellId, Option<SubtreeScreenLod>, &ViewShape) -> PlacedOutline,
        V: Fn(Camera2D, Point) -> Sight,
        D: Fn(i32, i32) -> bool,
    >(
        &mut self,
        index: usize,
        reloaded: Option<SceneBundle>,
        math: &ViewerMath<W, B, S, P, V, D>,
    ) -> (update: Option<RendererUpdate>)
        requires
            source::is_countable(old(self).source),
            source::can_compute(*math),
        ensures
            source::is_countable(final(self).source),
            match reloaded {
                Some(bundle) => if index < bundle.listed().len() {
                    &&& update is Some
                    &&& final(self).source.scene_bundle.listed() == bundle.listed()
                    &&& final(self).source.scene_bundle.selection() == index
                    &&& final(self).source.layout_bundle == old(self).source.layout_bundle
                    &&& forall|rules: ViewerRules| #[trigger]
                        source::computes(*math, rules) ==> is_switched(
                            ViewerState { source: final(self).source, ..*old(self) },
                            *final(self),
                            update->0,
                            rules,
                        )
                } else {
                    update is None && *final(self) == *old(self)
                },
                None => update is None && *final(self) == *old(self),
            },
    {
        match reloaded {
            Some(bundle) => {
                let mut selected = bundle;
                if index >= selected.views().len() {
                    return None;
                }
                let _changed = selected.select(index);
                self.source.scene_bundle = selected;
                let ghost opened = *self;
                let update = self.open_selected_view(math);
                assert(opened == (ViewerState { source: self.source, ..*old(self) }));
                Some(update)
            },
            None => None,
        }
    }
}

} // verus!
