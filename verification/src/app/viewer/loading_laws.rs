//! What holds of a viewer after a file was read, or a view selected.

use crate::app;
use crate::app::source;
use crate::app::source::{LayoutSource, RendererUpdate, ViewerRules};
use crate::app::viewer;
use crate::app::viewer::loading;
use crate::app::viewer::loading::Loaded;
use crate::app::viewer::ViewerState;
use crate::app::LoadState;
use crate::error::AppError;
use crate::scene::LayerId;
use vstd::prelude::*;

verus! {

/// After a file was read it is open: a layout with a scene for each of its views, called as the
/// view and yet empty, or the scenes of a flat file. The state says so; how things are drawn and
/// the name of the file stay, and the levels that are shown are levels that there are.
pub proof fn law_read_files_are_open(
    before: ViewerState,
    after: ViewerState,
    loaded: Loaded,
    update: RendererUpdate,
    rules: ViewerRules,
    i: int,
)
    requires
        loading::is_loaded(before, after, loaded, update, rules),
    ensures
        after.load_state == LoadState::Loaded,
        after.settings == before.settings,
        after.layout_path == before.layout_path,
        after.levels.min_level <= after.levels.max_level <= after.levels.deepest,
        loaded matches Loaded::Flat(bundle) ==> after.source.layout_bundle is None
            && after.source.scene_bundle.listed() == bundle.listed(),
        loaded matches Loaded::Layout(bundle) ==> {
            let scenes = after.source.scene_bundle.listed();
            &&& after.source.layout_bundle matches Some(open) && open.listed() == bundle.listed()
                && open.view_list() == bundle.view_list()
            &&& scenes.len() == bundle.view_list().len()
            &&& 0 <= i < scenes.len() ==> scenes[i].name@
                == bundle.view_list()[i].about().name_chars() && scenes[i].scene@.len() == 0
        },
{
    let opened = choose|opened: ViewerState|
        #![trigger loading::has_opened(before, opened, loaded)]
        loading::has_opened(before, opened, loaded) && if loading::restorable(before) {
            viewer::is_restored(
                ViewerState { pending_restore_config: None, ..opened },
                after,
                before.pending_restore_config->0,
                update,
                rules,
            )
        } else {
            loading::is_started(opened, after, update, rules)
        };
    assert(loading::opens(opened.source, loaded));
    source::law_clamped_levels(after.levels);
}

/// A file that is opened without saved settings hides no layer and gives each listed one a pattern;
/// its camera is yet to be set, nothing waits to be built anew, and it is shown as it is seen.
pub proof fn law_new_files_hide_nothing(
    before: ViewerState,
    after: ViewerState,
    update: RendererUpdate,
    rules: ViewerRules,
    layer: LayerId,
)
    requires
        loading::is_started(before, after, update, rules),
    ensures
        !after.look@.hidden_layers.contains(layer),
        !after.look@.layer_draw_modes.dom().contains(layer),
        after.look@.layer_hatch_styles.dom().contains(layer) <==> after.shown@.layer_ids.contains(
            layer,
        ),
        !after.viewpoint.initialized,
        after.viewpoint.camera == before.viewpoint.camera,
        after.viewpoint.canvas_size == before.viewpoint.canvas_size,
        !after.interaction.rebuild_pending,
        after.source == before.source,
        after.settings == before.settings,
        after.levels.min_level <= after.levels.max_level <= after.levels.deepest,
        after.levels.deepest == before.levels.deepest,
        after.shown@ == source::shown_of(after.source, after.levels, before.viewpoint, rules),
{
    app::law_default_styles_go_by_place(Map::empty(), after.shown@.layer_ids, layer);
}

/// Settings are restored just where they were saved for the file that is opened.
pub proof fn law_settings_belong_to_a_file(state: ViewerState)
    ensures
        loading::restorable(state) <==> (state.pending_restore_config matches Some(config)
            && config.layout_path@ == state.layout_path@),
{
}

/// After a failure nothing is open or shown and no layer is special; what is said of it is the
/// error, and how things are drawn stays.
pub proof fn law_failures_leave_nothing_open(
    before: ViewerState,
    after: ViewerState,
    error: AppError,
    layer: LayerId,
)
    requires
        loading::has_failed(before, after, error),
    ensures
        after.source.layout_bundle is None,
        after.source.scene_bundle.listed().len() == 0,
        after.shown@.scene.len() == 0,
        !after.shown@.tile_render_active,
        after.shown@.covered_bounds is None,
        !after.look@.hidden_layers.contains(layer),
        !after.look@.layer_draw_modes.dom().contains(layer),
        !after.look@.layer_hatch_styles.dom().contains(layer),
        !after.viewpoint.initialized,
        !after.levels.chosen,
        after.levels.min_level == 0 && after.levels.max_level == 0 && after.levels.deepest == 0,
        after.settings == before.settings,
        after.layout_path == before.layout_path,
        after.load_state matches LoadState::Failed(message) && message@ == error.text(),
{
}

/// After another view was selected no layer is hidden, ways of drawing and patterns stay, and each
/// listed layer has a pattern; the camera is yet to be set, and the levels are those that were
/// chosen as far as the view has them.
pub proof fn law_selected_views_hide_nothing(
    before: ViewerState,
    after: ViewerState,
    update: RendererUpdate,
    rules: ViewerRules,
    layer: LayerId,
)
    requires
        loading::is_switched(before, after, update, rules),
    ensures
        !after.look@.hidden_layers.contains(layer),
        after.look@.layer_draw_modes == before.look@.layer_draw_modes,
        before.look@.layer_hatch_styles.dom().contains(layer)
            ==> after.look@.layer_hatch_styles.dom().contains(layer)
            && after.look@.layer_hatch_styles[layer] == before.look@.layer_hatch_styles[layer],
        after.shown@.layer_ids.contains(layer) ==> after.look@.layer_hatch_styles.dom().contains(
            layer,
        ),
        !after.viewpoint.initialized,
        after.settings == before.settings,
        after.source == before.source,
        ({
            let deepest = source::source_depth(before.source) as u32;
            &&& after.levels.deepest == deepest
            &&& after.levels.min_level <= after.levels.max_level <= deepest
            &&& before.levels.chosen && before.levels.min_level <= before.levels.max_level
                <= deepest ==> after.levels.min_level == before.levels.min_level
                && after.levels.max_level == before.levels.max_level
        }),
{
    app::law_default_styles_go_by_place(
        before.look@.layer_hatch_styles,
        after.shown@.layer_ids,
        layer,
    );
}

/// Selecting a view changes the selection and nothing else of what is open; a layout that has the
/// view selects it too.
pub proof fn law_selecting_changes_the_selection(
    before: LayoutSource,
    after: LayoutSource,
    index: usize,
)
    requires
        loading::selects(before, after, index),
    ensures
        after.scene_bundle.selection() == index,
        after.scene_bundle.listed() == before.scene_bundle.listed(),
        before.layout_bundle is None ==> after.layout_bundle is None,
        before.layout_bundle matches Some(layout) ==> {
            &&& after.layout_bundle matches Some(open) && open.listed() == layout.listed()
                && open.view_list() == layout.view_list()
            &&& index < layout.view_list().len() ==> after.layout_bundle->0.selection() == index
            &&& index >= layout.view_list().len() ==> after.layout_bundle->0.selection()
                == layout.selection()
        },
{
}

/// Building a scene anew changes what is shown, the levels where there are fewer, and patterns that
/// layers lack, and nothing else.
pub proof fn law_building_anew_keeps_the_rest(
    before: ViewerState,
    after: ViewerState,
    rules: ViewerRules,
    layer: LayerId,
)
    requires
        viewer::is_refreshed(before, after, rules),
    ensures
        after.source == before.source,
        after.settings == before.settings,
        after.viewpoint == before.viewpoint,
        after.interaction == before.interaction,
        after.load_state == before.load_state,
        after.look@.hidden_layers == before.look@.hidden_layers,
        after.look@.layer_draw_modes == before.look@.layer_draw_modes,
        before.look@.layer_hatch_styles.dom().contains(layer)
            ==> after.look@.layer_hatch_styles[layer] == before.look@.layer_hatch_styles[layer],
        after.levels.min_level <= after.levels.max_level <= after.levels.deepest,
        before.levels.min_level <= before.levels.max_level <= before.levels.deepest
            ==> after.levels == before.levels,
        after.shown@ == source::shown_of(after.source, after.levels, after.viewpoint, rules),
{
    app::law_default_styles_go_by_place(
        before.look@.layer_hatch_styles,
        after.shown@.layer_ids,
        layer,
    );
}

/// The deepest level of a source is that of its layout from the start of the selected view, or
/// that of the selected scene.
pub proof fn law_depth_of_a_source(source: LayoutSource)
    ensures
        source.layout_bundle is None ==> source::source_depth(source)
            == crate::scene::deepest_level(source::selected_scene(source)),
        source.layout_bundle matches Some(bundle) ==> (match source::selected_root(bundle) {
            Some(root) => source::source_depth(source) == crate::hierarchy::depth_below(
                bundle,
                root,
                Map::empty(),
                Set::empty(),
            ).0,
            None => source::source_depth(source) == 0,
        }),
{
}

/// Saved settings come back one by one.
pub proof fn law_saved_settings(config: crate::persistence::ViewerConfig)
    ensures
        ({
            let settings = viewer::saved_settings(config);
            &&& settings.tile_grid_divisions == config.tile_grid_divisions
            &&& settings.draw_mode == config.draw_mode.runtime()
            &&& settings.hatch_params.spacing == config.hatch_spacing
            &&& settings.hatch_params.width == config.hatch_width
            &&& settings.tile_cache_capacity == config.tile_cache_capacity
            &&& settings.progressive_bypass_threshold == config.progressive_bypass_threshold
            &&& settings.layer_bypass_entry_threshold == config.layer_bypass_entry_threshold
            &&& settings.layer_bypass_work_threshold == config.layer_bypass_work_threshold
        }),
{
}

} // verus!
