//! What holds of what is shown of a layout, and of what is done about wishes.

use crate::app;
use crate::app::source;
use crate::app::source::{
    LayoutSource, LevelRange, RendererUpdate, ShownModel, ViewerRules, Viewpoint,
};
use crate::app::viewer;
use crate::app::viewer::actions;
use crate::app::viewer::actions::UiStep;
use crate::app::viewer::{LookModel, RendererCommand, ViewerSettings, ViewerState};
use crate::coords;
use crate::hierarchy;
use crate::hierarchy_laws;
use crate::layers;
use crate::layout::{LayoutBundle, LayoutCellId};
use crate::renderer::geometry::{ClosedShapeDrawMode, HatchStylePreset};
use crate::scene;
use crate::scene::{Bounds, LayerId, Point, SceneBundle, ShapeModel};
use crate::seqs;
use crate::ui::UiAction;
use crate::view_builder::{LayoutViewBuildOptions, PlacementStep, ViewShapeModel};
use crate::workset;
use vstd::prelude::*;

verus! {

/// A range is brought within the levels that there are: an end that lies deeper becomes the deepest
/// level, and the last is no higher than the first.
pub proof fn law_ranges_are_brought_within(levels: LevelRange)
    ensures
        ({
            let after = source::clamped_levels(levels);
            &&& after.min_level <= after.max_level <= levels.deepest
            &&& after.deepest == levels.deepest
            &&& after.chosen == levels.chosen
            &&& levels.min_level <= levels.deepest ==> after.min_level == levels.min_level
            &&& levels.min_level > levels.deepest ==> after.min_level == levels.deepest
            &&& levels.max_level > levels.deepest ==> after.max_level == levels.deepest
            &&& after.min_level <= levels.max_level <= levels.deepest ==> after.max_level
                == levels.max_level
            &&& levels.max_level < after.min_level ==> after.max_level == after.min_level
        }),
{
}

/// A view that is opened keeps the levels that were chosen, as far as there are such; where none
/// were, or where that is asked for, it shows its first levels from the top.
pub proof fn law_levels_of_an_opened_view(
    source: LayoutSource,
    levels: LevelRange,
    recompute_defaults: bool,
)
    ensures
        ({
            let after = source::opened_levels(source, levels, recompute_defaults);
            let anew = recompute_defaults || !levels.chosen;
            &&& after.chosen
            &&& after.deepest == levels.deepest
            &&& anew ==> after.min_level == 0 && after.max_level
                == source::source_first_max_level(source, levels.deepest) as u32
            &&& !anew && levels.min_level <= levels.max_level <= levels.deepest ==> after == levels
            &&& !anew ==> after.min_level <= after.max_level <= levels.deepest
        }),
{
}

/// The first levels of a layout end with the last one that its budget allows, or with its deepest
/// one; those of a scene are those of a scene. Without a selected view there is nothing to hold
/// back.
pub proof fn law_first_levels_of_a_source(source: LayoutSource, deepest: u32, root: LayoutCellId)
    ensures
        ({
            let last = source::source_first_max_level(source, deepest);
            &&& source.layout_bundle is None ==> last == app::first_max_level(
                source::selected_scene(source),
            )
            &&& source.layout_bundle matches Some(bundle) ==> {
                let levels = hierarchy::level_costs(bundle, root);
                &&& source::selected_root(bundle) is None ==> last == deepest
                &&& source::selected_root(bundle) == Some(root) ==> {
                    &&& last <= deepest
                    &&& levels.len() > 0 ==> last <= hierarchy::affordable_level(levels)
                    &&& last < deepest ==> levels.len() > 0 && last
                        == hierarchy::affordable_level(levels)
                }
            }
        }),
{
}

/// What is selected: the view at the selected place, where there is one, and else nothing.
pub proof fn law_what_is_selected(source: LayoutSource, bundle: LayoutBundle)
    ensures
        ({
            let scenes = source.scene_bundle.listed();
            let at = source.scene_bundle.selection() as int;
            &&& at < scenes.len() ==> source::selected_scene(source) == scenes[at].scene@
            &&& at >= scenes.len() ==> source::selected_scene(source).len() == 0
        }),
        ({
            let views = bundle.view_list();
            let at = bundle.selection() as int;
            &&& source::selected_root(bundle) is Some <==> at < views.len()
            &&& at < views.len() ==> source::selected_root(bundle) == Some(views[at].about().root())
        }),
{
}

/// What is seen is known once the camera has been set for a picture with width and height; the zoom
/// from which on cells are entered once the camera has been set.
pub proof fn law_what_is_seen(viewpoint: Viewpoint, rules: ViewerRules)
    ensures
        ({
            let sight = source::layout_sight(viewpoint, rules);
            let has_size = !coords::at_most(viewpoint.canvas_size.x, 0) && !coords::at_most(
                viewpoint.canvas_size.y,
                0,
            );
            let lod = source::layout_lod(viewpoint);
            &&& sight is Some <==> viewpoint.initialized && has_size
            &&& sight matches Some(seen) ==> seen == (rules.sight)(
                viewpoint.camera@,
                viewpoint.canvas_size,
            )
            &&& lod is Some <==> viewpoint.initialized
            &&& lod matches Some(limits) ==> limits.world_to_screen_scale
                == viewpoint.camera@.zoom && limits.min_subtree_screen_extent == 0x4000_0000
                && limits.min_collapse_hierarchy_level == 4
        }),
{
}

/// Of a flattened file the shapes of the selected scene on the levels that are shown are shown, in
/// order, with their layers and the rectangle around them; they serve for every view.
pub proof fn law_flat_files_are_shown(
    source: LayoutSource,
    levels: LevelRange,
    viewpoint: Viewpoint,
    rules: ViewerRules,
    layer: LayerId,
)
    requires
        source.layout_bundle is None,
    ensures
        ({
            let shown = source::shown_of(source, levels, viewpoint, rules);
            &&& seqs::made_in_order(
                source::selected_scene(source),
                shown.scene,
                |shape: ShapeModel|
                    shape.hierarchy_level >= levels.min_level && shape.hierarchy_level
                        <= levels.max_level,
                |shape: ShapeModel, kept: ShapeModel| kept == shape,
            )
            &&& !shown.tile_render_active
            &&& shown.covered_bounds is None && shown.covered_zoom is None
            &&& shown.bounds_hint == scene::union_of(scene::shape_bounds(shown.scene))
            &&& shown.layer_ids.contains(layer) <==> scene::shape_layers(shown.scene).contains(
                layer,
            )
            &&& layers::layers_ascend(shown.layer_ids)
        }),
{
    let base = source::selected_scene(source);
    let kept = scene::on_levels(base, levels.min_level, levels.max_level);
    crate::scene_laws::law_levels_of_a_scene(base, levels.min_level, levels.max_level);
    if levels.min_level == 0 && levels.max_level >= scene::deepest_level(base) {
        scene::law_full_range_keeps_scene(base, levels.max_level);
    }
    lemma_shown_layers(source::shown_of(source, levels, viewpoint, rules).scene, layer);
}

proof fn lemma_shown_layers(shapes: Seq<ShapeModel>, layer: LayerId)
    ensures
        ({
            let ids = layers::ascending(scene::shape_layers(shapes).to_set());
            &&& ids.contains(layer) <==> scene::shape_layers(shapes).contains(layer)
            &&& layers::layers_ascend(ids)
        }),
{
    let all = scene::shape_layers(shapes);
    layers::lemma_ascending_exists(all, Seq::empty());
    assert(all.to_set().difference(Seq::<LayerId>::empty().to_set()) =~= all.to_set());
    let ids = layers::ascending(all.to_set());
    assert(ids.to_set() == all.to_set());
    assert(ids.to_set().contains(layer) <==> all.to_set().contains(layer));
}

/// Of a layout that is not flattened a range of levels that costs too much is not shown as a scene
/// but tile by tile, with the layers of the range and the rectangle of the start; a smaller one is
/// shown as the scene of a view of what is seen, with the margin, from the start of the selected
/// view.
pub proof fn law_layouts_are_shown(
    source: LayoutSource,
    levels: LevelRange,
    viewpoint: Viewpoint,
    rules: ViewerRules,
    bundle: LayoutBundle,
    root: LayoutCellId,
    options: LayoutViewBuildOptions,
)
    requires
        source.layout_bundle == Some(bundle),
        source::selected_root(bundle) == Some(root),
        options.root_cell_id == root,
        options.min_hierarchy_level == levels.min_level,
        options.max_hierarchy_level == levels.max_level,
        options.visible_world_bounds == (match source::layout_sight(viewpoint, rules) {
            Some(sight) => Some(sight.with_margin),
            None => None,
        }),
        options.subtree_screen_lod == source::layout_lod(viewpoint),
        options.layer_filter is None,
    ensures
        ({
            let shown = source::shown_of(source, levels, viewpoint, rules);
            let cost = hierarchy::range_cost(
                hierarchy::level_costs(bundle, root),
                levels.min_level,
                levels.max_level,
            );
            let large = hierarchy_laws::is_too_much(
                (cost.shape_count as int, cost.point_count as int),
            );
            &&& shown.tile_render_active <==> large
            &&& shown.covered_bounds == options.visible_world_bounds
            &&& shown.covered_zoom == (if viewpoint.initialized {
                Some(viewpoint.camera@.zoom)
            } else {
                None
            })
            &&& large ==> shown.scene.len() == 0 && shown.bounds_hint == bundle.at(root).bounds
                && shown.layer_ids == hierarchy::range_layers(
                bundle,
                root,
                levels.min_level,
                levels.max_level,
            )
            &&& !large ==> {
                &&& shown.scene == workset::workset(
                    bundle,
                    options,
                    source::placing_from(rules, root),
                    source::outlines_from(rules, root, source::layout_lod(viewpoint)),
                )
                &&& shown.bounds_hint == scene::union_of(scene::shape_bounds(shown.scene))
            }
        }),
{
    assert(options == source::workset_options(root, levels, viewpoint, rules));
}

/// Everything is placed from the start of the view.
pub proof fn law_placing_starts_from_the_view(
    rules: ViewerRules,
    root: LayoutCellId,
    path: Seq<PlacementStep>,
    local: Bounds,
    id: LayoutCellId,
    index: int,
    shape: ViewShapeModel,
    viewpoint: Viewpoint,
)
    ensures
        ({
            let d = source::placing_from(rules, root);
            let put = source::outlines_from(rules, root, source::layout_lod(viewpoint));
            &&& (d.world)(path, local) == (rules.world)(root, path, local)
            &&& (d.shape)(path, id, index) == (rules.shape)(root, path, id, index)
            &&& d.small == rules.small
            &&& put(shape) == (rules.outline)(root, source::layout_lod(viewpoint), shape)
        }),
{
}

/// The renderer draws a layout tile by tile where what is shown says so and a start and its
/// rectangle are there, and else the scene. It is then asked for all of the range, whatever is
/// seen.
pub proof fn law_what_the_renderer_takes_over(
    source: LayoutSource,
    levels: LevelRange,
    viewpoint: Viewpoint,
    shown: ShownModel,
)
    ensures
        ({
            let update = source::renderer_update(source, levels, viewpoint, shown);
            let by_tiles = shown.tile_render_active && shown.bounds_hint is Some && (
            source.layout_bundle matches Some(bundle) && source::selected_root(bundle) is Some);
            match update {
                RendererUpdate::Scene => !by_tiles,
                RendererUpdate::HierarchyTiles { options, root_bounds, total_shape_count } => {
                    &&& by_tiles
                    &&& Some(root_bounds) == shown.bounds_hint
                    &&& Some(options.root_cell_id) == source::selected_root(
                        source.layout_bundle->0,
                    )
                    &&& options.min_hierarchy_level == levels.min_level
                    &&& options.max_hierarchy_level == levels.max_level
                    &&& options.visible_world_bounds is None
                    &&& options.layer_filter is None
                    &&& options.subtree_screen_lod == source::layout_lod(viewpoint)
                    &&& total_shape_count == hierarchy::range_cost(
                        hierarchy::level_costs(source.layout_bundle->0, options.root_cell_id),
                        levels.min_level,
                        levels.max_level,
                    ).shape_count as usize
                },
            }
        }),
{
}

/// A view is being moved for a hundred and twenty milliseconds after it was moved last.
pub proof fn law_how_long_a_view_is_moving(elapsed: u64)
    ensures
        viewer::is_moving(Some(elapsed)) <==> elapsed <= 120_000_000,
        !viewer::is_moving(None),
{
}

/// Of the settings of layers those of layers that are there are kept as they are, and no others.
pub proof fn law_settings_of_layers_that_are_there(
    look: LookModel,
    there: Set<LayerId>,
    layer: LayerId,
)
    ensures
        ({
            let after = viewer::look_within(look, there);
            &&& after.hidden_layers.contains(layer) <==> look.hidden_layers.contains(layer)
                && there.contains(layer)
            &&& after.layer_draw_modes.dom().contains(layer)
                <==> look.layer_draw_modes.dom().contains(layer) && there.contains(layer)
            &&& after.layer_draw_modes.dom().contains(layer) ==> after.layer_draw_modes[layer]
                == look.layer_draw_modes[layer]
            &&& after.layer_hatch_styles.dom().contains(layer)
                <==> look.layer_hatch_styles.dom().contains(layer) && there.contains(layer)
            &&& after.layer_hatch_styles.dom().contains(layer) ==> after.layer_hatch_styles[layer]
                == look.layer_hatch_styles[layer]
        }),
{
}

/// A place that is not in the list cannot be selected.
pub proof fn law_selection_stays_in_the_list(bundle: SceneBundle, index: usize)
    ensures
        index < bundle.listed().len() ==> viewer::selected_after(bundle, index) == index,
        index >= bundle.listed().len() ==> viewer::selected_after(bundle, index)
            == bundle.selection(),
{
}

/// A new renderer is told of every setting, once.
pub proof fn law_new_renderers_are_told_everything(settings: ViewerSettings)
    ensures
        ({
            let told = viewer::setup_commands(settings);
            &&& told.len() == 8
            &&& told.contains(RendererCommand::TileGridDivisions(settings.tile_grid_divisions))
            &&& told.contains(RendererCommand::DrawMode(settings.draw_mode))
            &&& told.contains(RendererCommand::LayerDrawModes)
            &&& told.contains(RendererCommand::LayerHatchStyles)
            &&& told.contains(RendererCommand::HatchParams(settings.hatch_params))
            &&& told.contains(RendererCommand::TileCacheCapacity(settings.tile_cache_capacity))
            &&& told.contains(
                RendererCommand::ProgressiveBypassThreshold(
                    settings.progressive_bypass_threshold,
                ),
            )
            &&& told.contains(
                RendererCommand::LayerBypassThresholds(
                    settings.layer_bypass_entry_threshold,
                    settings.layer_bypass_work_threshold,
                ),
            )
        }),
{
    let told = viewer::setup_commands(settings);
    assert(told[0] == RendererCommand::TileGridDivisions(settings.tile_grid_divisions));
    assert(told[1] == RendererCommand::DrawMode(settings.draw_mode));
    assert(told[2] == RendererCommand::LayerDrawModes);
    assert(told[3] == RendererCommand::LayerHatchStyles);
    assert(told[4] == RendererCommand::HatchParams(settings.hatch_params));
    assert(told[5] == RendererCommand::TileCacheCapacity(settings.tile_cache_capacity));
    assert(told[6] == RendererCommand::ProgressiveBypassThreshold(
        settings.progressive_bypass_threshold,
    ));
    assert(told[7] == RendererCommand::LayerBypassThresholds(
        settings.layer_bypass_entry_threshold,
        settings.layer_bypass_work_threshold,
    ));
}

/// At first areas are hatched and outlined, and the grid is eight by eight.
pub proof fn law_first_settings()
    ensures
        ({
            let first = viewer::default_settings();
            &&& first.draw_mode == ClosedShapeDrawMode::HatchOutline
            &&& first.tile_grid_divisions == 8
            &&& first.hatch_params.spacing == 0x4120_0000
            &&& first.hatch_params.width == 0x3fc0_0000
        }),
{
}

/// Each setting is set as it is wished, the others stay, and the renderer is told of the new one;
/// both thresholds of layers are told together. Other steps set nothing.
pub proof fn law_settings_are_set_one_by_one(
    settings: ViewerSettings,
    step: UiStep,
)
    ensures
        ({
            let (after, told) = actions::set_by(settings, step);
            let entries = after.layer_bypass_entry_threshold;
            let work = after.layer_bypass_work_threshold;
            &&& after.tile_grid_divisions == (match step {
                UiStep::TileGridDivisions(n) => n,
                _ => settings.tile_grid_divisions,
            })
            &&& after.draw_mode == (match step {
                UiStep::DrawMode(mode) => mode,
                _ => settings.draw_mode,
            })
            &&& after.hatch_params == (match step {
                UiStep::HatchParams(params) => params,
                _ => settings.hatch_params,
            })
            &&& after.tile_cache_capacity == (match step {
                UiStep::TileCacheCapacity(n) => n,
                _ => settings.tile_cache_capacity,
            })
            &&& after.progressive_bypass_threshold == (match step {
                UiStep::ProgressiveBypassThreshold(n) => n,
                _ => settings.progressive_bypass_threshold,
            })
            &&& entries == (match step {
                UiStep::LayerBypassEntryThreshold(n) => n,
                _ => settings.layer_bypass_entry_threshold,
            })
            &&& work == (match step {
                UiStep::LayerBypassWorkThreshold(n) => n,
                _ => settings.layer_bypass_work_threshold,
            })
            &&& told == (match step {
                UiStep::TileGridDivisions(n) => Some(RendererCommand::TileGridDivisions(n)),
                UiStep::DrawMode(mode) => Some(RendererCommand::DrawMode(mode)),
                UiStep::HatchParams(params) => Some(RendererCommand::HatchParams(params)),
                UiStep::TileCacheCapacity(n) => Some(RendererCommand::TileCacheCapacity(n)),
                UiStep::ProgressiveBypassThreshold(n) => Some(
                    RendererCommand::ProgressiveBypassThreshold(n),
                ),
                UiStep::LayerBypassEntryThreshold(_) => Some(
                    RendererCommand::LayerBypassThresholds(entries, work),
                ),
                UiStep::LayerBypassWorkThreshold(_) => Some(
                    RendererCommand::LayerBypassThresholds(entries, work),
                ),
                _ => None,
            })
        }),
{
}

/// The place of a step among the steps of a frame.
pub open spec fn turn(step: UiStep) -> int {
    match step {
        UiStep::SelectView(_) => 0,
        UiStep::HideLayers => 1,
        UiStep::TileGridDivisions(_) => 2,
        UiStep::DrawMode(_) => 3,
        UiStep::HatchParams(_) => 4,
        UiStep::LayerDrawModes => 5,
        UiStep::LayerHatchStyles => 6,
        UiStep::MinHierarchyLevel(_) => 7,
        UiStep::MaxHierarchyLevel(_) => 8,
        UiStep::TileCacheCapacity(_) => 9,
        UiStep::ProgressiveBypassThreshold(_) => 10,
        UiStep::LayerBypassEntryThreshold(_) => 11,
        UiStep::LayerBypassWorkThreshold(_) => 12,
        UiStep::OpenFile => 13,
        UiStep::ReloadLayout => 14,
        UiStep::Fit { .. } => 15,
        UiStep::Pan(_) => 16,
        UiStep::Zoom { .. } => 17,
    }
}

/// Whether the step is one that the user wishes.
pub open spec fn is_wished(action: UiAction, step: UiStep) -> bool {
    match step {
        UiStep::SelectView(index) => action.selected_view == Some(index),
        UiStep::HideLayers => action.hidden_layers is Some,
        UiStep::TileGridDivisions(n) => action.tile_grid_divisions == Some(n),
        UiStep::DrawMode(mode) => action.draw_mode == Some(mode),
        UiStep::HatchParams(params) => action.hatch_params == Some(params),
        UiStep::LayerDrawModes => action.layer_draw_modes is Some,
        UiStep::LayerHatchStyles => action.layer_hatch_styles is Some,
        UiStep::MinHierarchyLevel(level) => action.min_hierarchy_level == Some(level),
        UiStep::MaxHierarchyLevel(level) => action.max_hierarchy_level == Some(level),
        UiStep::TileCacheCapacity(n) => action.tile_cache_capacity == Some(n),
        UiStep::ProgressiveBypassThreshold(n) => action.progressive_bypass_threshold == Some(n),
        UiStep::LayerBypassEntryThreshold(n) => action.layer_bypass_entry_threshold == Some(n),
        UiStep::LayerBypassWorkThreshold(n) => action.layer_bypass_work_threshold == Some(n),
        UiStep::OpenFile => action.request_open_file,
        UiStep::ReloadLayout => action.request_reload_layout,
        UiStep::Fit { asked } => asked == action.request_fit,
        UiStep::Pan(delta) => delta == action.pan_delta && !(coords::same_number(delta.x, 0)
            && coords::same_number(delta.y, 0)),
        UiStep::Zoom { factor, cursor } => action.zoom == Some((factor, cursor)),
    }
}

/// Whether the steps go in their turns, from one turn on and before another, and are all wished.
spec fn in_turn(action: UiAction, steps: Seq<UiStep>, from: int, to: int) -> bool {
    &&& forall|k: int|
        0 <= k < steps.len() ==> from <= turn(#[trigger] steps[k]) < to && is_wished(
            action,
            steps[k],
        )
    &&& forall|j: int, k: int|
        0 <= j < k < steps.len() ==> turn(#[trigger] steps[j]) < turn(#[trigger] steps[k])
}

proof fn lemma_in_turn(
    action: UiAction,
    a: Seq<UiStep>,
    b: Seq<UiStep>,
    from: int,
    between: int,
    to: int,
)
    requires
        in_turn(action, a, from, between),
        in_turn(action, b, between, to),
        from <= between <= to,
    ensures
        in_turn(action, a + b, from, to),
{
    let all = a + b;
    assert forall|k: int| 0 <= k < all.len() implies from <= turn(#[trigger] all[k]) < to
        && is_wished(action, all[k]) by {
        if k < a.len() {
            assert(all[k] == a[k]);
        } else {
            assert(all[k] == b[k - a.len()]);
        }
    }
    assert forall|j: int, k: int| 0 <= j < k < all.len() implies turn(#[trigger] all[j]) < turn(
        #[trigger] all[k],
    ) by {
        if k < a.len() {
            assert(all[j] == a[j] && all[k] == a[k]);
        } else if j < a.len() {
            assert(all[j] == a[j] && all[k] == b[k - a.len()]);
        } else {
            assert(all[j] == b[j - a.len()] && all[k] == b[k - a.len()]);
        }
    }
}

proof fn lemma_taken(action: UiAction, step: Option<UiStep>, at: int)
    requires
        step matches Some(s) ==> turn(s) == at && is_wished(action, s),
    ensures
        in_turn(action, actions::taken(step), at, at + 1),
{
}

proof fn lemma_taken_if(action: UiAction, condition: bool, step: UiStep, at: int)
    requires
        condition ==> turn(step) == at && is_wished(action, step),
    ensures
        in_turn(action, actions::taken_if(condition, step), at, at + 1),
{
}

proof fn lemma_layer_turns(action: UiAction)
    ensures
        in_turn(action, actions::layer_plan(action), 0, 2),
{
    let a: Option<UiStep> = match action.selected_view {
        Some(wish) => Some(UiStep::SelectView(wish)),
        None => None,
    };
    lemma_taken(action, a, 0);
    lemma_taken_if(action, action.hidden_layers is Some, UiStep::HideLayers, 1);
    let hiding = actions::taken_if(action.hidden_layers is Some, UiStep::HideLayers);
    lemma_in_turn(action, actions::taken(a), hiding, 0, 1, 2);
}

proof fn lemma_drawing_turns(action: UiAction)
    ensures
        in_turn(action, actions::drawing_plan(action), 2, 7),
{
    let a: Option<UiStep> = match action.tile_grid_divisions {
        Some(wish) => Some(UiStep::TileGridDivisions(wish)),
        None => None,
    };
    lemma_taken(action, a, 2);
    let b: Option<UiStep> = match action.draw_mode {
        Some(wish) => Some(UiStep::DrawMode(wish)),
        None => None,
    };
    lemma_taken(action, b, 3);
    let c: Option<UiStep> = match action.hatch_params {
        Some(wish) => Some(UiStep::HatchParams(wish)),
        None => None,
    };
    lemma_taken(action, c, 4);
    lemma_taken_if(action, action.layer_draw_modes is Some, UiStep::LayerDrawModes, 5);
    lemma_taken_if(action, action.layer_hatch_styles is Some, UiStep::LayerHatchStyles, 6);
    let modes = actions::taken_if(action.layer_draw_modes is Some, UiStep::LayerDrawModes);
    let styles = actions::taken_if(action.layer_hatch_styles is Some, UiStep::LayerHatchStyles);
    let first = actions::taken(a) + actions::taken(b);
    lemma_in_turn(action, actions::taken(a), actions::taken(b), 2, 3, 4);
    lemma_in_turn(action, first, actions::taken(c), 2, 4, 5);
    lemma_in_turn(action, first + actions::taken(c), modes, 2, 5, 6);
    lemma_in_turn(action, first + actions::taken(c) + modes, styles, 2, 6, 7);
}

proof fn lemma_level_turns(action: UiAction)
    ensures
        in_turn(action, actions::level_plan(action), 7, 9),
{
    let a: Option<UiStep> = match action.min_hierarchy_level {
        Some(wish) => Some(UiStep::MinHierarchyLevel(wish)),
        None => None,
    };
    lemma_taken(action, a, 7);
    let b: Option<UiStep> = match action.max_hierarchy_level {
        Some(wish) => Some(UiStep::MaxHierarchyLevel(wish)),
        None => None,
    };
    lemma_taken(action, b, 8);
    lemma_in_turn(action, actions::taken(a), actions::taken(b), 7, 8, 9);
}

proof fn lemma_limit_turns(action: UiAction)
    ensures
        in_turn(action, actions::limit_plan(action), 9, 13),
{
    let a: Option<UiStep> = match action.tile_cache_capacity {
        Some(wish) => Some(UiStep::TileCacheCapacity(wish)),
        None => None,
    };
    lemma_taken(action, a, 9);
    let b: Option<UiStep> = match action.progressive_bypass_threshold {
        Some(wish) => Some(UiStep::ProgressiveBypassThreshold(wish)),
        None => None,
    };
    lemma_taken(action, b, 10);
    let c: Option<UiStep> = match action.layer_bypass_entry_threshold {
        Some(wish) => Some(UiStep::LayerBypassEntryThreshold(wish)),
        None => None,
    };
    lemma_taken(action, c, 11);
    let d: Option<UiStep> = match action.layer_bypass_work_threshold {
        Some(wish) => Some(UiStep::LayerBypassWorkThreshold(wish)),
        None => None,
    };
    lemma_taken(action, d, 12);
    lemma_in_turn(action, actions::taken(a), actions::taken(b), 9, 10, 11);
    lemma_in_turn(action, actions::taken(a) + actions::taken(b), actions::taken(c), 9, 11, 12);
    lemma_in_turn(
        action,
        actions::taken(a) + actions::taken(b) + actions::taken(c),
        actions::taken(d),
        9,
        12,
        13,
    );
}

proof fn lemma_file_turns(action: UiAction)
    ensures
        in_turn(action, actions::file_plan(action), 13, 15),
{
    lemma_taken_if(action, action.request_open_file, UiStep::OpenFile, 13);
    lemma_taken_if(action, action.request_reload_layout, UiStep::ReloadLayout, 14);
    let opening = actions::taken_if(action.request_open_file, UiStep::OpenFile);
    let reloading = actions::taken_if(action.request_reload_layout, UiStep::ReloadLayout);
    lemma_in_turn(action, opening, reloading, 13, 14, 15);
}

proof fn lemma_camera_turns(action: UiAction)
    ensures
        in_turn(action, actions::camera_plan(action), 15, 18),
{
    let fit = UiStep::Fit { asked: action.request_fit };
    let moved = !(coords::same_number(action.pan_delta.x, 0) && coords::same_number(
        action.pan_delta.y,
        0,
    ));
    let pan = UiStep::Pan(action.pan_delta);
    let zoom: Option<UiStep> = match action.zoom {
        Some((factor, cursor)) => Some(UiStep::Zoom { factor, cursor }),
        None => None,
    };
    lemma_taken(action, Some(fit), 15);
    lemma_taken_if(action, moved, pan, 16);
    lemma_taken(action, zoom, 17);
    lemma_in_turn(action, seq![fit], actions::taken_if(moved, pan), 15, 16, 17);
    lemma_in_turn(
        action,
        seq![fit] + actions::taken_if(moved, pan),
        actions::taken(zoom),
        15,
        17,
        18,
    );
}

/// Nothing is done that is not wished, nothing twice, and everything in its turn: the view first,
/// then the layers, how things are drawn, the levels, the limits, files, and the camera last. The
/// layout is fitted before it is moved, and moved before it is zoomed.
pub proof fn law_wishes_are_met_in_turn(action: UiAction, i: int, j: int)
    ensures
        ({
            let plan = actions::frame_plan(action);
            &&& 0 <= i < plan.len() ==> is_wished(action, plan[i])
            &&& 0 <= i < j < plan.len() ==> turn(plan[i]) < turn(plan[j])
        }),
{
    let layer = actions::layer_plan(action);
    let drawing = actions::drawing_plan(action);
    let level = actions::level_plan(action);
    let limit = actions::limit_plan(action);
    let file = actions::file_plan(action);
    let camera = actions::camera_plan(action);
    lemma_layer_turns(action);
    lemma_drawing_turns(action);
    lemma_level_turns(action);
    lemma_limit_turns(action);
    lemma_file_turns(action);
    lemma_camera_turns(action);
    lemma_in_turn(action, layer, drawing, 0, 2, 7);
    lemma_in_turn(action, layer + drawing, level, 0, 7, 9);
    lemma_in_turn(action, layer + drawing + level, limit, 0, 9, 13);
    lemma_in_turn(action, layer + drawing + level + limit, file, 0, 13, 15);
    lemma_in_turn(action, layer + drawing + level + limit + file, camera, 0, 15, 18);
}

/// What is fitted into the picture: the rectangle of the start of a layout that is not flattened,
/// or where it has none the one around the scene; nothing where the picture has no width or
/// height.
pub proof fn law_what_is_fitted(state: ViewerState, root: LayoutCellId)
    ensures
        ({
            let fitted = actions::fitted(state);
            let size = state.viewpoint.canvas_size;
            let flat = coords::at_most(size.x, 0) || coords::at_most(size.y, 0);
            let around = scene::union_of(scene::shape_bounds(state.shown@.scene));
            &&& flat ==> fitted is None
            &&& !flat && state.source.layout_bundle is None ==> fitted == around
            &&& !flat && (state.source.layout_bundle matches Some(bundle)
                && source::selected_root(bundle) == Some(root)) ==> {
                let whole = state.source.layout_bundle->0.at(root).bounds;
                &&& whole is Some ==> fitted == whole
                &&& whole is None ==> fitted == around
            }
        }),
{
}

/// A size of less than one, or none at all, counts as one.
pub proof fn law_sizes_of_one_at_least(key: i32)
    ensures
        ({
            let one: i32 = 0x3f80_0000;
            &&& coords::at_most(one, key) ==> actions::one_at_least(key) == key
            &&& !coords::at_most(one, key) ==> actions::one_at_least(key) == one
        }),
{
}

/// After settings are restored or a file is opened, nothing is hidden that was not saved as
/// hidden, and listed layers have a pattern: a saved one, or one by their place.
pub proof fn law_every_listed_layer_has_a_pattern(
    styles: Map<LayerId, HatchStylePreset>,
    listed: Seq<LayerId>,
    layer: LayerId,
)
    requires
        listed.contains(layer),
    ensures
        app::with_default_styles(styles, listed).dom().contains(layer),
{
    app::law_default_styles_go_by_place(styles, listed, layer);
}

/// The first picture has the size of the window without the panel.
pub proof fn law_first_picture(first: Point)
    requires
        first == viewer::first_canvas(),
    ensures
        coords::bits_of_key(first.x) == 0x4491_0000,
        coords::bits_of_key(first.y) == 0x4470_0000,
{
}

} // verus!
