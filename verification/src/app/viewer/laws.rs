//! What holds of the viewer as a whole.

use crate::app;
use crate::app::source;
use crate::app::source::{LayoutSource, LevelRange, RendererUpdate, ViewerRules};
use crate::app::viewer;
use crate::app::viewer::ViewerState;
use crate::layers;
use crate::persistence;
use crate::persistence::{
    PersistedLayerDrawMode, PersistedLayerHatchStyle, PersistedLayerId, ViewerConfig,
};
use crate::renderer::geometry::{ClosedShapeDrawMode, HatchStylePreset};
use crate::scene;
use crate::scene::LayerId;
use crate::workset;
use vstd::prelude::*;

verus! {

/// The layers that were hidden when the settings were saved are hidden again, as far as they are
/// still there.
pub proof fn law_hidden_layers_come_back(
    saved: Seq<PersistedLayerId>,
    ids: Seq<LayerId>,
    existing: Seq<LayerId>,
)
    requires
        viewer::saves_hidden(saved, ids),
    ensures
        persistence::still_hidden(saved, existing) == ids.to_set().intersect(existing.to_set()),
{
    assert forall|x: LayerId| persistence::still_hidden(saved, existing).contains(x)
        <==> ids.to_set().intersect(existing.to_set()).contains(x) by {
        persistence::law_hidden_layers_are_known(saved, existing, x);
        if ids.contains(x) {
            let i = choose|i: int| 0 <= i < ids.len() && ids[i] == x;
            assert(saved[i].runtime() == x);
        }
        if exists|i: int| 0 <= i < saved.len() && (#[trigger] saved[i]).runtime() == x {
            let i = choose|i: int| 0 <= i < saved.len() && (#[trigger] saved[i]).runtime() == x;
            assert(ids[i] == x);
        }
        assert(ids.to_set().contains(x) <==> ids.contains(x));
        assert(existing.to_set().contains(x) <==> existing.contains(x));
    }
    assert(persistence::still_hidden(saved, existing) =~= ids.to_set().intersect(
        existing.to_set(),
    ));
}

proof fn lemma_drawn_has_entry(
    saved: Seq<PersistedLayerDrawMode>,
    existing: Seq<LayerId>,
    layer: LayerId,
)
    ensures
        persistence::still_drawn(saved, existing).dom().contains(layer) ==> existing.contains(layer)
            && exists|i: int| 0 <= i < saved.len() && (#[trigger] saved[i]).layer.runtime()
            == layer,
    decreases saved.len(),
{
    if saved.len() > 0 {
        let init = saved.drop_last();
        lemma_drawn_has_entry(init, existing, layer);
        if persistence::still_drawn(init, existing).dom().contains(layer) {
            let i = choose|i: int|
                0 <= i < init.len() && (#[trigger] init[i]).layer.runtime() == layer;
            assert(saved[i].layer.runtime() == layer);
        }
        assert(saved[saved.len() - 1] == saved.last());
    }
}

/// The ways of drawing that layers had when the settings were saved come back, as far as the
/// layers are still there.
pub proof fn law_draw_modes_come_back(
    saved: Seq<PersistedLayerDrawMode>,
    entries: Seq<(LayerId, ClosedShapeDrawMode)>,
    existing: Seq<LayerId>,
)
    requires
        viewer::saves_modes(saved, entries),
        layers::keys_ascend(entries),
    ensures
        persistence::still_drawn(saved, existing) == layers::entries_map(entries).restrict(
            existing.to_set(),
        ),
{
    let restored = persistence::still_drawn(saved, existing);
    let wanted = layers::entries_map(entries).restrict(existing.to_set());
    assert forall|x: LayerId|
        #![trigger restored.dom().contains(x)]
        #![trigger wanted.dom().contains(x)]
        (restored.dom().contains(x) <==> wanted.dom().contains(x)) && (restored.dom().contains(x)
            ==> restored[x] == wanted[x]) by {
        lemma_drawn_has_entry(saved, existing, x);
        assert(existing.to_set().contains(x) <==> existing.contains(x));
        if restored.dom().contains(x) {
            let i = choose|i: int|
                0 <= i < saved.len() && (#[trigger] saved[i]).layer.runtime() == x;
            assert(entries[i].0 == x);
            assert(layers::has_key(entries, x));
        }
        if layers::has_key(entries, x) && existing.contains(x) {
            let k = layers::key_index(entries, x);
            assert(saved[k].layer.runtime() == x);
            assert forall|j: int| k < j < saved.len() implies (#[trigger] saved[j]).layer
                != saved[k].layer by {
                assert(layers::layer_lt(entries[k].0, entries[j].0));
            }
            persistence::law_last_draw_mode_counts(saved, existing, k);
        }
    }
    assert(restored.dom() =~= wanted.dom());
    assert(restored =~= wanted);
}

proof fn lemma_hatched_has_entry(
    saved: Seq<PersistedLayerHatchStyle>,
    existing: Seq<LayerId>,
    layer: LayerId,
)
    ensures
        persistence::still_hatched(saved, existing).dom().contains(layer) ==> existing.contains(
            layer,
        ) && exists|i: int| 0 <= i < saved.len() && (#[trigger] saved[i]).layer.runtime() == layer,
    decreases saved.len(),
{
    if saved.len() > 0 {
        let init = saved.drop_last();
        lemma_hatched_has_entry(init, existing, layer);
        if persistence::still_hatched(init, existing).dom().contains(layer) {
            let i = choose|i: int|
                0 <= i < init.len() && (#[trigger] init[i]).layer.runtime() == layer;
            assert(saved[i].layer.runtime() == layer);
        }
        assert(saved[saved.len() - 1] == saved.last());
    }
}

/// The patterns that layers had when the settings were saved come back, as far as the layers are
/// still there.
pub proof fn law_hatch_styles_come_back(
    saved: Seq<PersistedLayerHatchStyle>,
    entries: Seq<(LayerId, HatchStylePreset)>,
    existing: Seq<LayerId>,
)
    requires
        viewer::saves_styles(saved, entries),
        layers::keys_ascend(entries),
    ensures
        persistence::still_hatched(saved, existing) == layers::entries_map(entries).restrict(
            existing.to_set(),
        ),
{
    let restored = persistence::still_hatched(saved, existing);
    let wanted = layers::entries_map(entries).restrict(existing.to_set());
    assert forall|x: LayerId|
        #![trigger restored.dom().contains(x)]
        #![trigger wanted.dom().contains(x)]
        (restored.dom().contains(x) <==> wanted.dom().contains(x)) && (restored.dom().contains(x)
            ==> restored[x] == wanted[x]) by {
        lemma_hatched_has_entry(saved, existing, x);
        assert(existing.to_set().contains(x) <==> existing.contains(x));
        if restored.dom().contains(x) {
            let i = choose|i: int|
                0 <= i < saved.len() && (#[trigger] saved[i]).layer.runtime() == x;
            assert(entries[i].0 == x);
            assert(layers::has_key(entries, x));
        }
        if layers::has_key(entries, x) && existing.contains(x) {
            let k = layers::key_index(entries, x);
            assert(saved[k].layer.runtime() == x);
            assert forall|j: int| k < j < saved.len() implies (#[trigger] saved[j]).layer
                != saved[k].layer by {
                assert(layers::layer_lt(entries[k].0, entries[j].0));
            }
            persistence::law_last_hatch_style_counts(saved, existing, k);
        }
    }
    assert(restored.dom() =~= wanted.dom());
    assert(restored =~= wanted);
}

/// The levels that were shown when the settings were saved are shown again, where the layout
/// still has them.
pub proof fn law_levels_come_back(
    state: ViewerState,
    config: ViewerConfig,
    source: LayoutSource,
    levels: LevelRange,
)
    requires
        viewer::is_saved_from(config, state),
        state.levels.min_level <= state.levels.max_level <= levels.deepest,
    ensures
        viewer::restored_levels(source, levels, config).min_level == state.levels.min_level,
        viewer::restored_levels(source, levels, config).max_level == state.levels.max_level,
{
}

/// The camera comes back to where it stood when the settings were saved, where its zoom lay within
/// the limits.
pub proof fn law_camera_comes_back(
    state: ViewerState,
    config: ViewerConfig,
    before: ViewerState,
    after: ViewerState,
    update: RendererUpdate,
    rules: ViewerRules,
)
    requires
        viewer::is_saved_from(config, state),
        viewer::is_restored(before, after, config, update, rules),
        crate::camera::clamped_zoom(state.viewpoint.camera@.zoom) == state.viewpoint.camera@.zoom,
    ensures
        after.viewpoint.camera@ == state.viewpoint.camera@,
        after.viewpoint.initialized,
{
}

/// A view that was shown when the settings were saved is selected again, where its name is still
/// there.
pub proof fn law_view_comes_back(
    state: ViewerState,
    config: ViewerConfig,
    before: LayoutSource,
    after: LayoutSource,
    i: int,
)
    requires
        viewer::is_saved_from(config, state),
        viewer::selects_saved(before, after, config.selected_view_name),
        state.source.scene_bundle.selection() < state.source.scene_bundle.listed().len(),
        0 <= i < before.scene_bundle.listed().len(),
        before.scene_bundle.listed()[i].name@ == state.source.scene_bundle.listed()[
            state.source.scene_bundle.selection() as int
        ].name@,
    ensures
        after.scene_bundle.selection() < after.scene_bundle.listed().len(),
        after.scene_bundle.listed()[after.scene_bundle.selection() as int].name@
            == state.source.scene_bundle.listed()[
            state.source.scene_bundle.selection() as int
        ].name@,
{
    assert(persistence::is_named(
        before.scene_bundle.listed()[i],
        config.selected_view_name->0@,
    ));
}

/// A scene that has just been built serves for the view it was built for, as long as what is seen
/// lies within its own margin and no zoom leaves itself behind.
pub proof fn law_new_scene_serves(state: ViewerState, update: RendererUpdate, rules: ViewerRules)
    requires
        viewer::is_shown_from(state, state.viewpoint, update, rules),
        scene::within(
            (rules.sight)(state.viewpoint.camera@, state.viewpoint.canvas_size).visible,
            (rules.sight)(state.viewpoint.camera@, state.viewpoint.canvas_size).with_margin,
        ),
        !(rules.drifted)(state.viewpoint.camera@.zoom, state.viewpoint.camera@.zoom),
    ensures
        !viewer::needs_rebuild(state, rules),
{
}

/// A scene that no longer serves is built anew, or noted to be built: it is never forgotten.
pub proof fn law_outdated_scene_is_not_forgotten(
    before: ViewerState,
    after: ViewerState,
    update: Option<RendererUpdate>,
    elapsed: Option<u64>,
    rules: ViewerRules,
)
    requires
        viewer::is_caught_up(before, after, update, elapsed, rules),
        viewer::needs_rebuild(before, rules),
    ensures
        update is Some || after.interaction.rebuild_pending,
        update is Some ==> viewer::is_shown_from(after, after.viewpoint, update->0, rules),
        !viewer::is_moving(elapsed) ==> update is Some,
{
}

/// What is shown always lies within the levels that are shown, and these within the levels that
/// there are.
pub proof fn law_shown_levels(
    before: ViewerState,
    after: ViewerState,
    rules: ViewerRules,
    k: int,
)
    requires
        viewer::is_refreshed(before, after, rules),
        0 <= k < after.shown@.scene.len(),
    ensures
        after.levels.min_level <= after.shown@.scene[k].hierarchy_level <= after.levels.max_level,
{
    let base = source::selected_scene(before.source);
    scene::law_deepest_level(base);
    if let Some(bundle) = before.source.layout_bundle {
        let root = source::selected_root(bundle)->0;
        let options = source::workset_options(root, after.levels, before.viewpoint, rules);
        workset::law_view_holds_what_is_wanted(
            bundle,
            options,
            source::placing_from(rules, root),
            k,
        );
    } else if after.levels.min_level == 0 && after.levels.max_level >= scene::deepest_level(base) {
        assert(base[k].hierarchy_level <= scene::deepest_level(base));
    } else {
        lemma_on_levels(base, after.levels.min_level, after.levels.max_level, k);
    }
}

proof fn lemma_on_levels(shapes: Seq<scene::ShapeModel>, min_level: u32, max_level: u32, k: int)
    requires
        0 <= k < scene::on_levels(shapes, min_level, max_level).len(),
    ensures
        min_level <= scene::on_levels(shapes, min_level, max_level)[k].hierarchy_level
            <= max_level,
    decreases shapes.len(),
{
    reveal(Seq::filter);
    if shapes.len() > 0 {
        let init = shapes.drop_last();
        if k < scene::on_levels(init, min_level, max_level).len() {
            lemma_on_levels(init, min_level, max_level, k);
        }
    }
}

/// Filling in patterns once is enough.
pub proof fn law_default_styles_are_stable(
    styles: Map<LayerId, HatchStylePreset>,
    layers: Seq<LayerId>,
)
    ensures
        app::with_default_styles(app::with_default_styles(styles, layers), layers)
            == app::with_default_styles(styles, layers),
{
    lemma_styles_filled(styles, layers);
    lemma_styles_untouched(app::with_default_styles(styles, layers), layers);
}

proof fn lemma_styles_filled(styles: Map<LayerId, HatchStylePreset>, layers: Seq<LayerId>)
    ensures
        forall|k: int|
            0 <= k < layers.len() ==> app::with_default_styles(styles, layers).dom().contains(
                #[trigger] layers[k],
            ),
    decreases layers.len(),
{
    if layers.len() > 0 {
        let init = layers.drop_last();
        lemma_styles_filled(styles, init);
        assert forall|k: int| 0 <= k < layers.len() implies app::with_default_styles(
            styles,
            layers,
        ).dom().contains(#[trigger] layers[k]) by {
            if k < init.len() {
                assert(init[k] == layers[k]);
            }
        }
    }
}

proof fn lemma_styles_untouched(styles: Map<LayerId, HatchStylePreset>, layers: Seq<LayerId>)
    requires
        forall|k: int| 0 <= k < layers.len() ==> styles.dom().contains(#[trigger] layers[k]),
    ensures
        app::with_default_styles(styles, layers) == styles,
    decreases layers.len(),
{
    if layers.len() > 0 {
        let init = layers.drop_last();
        assert forall|k: int| 0 <= k < init.len() implies styles.dom().contains(
            #[trigger] init[k],
        ) by {
            assert(init[k] == layers[k]);
        }
        lemma_styles_untouched(styles, init);
        assert(layers[layers.len() - 1] == layers.last());
    }
}

} // verus!
