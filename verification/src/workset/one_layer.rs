//! A view of one layer shows all of that layer.

use crate::layout::{LayoutBundle, LayoutCellId};
use crate::scene::LayerId;
use crate::view_builder;
use crate::view_builder::{LayoutViewBuildOptions, PlacementStep, Placing, ViewShapeModel};
use vstd::prelude::*;

verus! {

/// Which shapes are on the layer.
pub open spec fn on_layer(layer: LayerId) -> spec_fn(ViewShapeModel) -> bool {
    |shape: ViewShapeModel| shape.layer == layer
}

/// The same view of all layers.
pub open spec fn of_all_layers(options: LayoutViewBuildOptions) -> LayoutViewBuildOptions {
    LayoutViewBuildOptions { layer_filter: None, ..options }
}

proof fn lemma_own(
    bundle: LayoutBundle,
    options: LayoutViewBuildOptions,
    d: Placing,
    path: Seq<PlacementStep>,
    id: LayoutCellId,
    level: u32,
    count: nat,
    layer: LayerId,
)
    requires
        options.layer_filter == Some(layer),
    ensures
        view_builder::own_contribution(bundle, options, d, path, id, level, count)
            == view_builder::own_contribution(
            bundle,
            of_all_layers(options),
            d,
            path,
            id,
            level,
            count,
        ).filter(on_layer(layer)),
    decreases count,
{
    reveal(Seq::filter);
    if count > 0 && options.min_hierarchy_level <= level <= options.max_hierarchy_level {
        lemma_own(bundle, options, d, path, id, level, (count - 1) as nat, layer);
        let all = of_all_layers(options);
        let head = view_builder::own_contribution(
            bundle,
            all,
            d,
            path,
            id,
            level,
            (count - 1) as nat,
        );
        let whole = view_builder::own_contribution(bundle, all, d, path, id, level, count);
        if whole.len() > head.len() {
            assert(whole.drop_last() =~= head);
        }
    }
}

proof fn lemma_cell(
    bundle: LayoutBundle,
    options: LayoutViewBuildOptions,
    d: Placing,
    path: Seq<PlacementStep>,
    id: LayoutCellId,
    level: u32,
    layer: LayerId,
)
    requires
        options.layer_filter == Some(layer),
        options.subtree_screen_lod is None,
    ensures
        view_builder::cell_contribution(bundle, options, d, path, id, level)
            == view_builder::cell_contribution(
            bundle,
            of_all_layers(options),
            d,
            path,
            id,
            level,
        ).filter(on_layer(layer)),
    decreases options.max_hierarchy_level - level, 4nat, 0nat,
{
    let all = of_all_layers(options);
    let shapes = bundle.at(id).shapes.len();
    let instances = bundle.at(id).instances.len();
    let own = view_builder::own_contribution(bundle, all, d, path, id, level, shapes);
    lemma_own(bundle, options, d, path, id, level, shapes, layer);
    if level < options.max_hierarchy_level {
        let below = view_builder::instances_contribution(
            bundle,
            all,
            d,
            path,
            id,
            level,
            instances,
        );
        lemma_instances(bundle, options, d, path, id, level, instances, layer);
        Seq::filter_distributes_over_add(own, below, on_layer(layer));
    } else {
        let none = Seq::<ViewShapeModel>::empty();
        assert(own + none =~= own);
        assert(own.filter(on_layer(layer)) + none =~= own.filter(on_layer(layer)));
    }
}

proof fn lemma_instances(
    bundle: LayoutBundle,
    options: LayoutViewBuildOptions,
    d: Placing,
    path: Seq<PlacementStep>,
    id: LayoutCellId,
    level: u32,
    count: nat,
    layer: LayerId,
)
    requires
        options.layer_filter == Some(layer),
        options.subtree_screen_lod is None,
        level < options.max_hierarchy_level,
    ensures
        view_builder::instances_contribution(bundle, options, d, path, id, level, count)
            == view_builder::instances_contribution(
            bundle,
            of_all_layers(options),
            d,
            path,
            id,
            level,
            count,
        ).filter(on_layer(layer)),
    decreases options.max_hierarchy_level - level, 3nat, count,
{
    reveal(Seq::filter);
    let all = of_all_layers(options);
    if count > 0 {
        let rows = bundle.at(id).instances[count - 1].rows();
        lemma_instances(bundle, options, d, path, id, level, (count - 1) as nat, layer);
        lemma_rows(bundle, options, d, path, id, level, count - 1, rows, layer);
        Seq::filter_distributes_over_add(
            view_builder::instances_contribution(
                bundle,
                all,
                d,
                path,
                id,
                level,
                (count - 1) as nat,
            ),
            view_builder::rows_contribution(bundle, all, d, path, id, level, count - 1, rows),
            on_layer(layer),
        );
    }
}

proof fn lemma_rows(
    bundle: LayoutBundle,
    options: LayoutViewBuildOptions,
    d: Placing,
    path: Seq<PlacementStep>,
    id: LayoutCellId,
    level: u32,
    instance: int,
    count: nat,
    layer: LayerId,
)
    requires
        options.layer_filter == Some(layer),
        options.subtree_screen_lod is None,
        level < options.max_hierarchy_level,
    ensures
        view_builder::rows_contribution(bundle, options, d, path, id, level, instance, count)
            == view_builder::rows_contribution(
            bundle,
            of_all_layers(options),
            d,
            path,
            id,
            level,
            instance,
            count,
        ).filter(on_layer(layer)),
    decreases options.max_hierarchy_level - level, 2nat, count,
{
    reveal(Seq::filter);
    let all = of_all_layers(options);
    if count > 0 {
        let columns = bundle.at(id).instances[instance].columns();
        lemma_rows(bundle, options, d, path, id, level, instance, (count - 1) as nat, layer);
        lemma_columns(
            bundle,
            options,
            d,
            path,
            id,
            level,
            instance,
            count - 1,
            columns,
            layer,
        );
        Seq::filter_distributes_over_add(
            view_builder::rows_contribution(
                bundle,
                all,
                d,
                path,
                id,
                level,
                instance,
                (count - 1) as nat,
            ),
            view_builder::columns_contribution(
                bundle,
                all,
                d,
                path,
                id,
                level,
                instance,
                count - 1,
                columns,
            ),
            on_layer(layer),
        );
    }
}

proof fn lemma_columns(
    bundle: LayoutBundle,
    options: LayoutViewBuildOptions,
    d: Placing,
    path: Seq<PlacementStep>,
    id: LayoutCellId,
    level: u32,
    instance: int,
    row: int,
    count: nat,
    layer: LayerId,
)
    requires
        options.layer_filter == Some(layer),
        options.subtree_screen_lod is None,
        level < options.max_hierarchy_level,
    ensures
        view_builder::columns_contribution(
            bundle,
            options,
            d,
            path,
            id,
            level,
            instance,
            row,
            count,
        ) == view_builder::columns_contribution(
            bundle,
            of_all_layers(options),
            d,
            path,
            id,
            level,
            instance,
            row,
            count,
        ).filter(on_layer(layer)),
    decreases options.max_hierarchy_level - level, 1nat, count,
{
    reveal(Seq::filter);
    let all = of_all_layers(options);
    if count > 0 {
        lemma_columns(
            bundle,
            options,
            d,
            path,
            id,
            level,
            instance,
            row,
            (count - 1) as nat,
            layer,
        );
        lemma_copy(bundle, options, d, path, id, level, instance, row, count - 1, layer);
        Seq::filter_distributes_over_add(
            view_builder::columns_contribution(
                bundle,
                all,
                d,
                path,
                id,
                level,
                instance,
                row,
                (count - 1) as nat,
            ),
            view_builder::copy_contribution(
                bundle,
                all,
                d,
                path,
                id,
                level,
                instance,
                row,
                count - 1,
            ),
            on_layer(layer),
        );
    }
}

proof fn lemma_copy(
    bundle: LayoutBundle,
    options: LayoutViewBuildOptions,
    d: Placing,
    path: Seq<PlacementStep>,
    id: LayoutCellId,
    level: u32,
    instance: int,
    row: int,
    col: int,
    layer: LayerId,
)
    requires
        options.layer_filter == Some(layer),
        options.subtree_screen_lod is None,
        level < options.max_hierarchy_level,
    ensures
        view_builder::copy_contribution(bundle, options, d, path, id, level, instance, row, col)
            == view_builder::copy_contribution(
            bundle,
            of_all_layers(options),
            d,
            path,
            id,
            level,
            instance,
            row,
            col,
        ).filter(on_layer(layer)),
    decreases options.max_hierarchy_level - level, 0nat, 0nat,
{
    reveal(Seq::filter);
    let target = bundle.at(id).instances[instance].target_cell_id;
    let inner = path.push(
        PlacementStep { instance: instance as usize, row: row as u32, col: col as u32 },
    );
    lemma_cell(bundle, options, d, inner, target, (level + 1) as u32, layer);
    let placed = match bundle.at(target).bounds {
        Some(bounds) => Some((d.world)(inner, bounds)),
        None => None,
    };
    let below = (level + 1) as u32;
    assert(view_builder::subtree_decision(placed, below, options, d.small)
        == view_builder::subtree_decision(placed, below, of_all_layers(options), d.small));
    assert(!(view_builder::subtree_decision(
        placed,
        below,
        options,
        d.small,
    ) is CollapseToProxy));
}

/// Limiting a view to a layer leaves out nothing but the shapes of other layers, and keeps the
/// others in order, as long as no marks stand for cells.
pub proof fn law_one_layer_is_shown_whole(
    bundle: LayoutBundle,
    options: LayoutViewBuildOptions,
    d: Placing,
    layer: LayerId,
)
    requires
        options.layer_filter == Some(layer),
        options.subtree_screen_lod is None,
    ensures
        view_builder::view_contribution(bundle, options, d) == view_builder::view_contribution(
            bundle,
            of_all_layers(options),
            d,
        ).filter(on_layer(layer)),
{
    reveal(Seq::filter);
    lemma_cell(bundle, options, d, Seq::empty(), options.root_cell_id, 0, layer);
}

} // verus!
