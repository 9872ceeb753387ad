//! Leaving out what cannot be seen hides nothing.

use crate::layout::{LayoutBundle, LayoutCellId};
use crate::scene;
use crate::scene::Bounds;
use crate::view_builder;
use crate::view_builder::{LayoutViewBuildOptions, PlacementStep, Placing, ViewShapeModel};
use vstd::prelude::*;

verus! {

/// The rectangle of a cell, placed along a path.
pub open spec fn placed_cell(
    bundle: LayoutBundle,
    d: Placing,
    path: Seq<PlacementStep>,
    id: LayoutCellId,
) -> Option<Bounds> {
    match bundle.at(id).bounds {
        Some(bounds) => Some((d.world)(path, bounds)),
        None => None,
    }
}

/// Whether a placed shape lies within the placed rectangle of its cell.
pub open spec fn shape_is_enclosed(
    bundle: LayoutBundle,
    d: Placing,
    path: Seq<PlacementStep>,
    id: LayoutCellId,
    index: int,
) -> bool {
    placed_cell(bundle, d, path, id) matches Some(outer) && scene::within(
        (d.shape)(path, id, index),
        outer,
    )
}

/// Whether the placed rectangle of the cell that an instance uses lies within that of the cell
/// that holds the instance.
pub open spec fn instance_is_enclosed(
    bundle: LayoutBundle,
    d: Placing,
    path: Seq<PlacementStep>,
    id: LayoutCellId,
    instance: int,
    step: PlacementStep,
) -> bool {
    placed_cell(
        bundle,
        d,
        path.push(step),
        bundle.at(id).instances[instance].target_cell_id,
    ) matches Some(inner) ==> placed_cell(bundle, d, path, id) matches Some(outer)
        && scene::within(inner, outer)
}

/// Whether the placed rectangle of every cell is around all that the cell holds.
pub open spec fn encloses(bundle: LayoutBundle, d: Placing) -> bool {
    &&& forall|path: Seq<PlacementStep>, id: LayoutCellId, index: int|
        bundle.has(id) && 0 <= index < bundle.at(id).shapes.len() ==> #[trigger] shape_is_enclosed(
            bundle,
            d,
            path,
            id,
            index,
        )
    &&& forall|path: Seq<PlacementStep>, id: LayoutCellId, instance: int, step: PlacementStep|
        bundle.has(id) && 0 <= instance < bundle.at(id).instances.len()
            ==> #[trigger] instance_is_enclosed(bundle, d, path, id, instance, step)
}

/// Whether all shapes fill the rectangle or lie within it.
spec fn all_inside(shapes: Seq<ViewShapeModel>, outer: Option<Bounds>) -> bool {
    forall|k: int|
        0 <= k < shapes.len() ==> outer is Some && ((#[trigger] shapes[k]).bounds == outer->0
            || scene::within(shapes[k].bounds, outer->0))
}

/// The view without a limit on what is seen.
pub open spec fn unlimited(options: LayoutViewBuildOptions) -> LayoutViewBuildOptions {
    LayoutViewBuildOptions { visible_world_bounds: None, ..options }
}

/// Whether a shape meets the area.
pub open spec fn meets(area: Bounds) -> spec_fn(ViewShapeModel) -> bool {
    |shape: ViewShapeModel| scene::bounds_meet(shape.bounds, area)
}

proof fn lemma_none_meets(shapes: Seq<ViewShapeModel>, outer: Option<Bounds>, area: Bounds)
    requires
        all_inside(shapes, outer),
        outer matches Some(bounds) ==> !scene::bounds_meet(bounds, area),
    ensures
        shapes.filter(meets(area)) == Seq::<ViewShapeModel>::empty(),
    decreases shapes.len(),
{
    reveal(Seq::filter);
    if shapes.len() > 0 {
        let init = shapes.drop_last();
        assert forall|k: int| 0 <= k < init.len() implies outer is Some && ((
        #[trigger] init[k]).bounds == outer->0 || scene::within(init[k].bounds, outer->0)) by {
            assert(init[k] == shapes[k]);
        }
        lemma_none_meets(init, outer, area);
        let last = shapes[shapes.len() - 1];
        assert(last.bounds == outer->0 || scene::within(last.bounds, outer->0));
    }
}

proof fn lemma_own_inside(
    bundle: LayoutBundle,
    options: LayoutViewBuildOptions,
    d: Placing,
    path: Seq<PlacementStep>,
    id: LayoutCellId,
    level: u32,
    count: nat,
)
    requires
        encloses(bundle, d),
        bundle.has(id),
        options.visible_world_bounds is None,
        count <= bundle.at(id).shapes.len(),
    ensures
        all_inside(
            view_builder::own_contribution(bundle, options, d, path, id, level, count),
            placed_cell(bundle, d, path, id),
        ),
    decreases count,
{
    if count > 0 {
        lemma_own_inside(bundle, options, d, path, id, level, (count - 1) as nat);
        assert(shape_is_enclosed(bundle, d, path, id, count - 1));
    }
}

proof fn lemma_cell_inside(
    bundle: LayoutBundle,
    options: LayoutViewBuildOptions,
    d: Placing,
    path: Seq<PlacementStep>,
    id: LayoutCellId,
    level: u32,
)
    requires
        encloses(bundle, d),
        bundle.has(id),
        options.visible_world_bounds is None,
        level <= options.max_hierarchy_level,
    ensures
        all_inside(
            view_builder::cell_contribution(bundle, options, d, path, id, level),
            placed_cell(bundle, d, path, id),
        ),
    decreases options.max_hierarchy_level - level, 4nat, 0nat,
{
    lemma_own_inside(bundle, options, d, path, id, level, bundle.at(id).shapes.len());
    if level < options.max_hierarchy_level {
        lemma_instances_inside(
            bundle,
            options,
            d,
            path,
            id,
            level,
            bundle.at(id).instances.len(),
        );
    }
}

proof fn lemma_instances_inside(
    bundle: LayoutBundle,
    options: LayoutViewBuildOptions,
    d: Placing,
    path: Seq<PlacementStep>,
    id: LayoutCellId,
    level: u32,
    count: nat,
)
    requires
        encloses(bundle, d),
        bundle.has(id),
        options.visible_world_bounds is None,
        level < options.max_hierarchy_level,
        count <= bundle.at(id).instances.len(),
    ensures
        all_inside(
            view_builder::instances_contribution(bundle, options, d, path, id, level, count),
            placed_cell(bundle, d, path, id),
        ),
    decreases options.max_hierarchy_level - level, 3nat, count,
{
    if count > 0 {
        lemma_instances_inside(bundle, options, d, path, id, level, (count - 1) as nat);
        lemma_rows_inside(
            bundle,
            options,
            d,
            path,
            id,
            level,
            count - 1,
            bundle.at(id).instances[count - 1].rows(),
        );
    }
}

proof fn lemma_rows_inside(
    bundle: LayoutBundle,
    options: LayoutViewBuildOptions,
    d: Placing,
    path: Seq<PlacementStep>,
    id: LayoutCellId,
    level: u32,
    instance: int,
    rows: nat,
)
    requires
        encloses(bundle, d),
        bundle.has(id),
        options.visible_world_bounds is None,
        level < options.max_hierarchy_level,
        0 <= instance < bundle.at(id).instances.len(),
    ensures
        all_inside(
            view_builder::rows_contribution(bundle, options, d, path, id, level, instance, rows),
            placed_cell(bundle, d, path, id),
        ),
    decreases options.max_hierarchy_level - level, 2nat, rows,
{
    if rows > 0 {
        lemma_rows_inside(bundle, options, d, path, id, level, instance, (rows - 1) as nat);
        lemma_columns_inside(
            bundle,
            options,
            d,
            path,
            id,
            level,
            instance,
            rows - 1,
            bundle.at(id).instances[instance].columns(),
        );
    }
}

proof fn lemma_columns_inside(
    bundle: LayoutBundle,
    options: LayoutViewBuildOptions,
    d: Placing,
    path: Seq<PlacementStep>,
    id: LayoutCellId,
    level: u32,
    instance: int,
    row: int,
    columns: nat,
)
    requires
        encloses(bundle, d),
        bundle.has(id),
        options.visible_world_bounds is None,
        level < options.max_hierarchy_level,
        0 <= instance < bundle.at(id).instances.len(),
    ensures
        all_inside(
            view_builder::columns_contribution(
                bundle,
                options,
                d,
                path,
                id,
                level,
                instance,
                row,
                columns,
            ),
            placed_cell(bundle, d, path, id),
        ),
    decreases options.max_hierarchy_level - level, 1nat, columns,
{
    if columns > 0 {
        lemma_columns_inside(
            bundle,
            options,
            d,
            path,
            id,
            level,
            instance,
            row,
            (columns - 1) as nat,
        );
        lemma_copy_inside(bundle, options, d, path, id, level, instance, row, columns - 1);
    }
}

proof fn lemma_copy_inside(
    bundle: LayoutBundle,
    options: LayoutViewBuildOptions,
    d: Placing,
    path: Seq<PlacementStep>,
    id: LayoutCellId,
    level: u32,
    instance: int,
    row: int,
    col: int,
)
    requires
        encloses(bundle, d),
        bundle.has(id),
        options.visible_world_bounds is None,
        level < options.max_hierarchy_level,
        0 <= instance < bundle.at(id).instances.len(),
    ensures
        all_inside(
            view_builder::copy_contribution(
                bundle,
                options,
                d,
                path,
                id,
                level,
                instance,
                row,
                col,
            ),
            placed_cell(bundle, d, path, id),
        ),
    decreases options.max_hierarchy_level - level, 0nat, 0nat,
{
    let target = bundle.at(id).instances[instance].target_cell_id;
    if bundle.has(target) {
        let step = PlacementStep { instance: instance as usize, row: row as u32, col: col as u32 };
        let below = (level + 1) as u32;
        lemma_cell_inside(bundle, options, d, path.push(step), target, below);
        assert(instance_is_enclosed(bundle, d, path, id, instance, step));
    }
}

proof fn lemma_own_culled(
    bundle: LayoutBundle,
    options: LayoutViewBuildOptions,
    d: Placing,
    path: Seq<PlacementStep>,
    id: LayoutCellId,
    level: u32,
    count: nat,
    area: Bounds,
)
    requires
        encloses(bundle, d),
        bundle.has(id),
        options.visible_world_bounds == Some(area),
        count <= bundle.at(id).shapes.len(),
    ensures
        view_builder::own_contribution(
            bundle,
            options,
            d,
            path,
            id,
            level,
            count,
        ) == view_builder::own_contribution(
            bundle,
            unlimited(options),
            d,
            path,
            id,
            level,
            count,
        ).filter(meets(area)),
    decreases count,
{
    reveal(Seq::filter);
    let all = view_builder::own_contribution(
        bundle,
        unlimited(options),
        d,
        path,
        id,
        level,
        count,
    );
    if count > 0 {
        lemma_own_culled(bundle, options, d, path, id, level, (count - 1) as nat, area);
        let head = view_builder::own_contribution(
            bundle,
            unlimited(options),
            d,
            path,
            id,
            level,
            (count - 1) as nat,
        );
        if all.len() > head.len() {
            assert(all.drop_last() =~= head);
        }
    }
}

proof fn lemma_cell_culled(
    bundle: LayoutBundle,
    options: LayoutViewBuildOptions,
    d: Placing,
    path: Seq<PlacementStep>,
    id: LayoutCellId,
    level: u32,
    area: Bounds,
)
    requires
        encloses(bundle, d),
        bundle.has(id),
        options.visible_world_bounds == Some(area),
        level <= options.max_hierarchy_level,
    ensures
        view_builder::cell_contribution(
            bundle,
            options,
            d,
            path,
            id,
            level,
        ) == view_builder::cell_contribution(
            bundle,
            unlimited(options),
            d,
            path,
            id,
            level,
        ).filter(meets(area)),
    decreases options.max_hierarchy_level - level, 4nat, 0nat,
{
    let wide = unlimited(options);
    let shapes = bundle.at(id).shapes.len();
    let count = bundle.at(id).instances.len();
    lemma_own_culled(bundle, options, d, path, id, level, shapes, area);
    let own = view_builder::own_contribution(bundle, wide, d, path, id, level, shapes);
    if level < options.max_hierarchy_level {
        lemma_instances_culled(bundle, options, d, path, id, level, count, area);
        let used = view_builder::instances_contribution(bundle, wide, d, path, id, level, count);
        Seq::filter_distributes_over_add(own, used, meets(area));
    } else {
        let none = Seq::<ViewShapeModel>::empty();
        assert(own + none =~= own);
        let kept = view_builder::own_contribution(bundle, options, d, path, id, level, shapes);
        assert(kept + none =~= kept);
    }
}

proof fn lemma_instances_culled(
    bundle: LayoutBundle,
    options: LayoutViewBuildOptions,
    d: Placing,
    path: Seq<PlacementStep>,
    id: LayoutCellId,
    level: u32,
    count: nat,
    area: Bounds,
)
    requires
        encloses(bundle, d),
        bundle.has(id),
        options.visible_world_bounds == Some(area),
        level < options.max_hierarchy_level,
        count <= bundle.at(id).instances.len(),
    ensures
        view_builder::instances_contribution(
            bundle,
            options,
            d,
            path,
            id,
            level,
            count,
        ) == view_builder::instances_contribution(
            bundle,
            unlimited(options),
            d,
            path,
            id,
            level,
            count,
        ).filter(meets(area)),
    decreases options.max_hierarchy_level - level, 3nat, count,
{
    let wide = unlimited(options);
    if count > 0 {
        let before = (count - 1) as nat;
        let rows = bundle.at(id).instances[count - 1].rows();
        lemma_instances_culled(bundle, options, d, path, id, level, before, area);
        lemma_rows_culled(bundle, options, d, path, id, level, count - 1, rows, area);
        Seq::filter_distributes_over_add(
            view_builder::instances_contribution(bundle, wide, d, path, id, level, before),
            view_builder::rows_contribution(bundle, wide, d, path, id, level, count - 1, rows),
            meets(area),
        );
    } else {
        reveal(Seq::filter);
    }
}

proof fn lemma_rows_culled(
    bundle: LayoutBundle,
    options: LayoutViewBuildOptions,
    d: Placing,
    path: Seq<PlacementStep>,
    id: LayoutCellId,
    level: u32,
    instance: int,
    rows: nat,
    area: Bounds,
)
    requires
        encloses(bundle, d),
        bundle.has(id),
        options.visible_world_bounds == Some(area),
        level < options.max_hierarchy_level,
        0 <= instance < bundle.at(id).instances.len(),
    ensures
        view_builder::rows_contribution(
            bundle,
            options,
            d,
            path,
            id,
            level,
            instance,
            rows,
        ) == view_builder::rows_contribution(
            bundle,
            unlimited(options),
            d,
            path,
            id,
            level,
            instance,
            rows,
        ).filter(meets(area)),
    decreases options.max_hierarchy_level - level, 2nat, rows,
{
    let wide = unlimited(options);
    if rows > 0 {
        let before = (rows - 1) as nat;
        let columns = bundle.at(id).instances[instance].columns();
        lemma_rows_culled(bundle, options, d, path, id, level, instance, before, area);
        lemma_columns_culled(
            bundle,
            options,
            d,
            path,
            id,
            level,
            instance,
            rows - 1,
            columns,
            area,
        );
        Seq::filter_distributes_over_add(
            view_builder::rows_contribution(bundle, wide, d, path, id, level, instance, before),
            view_builder::columns_contribution(
                bundle,
                wide,
                d,
                path,
                id,
                level,
                instance,
                rows - 1,
                columns,
            ),
            meets(area),
        );
    } else {
        reveal(Seq::filter);
    }
}

proof fn lemma_columns_culled(
    bundle: LayoutBundle,
    options: LayoutViewBuildOptions,
    d: Placing,
    path: Seq<PlacementStep>,
    id: LayoutCellId,
    level: u32,
    instance: int,
    row: int,
    columns: nat,
    area: Bounds,
)
    requires
        encloses(bundle, d),
        bundle.has(id),
        options.visible_world_bounds == Some(area),
        level < options.max_hierarchy_level,
        0 <= instance < bundle.at(id).instances.len(),
    ensures
        view_builder::columns_contribution(
            bundle,
            options,
            d,
            path,
            id,
            level,
            instance,
            row,
            columns,
        ) == view_builder::columns_contribution(
            bundle,
            unlimited(options),
            d,
            path,
            id,
            level,
            instance,
            row,
            columns,
        ).filter(meets(area)),
    decreases options.max_hierarchy_level - level, 1nat, columns,
{
    let wide = unlimited(options);
    if columns > 0 {
        let before = (columns - 1) as nat;
        lemma_columns_culled(
            bundle,
            options,
            d,
            path,
            id,
            level,
            instance,
            row,
            before,
            area,
        );
        lemma_copy_culled(bundle, options, d, path, id, level, instance, row, columns - 1, area);
        Seq::filter_distributes_over_add(
            view_builder::columns_contribution(
                bundle,
                wide,
                d,
                path,
                id,
                level,
                instance,
                row,
                before,
            ),
            view_builder::copy_contribution(
                bundle,
                wide,
                d,
                path,
                id,
                level,
                instance,
                row,
                columns - 1,
            ),
            meets(area),
        );
    } else {
        reveal(Seq::filter);
    }
}

proof fn lemma_copy_culled(
    bundle: LayoutBundle,
    options: LayoutViewBuildOptions,
    d: Placing,
    path: Seq<PlacementStep>,
    id: LayoutCellId,
    level: u32,
    instance: int,
    row: int,
    col: int,
    area: Bounds,
)
    requires
        encloses(bundle, d),
        bundle.has(id),
        options.visible_world_bounds == Some(area),
        level < options.max_hierarchy_level,
        0 <= instance < bundle.at(id).instances.len(),
    ensures
        view_builder::copy_contribution(
            bundle,
            options,
            d,
            path,
            id,
            level,
            instance,
            row,
            col,
        ) == view_builder::copy_contribution(
            bundle,
            unlimited(options),
            d,
            path,
            id,
            level,
            instance,
            row,
            col,
        ).filter(meets(area)),
    decreases options.max_hierarchy_level - level, 0nat, 0nat,
{
    let wide = unlimited(options);
    let target = bundle.at(id).instances[instance].target_cell_id;
    let step = PlacementStep { instance: instance as usize, row: row as u32, col: col as u32 };
    let inner = path.push(step);
    let below = (level + 1) as u32;
    let all = view_builder::copy_contribution(
        bundle,
        wide,
        d,
        path,
        id,
        level,
        instance,
        row,
        col,
    );
    if !bundle.has(target) {
        reveal(Seq::filter);
    } else {
        let placed = placed_cell(bundle, d, inner, target);
        if !view_builder::counts_as_visible(placed, Some(area)) {
            lemma_cell_inside(bundle, wide, d, inner, target, below);
            assert(all_inside(all, placed));
            lemma_none_meets(all, placed, area);
        } else {
            lemma_cell_culled(bundle, options, d, inner, target, below, area);
            let decision = view_builder::subtree_decision(placed, below, options, d.small);
            assert(decision == view_builder::subtree_decision(placed, below, wide, d.small));
            if decision is CollapseToProxy {
                reveal(Seq::filter);
                if all.len() > 0 {
                    assert(all.drop_last() =~= Seq::empty());
                }
            }
        }
    }
}

/// Limiting a view to an area leaves out nothing but the shapes that do not meet it, and keeps the
/// others in order, as long as the placed rectangle of every cell is around all that the cell
/// holds.
pub proof fn law_culling_hides_nothing(
    bundle: LayoutBundle,
    options: LayoutViewBuildOptions,
    d: Placing,
    area: Bounds,
)
    requires
        encloses(bundle, d),
        bundle.has(options.root_cell_id),
        options.visible_world_bounds == Some(area),
    ensures
        view_builder::view_contribution(bundle, options, d) == view_builder::view_contribution(
            bundle,
            unlimited(options),
            d,
        ).filter(meets(area)),
{
    let root = options.root_cell_id;
    let none = Seq::<PlacementStep>::empty();
    let placed = placed_cell(bundle, d, none, root);
    lemma_cell_inside(bundle, unlimited(options), d, none, root, 0);
    lemma_cell_culled(bundle, options, d, none, root, 0, area);
    if !view_builder::counts_as_visible(placed, Some(area)) {
        lemma_none_meets(
            view_builder::cell_contribution(bundle, unlimited(options), d, none, root, 0),
            placed,
            area,
        );
    }
}

} // verus!
