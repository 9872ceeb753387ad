//! How many shapes of a kind a view shows on a level.

use crate::layout;
use crate::layout::{LayoutBundle, LayoutCellId, LayoutInstance};
use crate::view_builder;
use crate::view_builder::{
    LayoutViewBuildOptions, PlacementStep, Placing, SubtreeExpansionDecision, ViewShapeModel,
};
use vstd::prelude::*;

verus! {

/// A view of all levels in a range, of all layers, wherever they are.
pub open spec fn shows_all(options: LayoutViewBuildOptions) -> bool {
    &&& options.visible_world_bounds is None
    &&& options.subtree_screen_lod is None
    &&& options.layer_filter is None
}

/// Which shapes of a view are shapes of cells of the kind, on a level.
pub open spec fn kept_on(keep: spec_fn(LayoutCellId, int) -> bool, level: u32) -> spec_fn(
    ViewShapeModel,
) -> bool {
    |shape: ViewShapeModel|
        shape.hierarchy_level == level && (shape.shape_index matches Some(index) && keep(
            shape.cell_id,
            index,
        ))
}

/// How many of the first shapes of a cell are of the kind.
pub open spec fn kept_shapes(
    keep: spec_fn(LayoutCellId, int) -> bool,
    id: LayoutCellId,
    count: nat,
) -> nat
    decreases count,
{
    if count == 0 {
        0
    } else {
        kept_shapes(keep, id, (count - 1) as nat) + (if keep(id, count - 1) {
            1nat
        } else {
            0nat
        })
    }
}

/// How many shapes of the kind stand so many levels below a cell.
pub open spec fn kept_below(
    bundle: LayoutBundle,
    keep: spec_fn(LayoutCellId, int) -> bool,
    id: LayoutCellId,
    depth: nat,
) -> nat
    decreases depth, 0nat,
{
    if depth == 0 {
        kept_shapes(keep, id, bundle.at(id).shapes.len())
    } else {
        kept_in_instances(bundle, keep, bundle.at(id).instances, (depth - 1) as nat)
    }
}

/// How many shapes of the kind stand so many levels below the cells of these instances.
pub open spec fn kept_in_instances(
    bundle: LayoutBundle,
    keep: spec_fn(LayoutCellId, int) -> bool,
    instances: Seq<LayoutInstance>,
    depth: nat,
) -> nat
    decreases depth, instances.len() + 1,
{
    if instances.len() == 0 {
        0
    } else {
        let last = instances.last();
        kept_in_instances(bundle, keep, instances.drop_last(), depth) + last.rows() * (
        last.columns() * kept_below(bundle, keep, last.target_cell_id, depth))
    }
}

/// What is so far below another is on the level; nothing above it is.
pub open spec fn on_level(level: u32, above: nat, count: spec_fn(nat) -> nat) -> nat {
    if level >= above {
        count((level - above) as nat)
    } else {
        0
    }
}

pub proof fn lemma_filter_add<A>(a: Seq<A>, b: Seq<A>, p: spec_fn(A) -> bool)
    ensures
        (a + b).filter(p).len() == a.filter(p).len() + b.filter(p).len(),
{
    Seq::filter_distributes_over_add(a, b, p);
}

proof fn lemma_own(
    bundle: LayoutBundle,
    options: LayoutViewBuildOptions,
    d: Placing,
    path: Seq<PlacementStep>,
    id: LayoutCellId,
    at: u32,
    count: nat,
    keep: spec_fn(LayoutCellId, int) -> bool,
    level: u32,
)
    requires
        shows_all(options),
        options.min_hierarchy_level <= level <= options.max_hierarchy_level,
    ensures
        view_builder::own_contribution(bundle, options, d, path, id, at, count).filter(
            kept_on(keep, level),
        ).len() == (if at == level {
            kept_shapes(keep, id, count)
        } else {
            0
        }),
    decreases count,
{
    reveal(Seq::filter);
    if count > 0 && options.min_hierarchy_level <= at <= options.max_hierarchy_level {
        lemma_own(bundle, options, d, path, id, at, (count - 1) as nat, keep, level);
        let head = view_builder::own_contribution(
            bundle,
            options,
            d,
            path,
            id,
            at,
            (count - 1) as nat,
        );
        let all = view_builder::own_contribution(bundle, options, d, path, id, at, count);
        assert(all.drop_last() =~= head);
    }
}

/// The view of a cell shows as many shapes of the kind on each level as stand so far below it.
pub proof fn lemma_cell_counts(
    bundle: LayoutBundle,
    options: LayoutViewBuildOptions,
    d: Placing,
    path: Seq<PlacementStep>,
    id: LayoutCellId,
    at: u32,
    keep: spec_fn(LayoutCellId, int) -> bool,
    level: u32,
)
    requires
        shows_all(options),
        options.min_hierarchy_level <= level <= options.max_hierarchy_level,
        bundle.linked(),
        bundle.has(id),
        at <= options.max_hierarchy_level,
    ensures
        view_builder::cell_contribution(bundle, options, d, path, id, at).filter(
            kept_on(keep, level),
        ).len() == on_level(
            level,
            at as nat,
            |depth: nat| kept_below(bundle, keep, id, depth),
        ),
    decreases options.max_hierarchy_level - at, 4nat, 0nat,
{
    let shapes = bundle.at(id).shapes.len();
    let instances = bundle.at(id).instances;
    let own = view_builder::own_contribution(bundle, options, d, path, id, at, shapes);
    lemma_own(bundle, options, d, path, id, at, shapes, keep, level);
    if at < options.max_hierarchy_level {
        let below = view_builder::instances_contribution(
            bundle,
            options,
            d,
            path,
            id,
            at,
            instances.len(),
        );
        lemma_instances(bundle, options, d, path, id, at, instances.len(), keep, level);
        assert(instances.take(instances.len() as int) =~= instances);
        lemma_filter_add(own, below, kept_on(keep, level));
    } else {
        assert(own + Seq::<ViewShapeModel>::empty() =~= own);
    }
}

proof fn lemma_instances(
    bundle: LayoutBundle,
    options: LayoutViewBuildOptions,
    d: Placing,
    path: Seq<PlacementStep>,
    id: LayoutCellId,
    at: u32,
    count: nat,
    keep: spec_fn(LayoutCellId, int) -> bool,
    level: u32,
)
    requires
        shows_all(options),
        options.min_hierarchy_level <= level <= options.max_hierarchy_level,
        bundle.linked(),
        bundle.has(id),
        at < options.max_hierarchy_level,
        count <= bundle.at(id).instances.len(),
    ensures
        view_builder::instances_contribution(bundle, options, d, path, id, at, count).filter(
            kept_on(keep, level),
        ).len() == on_level(
            level,
            at as nat + 1,
            |depth: nat|
                kept_in_instances(
                    bundle,
                    keep,
                    bundle.at(id).instances.take(count as int),
                    depth,
                ),
        ),
    decreases options.max_hierarchy_level - at, 3nat, count,
{
    reveal(Seq::filter);
    let instances = bundle.at(id).instances;
    if count > 0 {
        let used = instances[count - 1];
        let head = view_builder::instances_contribution(
            bundle,
            options,
            d,
            path,
            id,
            at,
            (count - 1) as nat,
        );
        let rows = view_builder::rows_contribution(
            bundle,
            options,
            d,
            path,
            id,
            at,
            count - 1,
            used.rows(),
        );
        lemma_instances(bundle, options, d, path, id, at, (count - 1) as nat, keep, level);
        lemma_rows(bundle, options, d, path, id, at, count - 1, used.rows(), keep, level);
        assert(instances.take(count as int).drop_last() =~= instances.take(count - 1));
        assert(instances.take(count as int).last() == used);
        lemma_filter_add(head, rows, kept_on(keep, level));
    }
}

proof fn lemma_rows(
    bundle: LayoutBundle,
    options: LayoutViewBuildOptions,
    d: Placing,
    path: Seq<PlacementStep>,
    id: LayoutCellId,
    at: u32,
    instance: int,
    count: nat,
    keep: spec_fn(LayoutCellId, int) -> bool,
    level: u32,
)
    requires
        shows_all(options),
        options.min_hierarchy_level <= level <= options.max_hierarchy_level,
        bundle.linked(),
        bundle.has(id),
        at < options.max_hierarchy_level,
        0 <= instance < bundle.at(id).instances.len(),
    ensures
        view_builder::rows_contribution(bundle, options, d, path, id, at, instance, count).filter(
            kept_on(keep, level),
        ).len() == on_level(
            level,
            at as nat + 1,
            |depth: nat|
                count * (bundle.at(id).instances[instance].columns() * kept_below(
                    bundle,
                    keep,
                    bundle.at(id).instances[instance].target_cell_id,
                    depth,
                )),
        ),
    decreases options.max_hierarchy_level - at, 2nat, count,
{
    reveal(Seq::filter);
    let used = bundle.at(id).instances[instance];
    if count == 0 {
        assert forall|n: nat| #[trigger] (0 * n) == 0 by {}
    } else {
        let head = view_builder::rows_contribution(
            bundle,
            options,
            d,
            path,
            id,
            at,
            instance,
            (count - 1) as nat,
        );
        let row = view_builder::columns_contribution(
            bundle,
            options,
            d,
            path,
            id,
            at,
            instance,
            count - 1,
            used.columns(),
        );
        lemma_rows(bundle, options, d, path, id, at, instance, (count - 1) as nat, keep, level);
        lemma_columns(
            bundle,
            options,
            d,
            path,
            id,
            at,
            instance,
            count - 1,
            used.columns(),
            keep,
            level,
        );
        lemma_filter_add(head, row, kept_on(keep, level));
        if level >= at + 1 {
            let each = used.columns() * kept_below(
                bundle,
                keep,
                used.target_cell_id,
                (level - (at + 1)) as nat,
            );
            assert((count - 1) * each + each == count * each) by (nonlinear_arith);
        }
    }
}

proof fn lemma_columns(
    bundle: LayoutBundle,
    options: LayoutViewBuildOptions,
    d: Placing,
    path: Seq<PlacementStep>,
    id: LayoutCellId,
    at: u32,
    instance: int,
    row: int,
    count: nat,
    keep: spec_fn(LayoutCellId, int) -> bool,
    level: u32,
)
    requires
        shows_all(options),
        options.min_hierarchy_level <= level <= options.max_hierarchy_level,
        bundle.linked(),
        bundle.has(id),
        at < options.max_hierarchy_level,
        0 <= instance < bundle.at(id).instances.len(),
    ensures
        view_builder::columns_contribution(
            bundle,
            options,
            d,
            path,
            id,
            at,
            instance,
            row,
            count,
        ).filter(kept_on(keep, level)).len() == on_level(
            level,
            at as nat + 1,
            |depth: nat|
                count * kept_below(
                    bundle,
                    keep,
                    bundle.at(id).instances[instance].target_cell_id,
                    depth,
                ),
        ),
    decreases options.max_hierarchy_level - at, 1nat, count,
{
    reveal(Seq::filter);
    let used = bundle.at(id).instances[instance];
    if count == 0 {
        assert forall|n: nat| #[trigger] (0 * n) == 0 by {}
    } else {
        let target = used.target_cell_id;
        let head = view_builder::columns_contribution(
            bundle,
            options,
            d,
            path,
            id,
            at,
            instance,
            row,
            (count - 1) as nat,
        );
        let copy = view_builder::copy_contribution(
            bundle,
            options,
            d,
            path,
            id,
            at,
            instance,
            row,
            count - 1,
        );
        lemma_columns(
            bundle,
            options,
            d,
            path,
            id,
            at,
            instance,
            row,
            (count - 1) as nat,
            keep,
            level,
        );
        lemma_target(bundle, id, instance);
        let inner = path.push(
            PlacementStep { instance: instance as usize, row: row as u32, col: (count - 1) as u32 },
        );
        let placed = match bundle.at(target).bounds {
            Some(bounds) => Some((d.world)(inner, bounds)),
            None => None,
        };
        assert(view_builder::subtree_decision(placed, (at + 1) as u32, options, d.small)
            == SubtreeExpansionDecision::Expand);
        assert(copy == view_builder::cell_contribution(
            bundle,
            options,
            d,
            inner,
            target,
            (at + 1) as u32,
        ));
        lemma_cell_counts(bundle, options, d, inner, target, (at + 1) as u32, keep, level);
        lemma_filter_add(head, copy, kept_on(keep, level));
        if level >= at + 1 {
            let each = kept_below(bundle, keep, target, (level - (at + 1)) as nat);
            assert((count - 1) * each + each == count * each) by (nonlinear_arith);
        }
    }
}

/// An instance of a layout uses a cell of the layout.
pub proof fn lemma_target(bundle: LayoutBundle, id: LayoutCellId, instance: int)
    requires
        bundle.linked(),
        bundle.has(id),
        0 <= instance < bundle.at(id).instances.len(),
    ensures
        bundle.has(bundle.at(id).instances[instance].target_cell_id),
{
    let cells = bundle.listed();
    let at = layout::cell_index(cells, id);
    assert(!layout::has_dangling(cells, cells[at]@));
    assert(!layout::dangles(cells, cells[at]@.instances[instance]));
}

} // verus!
