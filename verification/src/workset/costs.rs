//! The estimated cost of a level is the number of shapes that a view shows on it.

use crate::hierarchy;
use crate::hierarchy::LayoutHierarchyLevelCost;
use crate::layout;
use crate::layout::{LayoutBundle, LayoutCellId, LayoutInstance};
use crate::view_builder;
use crate::view_builder::{LayoutViewBuildOptions, Placing};
use crate::workset::counting;
use vstd::prelude::*;

verus! {

/// Every shape of every cell.
pub open spec fn any_shape() -> spec_fn(LayoutCellId, int) -> bool {
    |id: LayoutCellId, index: int| true
}

/// A count, no larger than the largest one.
spec fn held(count: nat) -> u64 {
    hierarchy::capped_sum(0, count as int)
}

/// Whether these are the numbers of shapes on the levels from a cell on down.
spec fn counts_levels(
    bundle: LayoutBundle,
    id: LayoutCellId,
    levels: Seq<LayoutHierarchyLevelCost>,
) -> bool {
    &&& levels.len() > 0
    &&& forall|depth: nat|
        #![trigger counting::kept_below(bundle, any_shape(), id, depth)]
        if depth < levels.len() {
            levels[depth as int].shape_count == held(
                counting::kept_below(bundle, any_shape(), id, depth),
            )
        } else {
            counting::kept_below(bundle, any_shape(), id, depth) == 0
        }
}

/// Whether these are the numbers of shapes on the levels of a cell with these instances.
spec fn counts_instances(
    bundle: LayoutBundle,
    own: LayoutHierarchyLevelCost,
    instances: Seq<LayoutInstance>,
    levels: Seq<LayoutHierarchyLevelCost>,
) -> bool {
    &&& levels.len() > 0
    &&& levels[0].shape_count == own.shape_count
    &&& forall|depth: nat|
        #![trigger counting::kept_in_instances(bundle, any_shape(), instances, depth)]
        if depth + 1 < levels.len() {
            levels[depth as int + 1].shape_count == held(
                counting::kept_in_instances(bundle, any_shape(), instances, depth),
            )
        } else {
            counting::kept_in_instances(bundle, any_shape(), instances, depth) == 0
        }
}

/// Whether all that is known of cells are the numbers of shapes on their levels.
spec fn knows_counts(
    bundle: LayoutBundle,
    known: Map<u64, Seq<LayoutHierarchyLevelCost>>,
) -> bool {
    forall|id: u64| #[trigger]
        known.dom().contains(id) ==> counts_levels(bundle, LayoutCellId(id), known[id])
}

/// Whether the cells that are being visited stand above the cell.
spec fn stand_above(stack: Set<u64>, rank: spec_fn(LayoutCellId) -> u32, id: LayoutCellId) -> bool {
    forall|s: u64| #[trigger] stack.contains(s) ==> rank(id) < rank(LayoutCellId(s))
}

proof fn lemma_every_shape(id: LayoutCellId, count: nat)
    ensures
        counting::kept_shapes(any_shape(), id, count) == count,
    decreases count,
{
    if count > 0 {
        lemma_every_shape(id, (count - 1) as nat);
    }
}

/// Adding copies to a held count holds the sum.
proof fn lemma_held_sum(base: nat, more: nat, copies: nat)
    requires
        1 <= copies <= u64::MAX,
    ensures
        hierarchy::capped_sum(
            held(base) as int,
            hierarchy::capped_product(held(more) as int, copies as int) as int,
        ) == held(base + copies * more),
        copies * more >= more,
{
    let most = u64::MAX as int;
    assert(copies * more >= more) by (nonlinear_arith)
        requires
            copies >= 1,
    ;
    if more > most {
        assert(most * copies >= most) by (nonlinear_arith)
            requires
                copies >= 1,
                most >= 0,
        ;
    } else {
        assert(held(more) * copies == copies * more) by (nonlinear_arith)
            requires
                held(more) == more,
        ;
    }
}

/// The costs of a cell's levels count its shapes.
proof fn lemma_costs(
    bundle: LayoutBundle,
    rank: spec_fn(LayoutCellId) -> u32,
    id: LayoutCellId,
    known: Map<u64, Seq<LayoutHierarchyLevelCost>>,
    stack: Set<u64>,
)
    requires
        bundle.linked(),
        hierarchy::ranked_by(bundle, rank),
        bundle.has(id),
        knows_counts(bundle, known),
        stand_above(stack, rank, id),
    ensures
        counts_levels(bundle, id, hierarchy::costs_below(bundle, id, known, stack).0),
        knows_counts(bundle, hierarchy::costs_below(bundle, id, known, stack).1),
    decreases rank(id), 1nat, 0nat,
{
    if known.dom().contains(id.0) {
        assert(LayoutCellId(id.0) == id);
    } else {
        if stack.contains(id.0) {
            assert(LayoutCellId(id.0) == id);
        }
        let cell = bundle.at(id);
        let own = hierarchy::own_cost(cell);
        let inner = stack.insert(id.0);
        hierarchy::lemma_unvisited_decreases(bundle, id, stack);
        assert forall|k: int| 0 <= k < cell.instances.len() implies {
            let target = (#[trigger] cell.instances[k]).target_cell_id;
            &&& bundle.has(target)
            &&& rank(target) < rank(id)
            &&& stand_above(inner, rank, target)
        } by {
            counting::lemma_target(bundle, id, k);
            let target = cell.instances[k].target_cell_id;
            assert(rank(bundle.at(id).instances[k].target_cell_id) < rank(id));
            assert forall|s: u64| #[trigger] inner.contains(s) implies rank(target) < rank(
                LayoutCellId(s),
            ) by {
                if s == id.0 {
                    assert(LayoutCellId(s) == id);
                } else {
                    assert(stack.contains(s));
                }
            }
        }
        lemma_costs_with_instances(
            bundle,
            rank,
            rank(id),
            own,
            cell.instances,
            known,
            inner,
        );
        let (levels, after) = hierarchy::costs_with_instances(
            bundle,
            own,
            cell.instances,
            known,
            inner,
        );
        layout::lemma_shape_count(bundle, id);
        lemma_every_shape(id, cell.shapes.len());
        assert forall|depth: nat|
            #![trigger counting::kept_below(bundle, any_shape(), id, depth)]
            if depth < levels.len() {
                levels[depth as int].shape_count == held(
                    counting::kept_below(bundle, any_shape(), id, depth),
                )
            } else {
                counting::kept_below(bundle, any_shape(), id, depth) == 0
            } by {
            if depth > 0 {
                let below = (depth - 1) as nat;
                assert(counting::kept_below(bundle, any_shape(), id, depth)
                    == counting::kept_in_instances(
                    bundle,
                    any_shape(),
                    cell.instances,
                    below,
                ));
            }
        }
        assert(counts_levels(bundle, id, levels));
        assert(LayoutCellId(id.0) == id);
    }
}

proof fn lemma_costs_with_instances(
    bundle: LayoutBundle,
    rank: spec_fn(LayoutCellId) -> u32,
    limit: u32,
    own: LayoutHierarchyLevelCost,
    instances: Seq<LayoutInstance>,
    known: Map<u64, Seq<LayoutHierarchyLevelCost>>,
    stack: Set<u64>,
)
    requires
        bundle.linked(),
        hierarchy::ranked_by(bundle, rank),
        knows_counts(bundle, known),
        forall|k: int| 0 <= k < instances.len() ==> {
            let target = (#[trigger] instances[k]).target_cell_id;
            &&& bundle.has(target)
            &&& rank(target) < limit
            &&& stand_above(stack, rank, target)
        },
    ensures
        counts_instances(
            bundle,
            own,
            instances,
            hierarchy::costs_with_instances(bundle, own, instances, known, stack).0,
        ),
        knows_counts(
            bundle,
            hierarchy::costs_with_instances(bundle, own, instances, known, stack).1,
        ),
    decreases limit, 0nat, instances.len(),
{
    if instances.len() > 0 {
        let head = instances.drop_last();
        let last = instances.last();
        assert(last == instances[instances.len() - 1]);
        assert forall|k: int| 0 <= k < head.len() implies {
            let target = (#[trigger] head[k]).target_cell_id;
            &&& bundle.has(target)
            &&& rank(target) < limit
            &&& stand_above(stack, rank, target)
        } by {
            assert(head[k] == instances[k]);
        }
        lemma_costs_with_instances(bundle, rank, limit, own, head, known, stack);
        let (levels, between) = hierarchy::costs_with_instances(
            bundle,
            own,
            head,
            known,
            stack,
        );
        lemma_costs(bundle, rank, last.target_cell_id, between, stack);
        let (child, after) = hierarchy::costs_below(bundle, last.target_cell_id, between, stack);
        let all = hierarchy::with_child_levels(levels, child, hierarchy::copies_of(last));
        assert forall|depth: nat|
            #![trigger counting::kept_in_instances(bundle, any_shape(), instances, depth)]
            if depth + 1 < all.len() {
                all[depth as int + 1].shape_count == held(
                    counting::kept_in_instances(bundle, any_shape(), instances, depth),
                )
            } else {
                counting::kept_in_instances(bundle, any_shape(), instances, depth) == 0
            } by {
            lemma_one_more(bundle, own, instances, levels, child, depth);
        }
    }
}

/// The levels with those of one more instance count the shapes of all instances.
proof fn lemma_one_more(
    bundle: LayoutBundle,
    own: LayoutHierarchyLevelCost,
    instances: Seq<LayoutInstance>,
    levels: Seq<LayoutHierarchyLevelCost>,
    child: Seq<LayoutHierarchyLevelCost>,
    depth: nat,
)
    requires
        instances.len() > 0,
        counts_instances(bundle, own, instances.drop_last(), levels),
        counts_levels(bundle, instances.last().target_cell_id, child),
    ensures
        ({
            let all = hierarchy::with_child_levels(
                levels,
                child,
                hierarchy::copies_of(instances.last()),
            );
            if depth + 1 < all.len() {
                all[depth as int + 1].shape_count == held(
                    counting::kept_in_instances(bundle, any_shape(), instances, depth),
                )
            } else {
                counting::kept_in_instances(bundle, any_shape(), instances, depth) == 0
            }
        }),
{
    let last = instances.last();
    let rows = last.rows();
    let columns = last.columns();
    let copies = hierarchy::copies_of(last);
    let base = counting::kept_in_instances(bundle, any_shape(), instances.drop_last(), depth);
    let more = counting::kept_below(bundle, any_shape(), last.target_cell_id, depth);
    assert(columns * rows <= u64::MAX) by (nonlinear_arith)
        requires
            columns <= u32::MAX,
            rows <= u32::MAX,
    ;
    assert(copies == columns * rows);
    assert(rows * (columns * more) == copies * more) by (nonlinear_arith)
        requires
            copies == columns * rows,
    ;
    assert(counting::kept_in_instances(bundle, any_shape(), instances, depth) == base + copies
        * more);
    if copies == 0 {
        assert(copies * more == 0) by (nonlinear_arith)
            requires
                copies == 0,
        ;
    } else {
        lemma_held_sum(base, more, copies as nat);
        if more == 0 {
            assert(copies * more == 0) by (nonlinear_arith)
                requires
                    more == 0,
            ;
        }
    }
}

/// In a layout whose cells do not use themselves, the estimated cost of a level is the number of
/// shapes that a view of the level shows, as far as sixty-four bits count; levels without a cost
/// show none.
pub proof fn law_costs_count_shapes(
    bundle: LayoutBundle,
    rank: spec_fn(LayoutCellId) -> u32,
    options: LayoutViewBuildOptions,
    d: Placing,
    level: u32,
)
    requires
        bundle.linked(),
        hierarchy::ranked_by(bundle, rank),
        bundle.has(options.root_cell_id),
        counting::shows_all(options),
        options.min_hierarchy_level <= level <= options.max_hierarchy_level,
    ensures
        ({
            let levels = hierarchy::level_costs(bundle, options.root_cell_id);
            let shown = view_builder::view_contribution(bundle, options, d).filter(
                counting::kept_on(any_shape(), level),
            ).len();
            if level < levels.len() {
                levels[level as int].shape_count == hierarchy::capped_sum(0, shown as int)
            } else {
                shown == 0
            }
        }),
{
    let root = options.root_cell_id;
    lemma_costs(bundle, rank, root, Map::empty(), Set::empty());
    counting::lemma_cell_counts(
        bundle,
        options,
        d,
        Seq::empty(),
        root,
        0,
        any_shape(),
        level,
    );
    let below = counting::kept_below(bundle, any_shape(), root, level as nat);
}

} // verus!
