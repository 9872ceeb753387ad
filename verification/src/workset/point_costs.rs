//! The estimated points of a level are those of all the shapes that stand on it.

use crate::hierarchy;
use crate::hierarchy::LayoutHierarchyLevelCost;
use crate::layout;
use crate::layout::{LayoutBundle, LayoutCellId, LayoutInstance, LocalShape};
use crate::workset::counting;
use vstd::prelude::*;

verus! {

/// How many points the first `count` shapes have.
pub open spec fn first_points(shapes: Seq<LocalShape>, count: nat) -> nat
    decreases count,
{
    if count == 0 {
        0
    } else {
        shapes[count - 1].points.len() + first_points(shapes, (count - 1) as nat)
    }
}

/// How many points stand so many levels below a cell.
pub open spec fn points_below(bundle: LayoutBundle, id: LayoutCellId, depth: nat) -> nat
    decreases depth, 0nat,
{
    if depth == 0 {
        first_points(bundle.at(id).shapes, bundle.at(id).shapes.len())
    } else {
        points_in_instances(bundle, bundle.at(id).instances, (depth - 1) as nat)
    }
}

/// How many points stand so many levels below the cells of these instances: each copy of a cell
/// brings those of the cell.
pub open spec fn points_in_instances(
    bundle: LayoutBundle,
    instances: Seq<LayoutInstance>,
    depth: nat,
) -> nat
    decreases depth, instances.len() + 1,
{
    if instances.len() == 0 {
        0
    } else {
        let last = instances.last();
        points_in_instances(bundle, instances.drop_last(), depth) + last.rows() * (last.columns()
            * points_below(bundle, last.target_cell_id, depth))
    }
}

/// A count, no larger than the largest one.
spec fn held(count: nat) -> u64 {
    hierarchy::capped_sum(0, count as int)
}

/// Whether these are the numbers of points on the levels from a cell on down.
spec fn counts_levels(
    bundle: LayoutBundle,
    id: LayoutCellId,
    levels: Seq<LayoutHierarchyLevelCost>,
) -> bool {
    &&& levels.len() > 0
    &&& forall|depth: nat|
        #![trigger points_below(bundle, id, depth)]
        if depth < levels.len() {
            levels[depth as int].point_count == held(
                points_below(bundle, id, depth),
            )
        } else {
            points_below(bundle, id, depth) == 0
        }
}

/// Whether these are the numbers of points on the levels of a cell with these instances.
spec fn counts_instances(
    bundle: LayoutBundle,
    own: LayoutHierarchyLevelCost,
    instances: Seq<LayoutInstance>,
    levels: Seq<LayoutHierarchyLevelCost>,
) -> bool {
    &&& levels.len() > 0
    &&& levels[0].point_count == own.point_count
    &&& forall|depth: nat|
        #![trigger points_in_instances(bundle, instances, depth)]
        if depth + 1 < levels.len() {
            levels[depth as int + 1].point_count == held(
                points_in_instances(bundle, instances, depth),
            )
        } else {
            points_in_instances(bundle, instances, depth) == 0
        }
}

/// Whether all that is known of cells are the numbers of points on their levels.
spec fn knows_counts(
    bundle: LayoutBundle,
    known: Map<u64, Seq<LayoutHierarchyLevelCost>>,
) -> bool {
    forall|id: u64| #[trigger]
        known.dom().contains(id) ==> counts_levels(bundle, LayoutCellId(id), known[id])
}

/// Whether the cells that are being visited stand above the cell.
spec fn stand_above(stack: Set<u64>, rank: spec_fn(LayoutCellId) -> u32, id: LayoutCellId) -> bool {
    forall|s: u64| #[trigger] stack.contains(s) ==> rank(id) < rank(LayoutCellId(s))
}

proof fn lemma_first_points(shapes: Seq<LocalShape>)
    ensures
        first_points(shapes, shapes.len()) == hierarchy::local_points(shapes),
    decreases shapes.len(),
{
    if shapes.len() > 0 {
        let init = shapes.drop_last();
        lemma_first_points(init);
        lemma_first_points_of(init, shapes, init.len());
    }
}

proof fn lemma_first_points_of(a: Seq<LocalShape>, b: Seq<LocalShape>, count: nat)
    requires
        count <= a.len() <= b.len(),
        forall|k: int| 0 <= k < a.len() ==> #[trigger] a[k] == b[k],
    ensures
        first_points(a, count) == first_points(b, count),
    decreases count,
{
    if count > 0 {
        lemma_first_points_of(a, b, (count - 1) as nat);
        assert(a[count - 1] == b[count - 1]);
    }
}

proof fn lemma_countable(bundle: LayoutBundle, id: LayoutCellId)
    requires
        hierarchy::countable(bundle),
        bundle.has(id),
    ensures
        hierarchy::local_points(bundle.at(id).shapes) <= u64::MAX,
{
    let i = layout::cell_index(bundle.listed(), id);
    assert(bundle.listed()[i]@ == bundle.at(id));
}

/// Adding copies to a held count holds the sum.
proof fn lemma_held_sum(base: nat, more: nat, copies: nat)
    requires
        1 <= copies <= u64::MAX,
    ensures
        hierarchy::capped_sum(
            held(base) as int,
            hierarchy::capped_product(held(more) as int, copies as int) as int,
        ) == held(base + copies * more),
        copies * more >= more,
{
    let most = u64::MAX as int;
    assert(copies * more >= more) by (nonlinear_arith)
        requires
            copies >= 1,
    ;
    if more > most {
        assert(most * copies >= most) by (nonlinear_arith)
            requires
                copies >= 1,
                most >= 0,
        ;
    } else {
        assert(held(more) * copies == copies * more) by (nonlinear_arith)
            requires
                held(more) == more,
        ;
    }
}

/// The costs of a cell's levels count its points.
proof fn lemma_costs(
    bundle: LayoutBundle,
    rank: spec_fn(LayoutCellId) -> u32,
    id: LayoutCellId,
    known: Map<u64, Seq<LayoutHierarchyLevelCost>>,
    stack: Set<u64>,
)
    requires
        bundle.linked(),
        hierarchy::countable(bundle),
        hierarchy::ranked_by(bundle, rank),
        bundle.has(id),
        knows_counts(bundle, known),
        stand_above(stack, rank, id),
    ensures
        counts_levels(bundle, id, hierarchy::costs_below(bundle, id, known, stack).0),
        knows_counts(bundle, hierarchy::costs_below(bundle, id, known, stack).1),
    decreases rank(id), 1nat, 0nat,
{
    if known.dom().contains(id.0) {
        assert(LayoutCellId(id.0) == id);
    } else {
        if stack.contains(id.0) {
            assert(LayoutCellId(id.0) == id);
        }
        let cell = bundle.at(id);
        let own = hierarchy::own_cost(cell);
        let inner = stack.insert(id.0);
        hierarchy::lemma_unvisited_decreases(bundle, id, stack);
        assert forall|k: int| 0 <= k < cell.instances.len() implies {
            let target = (#[trigger] cell.instances[k]).target_cell_id;
            &&& bundle.has(target)
            &&& rank(target) < rank(id)
            &&& stand_above(inner, rank, target)
        } by {
            counting::lemma_target(bundle, id, k);
            let target = cell.instances[k].target_cell_id;
            assert(rank(bundle.at(id).instances[k].target_cell_id) < rank(id));
            assert forall|s: u64| #[trigger] inner.contains(s) implies rank(target) < rank(
                LayoutCellId(s),
            ) by {
                if s == id.0 {
                    assert(LayoutCellId(s) == id);
                } else {
                    assert(stack.contains(s));
                }
            }
        }
        lemma_costs_with_instances(
            bundle,
            rank,
            rank(id),
            own,
            cell.instances,
            known,
            inner,
        );
        let (levels, after) = hierarchy::costs_with_instances(
            bundle,
            own,
            cell.instances,
            known,
            inner,
        );
        lemma_countable(bundle, id);
        lemma_first_points(cell.shapes);
        assert forall|depth: nat|
            #![trigger points_below(bundle, id, depth)]
            if depth < levels.len() {
                levels[depth as int].point_count == held(
                    points_below(bundle, id, depth),
                )
            } else {
                points_below(bundle, id, depth) == 0
            } by {
            if depth > 0 {
                let below = (depth - 1) as nat;
                assert(points_below(bundle, id, depth)
                    == points_in_instances(bundle, cell.instances, below));
            }
        }
        assert(counts_levels(bundle, id, levels));
        assert(LayoutCellId(id.0) == id);
    }
}

proof fn lemma_costs_with_instances(
    bundle: LayoutBundle,
    rank: spec_fn(LayoutCellId) -> u32,
    limit: u32,
    own: LayoutHierarchyLevelCost,
    instances: Seq<LayoutInstance>,
    known: Map<u64, Seq<LayoutHierarchyLevelCost>>,
    stack: Set<u64>,
)
    requires
        bundle.linked(),
        hierarchy::countable(bundle),
        hierarchy::ranked_by(bundle, rank),
        knows_counts(bundle, known),
        forall|k: int| 0 <= k < instances.len() ==> {
            let target = (#[trigger] instances[k]).target_cell_id;
            &&& bundle.has(target)
            &&& rank(target) < limit
            &&& stand_above(stack, rank, target)
        },
    ensures
        counts_instances(
            bundle,
            own,
            instances,
            hierarchy::costs_with_instances(bundle, own, instances, known, stack).0,
        ),
        knows_counts(
            bundle,
            hierarchy::costs_with_instances(bundle, own, instances, known, stack).1,
        ),
    decreases limit, 0nat, instances.len(),
{
    if instances.len() > 0 {
        let head = instances.drop_last();
        let last = instances.last();
        assert(last == instances[instances.len() - 1]);
        assert forall|k: int| 0 <= k < head.len() implies {
            let target = (#[trigger] head[k]).target_cell_id;
            &&& bundle.has(target)
            &&& rank(target) < limit
            &&& stand_above(stack, rank, target)
        } by {
            assert(head[k] == instances[k]);
        }
        lemma_costs_with_instances(bundle, rank, limit, own, head, known, stack);
        let (levels, between) = hierarchy::costs_with_instances(
            bundle,
            own,
            head,
            known,
            stack,
        );
        lemma_costs(bundle, rank, last.target_cell_id, between, stack);
        let (child, after) = hierarchy::costs_below(bundle, last.target_cell_id, between, stack);
        let all = hierarchy::with_child_levels(levels, child, hierarchy::copies_of(last));
        assert forall|depth: nat|
            #![trigger points_in_instances(bundle, instances, depth)]
            if depth + 1 < all.len() {
                all[depth as int + 1].point_count == held(
                    points_in_instances(bundle, instances, depth),
                )
            } else {
                points_in_instances(bundle, instances, depth) == 0
            } by {
            lemma_one_more(bundle, own, instances, levels, child, depth);
        }
    }
}

/// The levels with those of one more instance count the points of all instances.
proof fn lemma_one_more(
    bundle: LayoutBundle,
    own: LayoutHierarchyLevelCost,
    instances: Seq<LayoutInstance>,
    levels: Seq<LayoutHierarchyLevelCost>,
    child: Seq<LayoutHierarchyLevelCost>,
    depth: nat,
)
    requires
        instances.len() > 0,
        counts_instances(bundle, own, instances.drop_last(), levels),
        counts_levels(bundle, instances.last().target_cell_id, child),
    ensures
        ({
            let all = hierarchy::with_child_levels(
                levels,
                child,
                hierarchy::copies_of(instances.last()),
            );
            if depth + 1 < all.len() {
                all[depth as int + 1].point_count == held(
                    points_in_instances(bundle, instances, depth),
                )
            } else {
                points_in_instances(bundle, instances, depth) == 0
            }
        }),
{
    let last = instances.last();
    let rows = last.rows();
    let columns = last.columns();
    let copies = hierarchy::copies_of(last);
    let base = points_in_instances(bundle, instances.drop_last(), depth);
    let more = points_below(bundle, last.target_cell_id, depth);
    assert(columns * rows <= u64::MAX) by (nonlinear_arith)
        requires
            columns <= u32::MAX,
            rows <= u32::MAX,
    ;
    assert(copies == columns * rows);
    assert(rows * (columns * more) == copies * more) by (nonlinear_arith)
        requires
            copies == columns * rows,
    ;
    assert(points_in_instances(bundle, instances, depth) == base + copies
        * more);
    if copies == 0 {
        assert(copies * more == 0) by (nonlinear_arith)
            requires
                copies == 0,
        ;
    } else {
        lemma_held_sum(base, more, copies as nat);
        if more == 0 {
            assert(copies * more == 0) by (nonlinear_arith)
                requires
                    more == 0,
            ;
        }
    }
}

/// In a layout whose cells do not use themselves, the estimated points of a level are those of all
/// the shapes that stand on it, in every copy of every cell, as far as sixty-four bits count;
/// levels without a cost have none.
pub proof fn law_costs_count_points(
    bundle: LayoutBundle,
    rank: spec_fn(LayoutCellId) -> u32,
    root: LayoutCellId,
    level: nat,
)
    requires
        bundle.linked(),
        hierarchy::countable(bundle),
        hierarchy::ranked_by(bundle, rank),
        bundle.has(root),
    ensures
        ({
            let levels = hierarchy::level_costs(bundle, root);
            let points = points_below(bundle, root, level);
            &&& level >= levels.len() ==> points == 0
            &&& level < levels.len() && points <= u64::MAX ==> levels[level as int].point_count
                == points
            &&& level < levels.len() && points > u64::MAX ==> levels[level as int].point_count
                == u64::MAX
        }),
{
    lemma_costs(bundle, rank, root, Map::empty(), Set::empty());
    let points = points_below(bundle, root, level);
}

} // verus!
