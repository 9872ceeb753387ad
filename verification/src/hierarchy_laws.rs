//! What holds of the levels of a layout and of what they cost.

use crate::hierarchy;
use crate::hierarchy::LayoutHierarchyLevelCost;
use crate::layout::{LayoutBundle, LayoutCellId};
use crate::scene::LayerId;
use vstd::prelude::*;

verus! {

/// Whether a cell uses another: one of its instances places it.
pub open spec fn uses(bundle: LayoutBundle, a: LayoutCellId, b: LayoutCellId) -> bool {
    bundle.has(a) && exists|k: int|
        0 <= k < bundle.at(a).instances.len() && (
        #[trigger] bundle.at(a).instances[k]).target_cell_id == b
}

/// Whether each of these cells uses the next, starting from a cell.
pub open spec fn is_chain(
    bundle: LayoutBundle,
    from: LayoutCellId,
    chain: Seq<LayoutCellId>,
) -> bool {
    &&& chain.len() > 0
    &&& chain[0] == from
    &&& forall|i: int| 0 <= i < chain.len() - 1 ==> #[trigger] is_link(bundle, chain, i)
}

/// Whether the cell at a place uses the next.
pub open spec fn is_link(bundle: LayoutBundle, chain: Seq<LayoutCellId>, i: int) -> bool {
    uses(bundle, chain[i], chain[i + 1])
}

proof fn lemma_chain_from(bundle: LayoutBundle, id: LayoutCellId, rest: Seq<LayoutCellId>)
    requires
        rest.len() > 0,
        uses(bundle, id, rest[0]),
        is_chain(bundle, rest[0], rest),
    ensures
        is_chain(bundle, id, seq![id] + rest),
{
    let chain = seq![id] + rest;
    assert forall|i: int| 0 <= i < chain.len() - 1 implies #[trigger] is_link(bundle, chain, i) by {
        assert(chain[i + 1] == rest[i]);
        if i > 0 {
            assert(chain[i] == rest[i - 1]);
            assert(is_link(bundle, rest, i - 1));
        }
    }
}

proof fn lemma_rest_of_chain(bundle: LayoutBundle, id: LayoutCellId, chain: Seq<LayoutCellId>)
    requires
        is_chain(bundle, id, chain),
        chain.len() > 1,
    ensures
        is_chain(bundle, chain[1], chain.skip(1)),
        uses(bundle, id, chain[1]),
{
    let rest = chain.skip(1);
    assert(is_link(bundle, chain, 0));
    assert forall|i: int| 0 <= i < rest.len() - 1 implies #[trigger] is_link(bundle, rest, i) by {
        assert(is_link(bundle, chain, i + 1));
        assert(rest[i] == chain[i + 1] && rest[i + 1] == chain[i + 2]);
    }
}

/// In a layout whose cells do not use themselves, the number of levels below a cell is that of the
/// steps of the longest chain down from it: there is such a chain, and no chain has more.
pub proof fn law_no_chain_is_longer(
    bundle: LayoutBundle,
    rank: spec_fn(LayoutCellId) -> u32,
    id: LayoutCellId,
    chain: Seq<LayoutCellId>,
)
    requires
        hierarchy::ranked_by(bundle, rank),
    ensures
        ({
            let depth = hierarchy::depth_below(bundle, id, Map::empty(), Set::empty()).0;
            &&& is_chain(bundle, id, chain) ==> chain.len() - 1 <= depth
            &&& exists|longest: Seq<LayoutCellId>| #[trigger]
                is_chain(bundle, id, longest) && longest.len() - 1 == depth
        }),
{
    hierarchy::law_depth_is_longest_chain(bundle, rank, id);
    let longest = lemma_longest(bundle, rank, id);
    if is_chain(bundle, id, chain) {
        lemma_chain_bound(bundle, rank, id, chain);
    }
}

proof fn lemma_longest(
    bundle: LayoutBundle,
    rank: spec_fn(LayoutCellId) -> u32,
    id: LayoutCellId,
) -> (chain: Seq<LayoutCellId>)
    requires
        hierarchy::ranked_by(bundle, rank),
    ensures
        is_chain(bundle, id, chain),
        chain.len() - 1 == hierarchy::height(bundle, rank, id),
    decreases rank(id), 1nat, 0nat,
{
    if bundle.has(id) {
        lemma_longest_of(bundle, rank, id, bundle.at(id).instances.len())
    } else {
        seq![id]
    }
}

proof fn lemma_longest_of(
    bundle: LayoutBundle,
    rank: spec_fn(LayoutCellId) -> u32,
    id: LayoutCellId,
    count: nat,
) -> (chain: Seq<LayoutCellId>)
    requires
        hierarchy::ranked_by(bundle, rank),
        bundle.has(id),
        count <= bundle.at(id).instances.len(),
    ensures
        is_chain(bundle, id, chain),
        chain.len() - 1 == hierarchy::height_of_instances(bundle, rank, id, count),
    decreases rank(id), 0nat, count,
{
    if count == 0 {
        seq![id]
    } else {
        let before = lemma_longest_of(bundle, rank, id, (count - 1) as nat);
        let target = bundle.at(id).instances[count - 1].target_cell_id;
        let rest = lemma_longest(bundle, rank, target);
        assert(uses(bundle, id, target));
        if rest.len() > before.len() - 1 {
            lemma_chain_from(bundle, id, rest);
            seq![id] + rest
        } else {
            before
        }
    }
}

proof fn lemma_chain_bound(
    bundle: LayoutBundle,
    rank: spec_fn(LayoutCellId) -> u32,
    id: LayoutCellId,
    chain: Seq<LayoutCellId>,
)
    requires
        hierarchy::ranked_by(bundle, rank),
        is_chain(bundle, id, chain),
    ensures
        chain.len() - 1 <= hierarchy::height(bundle, rank, id),
    decreases chain.len(),
{
    if chain.len() > 1 {
        lemma_rest_of_chain(bundle, id, chain);
        lemma_chain_bound(bundle, rank, chain[1], chain.skip(1));
        let k = choose|k: int|
            0 <= k < bundle.at(id).instances.len() && (
            #[trigger] bundle.at(id).instances[k]).target_cell_id == chain[1];
        lemma_height_over(bundle, rank, id, k, bundle.at(id).instances.len());
    }
}

proof fn lemma_height_over(
    bundle: LayoutBundle,
    rank: spec_fn(LayoutCellId) -> u32,
    id: LayoutCellId,
    k: int,
    count: nat,
)
    requires
        hierarchy::ranked_by(bundle, rank),
        bundle.has(id),
        0 <= k < count <= bundle.at(id).instances.len(),
    ensures
        hierarchy::height_of_instances(bundle, rank, id, count) >= 1 + hierarchy::height(
            bundle,
            rank,
            bundle.at(id).instances[k].target_cell_id,
        ),
    decreases count,
{
    if k < count - 1 {
        lemma_height_over(bundle, rank, id, k, (count - 1) as nat);
    }
}

/// Whether a chain of this many steps at least and at most leads from a cell to one with the layer.
pub open spec fn has_layer_below(
    bundle: LayoutBundle,
    id: LayoutCellId,
    layer: LayerId,
    least: int,
    most: int,
) -> bool {
    exists|chain: Seq<LayoutCellId>| #[trigger]
        is_chain(bundle, id, chain) && least <= chain.len() - 1 <= most && bundle.has(chain.last())
            && bundle.at(chain.last()).layers.contains(layer)
}

/// The layers of a range of levels are those of the cells that a chain with so many steps leads to
/// from the start.
pub proof fn law_layers_of_a_range(
    bundle: LayoutBundle,
    root: LayoutCellId,
    min_level: u32,
    max_level: u32,
    layer: LayerId,
)
    ensures
        hierarchy::layer_in_range(bundle, root, 0, min_level, max_level, layer) <==>
            has_layer_below(bundle, root, layer, min_level as int, max_level as int),
{
    lemma_layer_below(bundle, root, 0, min_level, max_level, layer);
}

proof fn lemma_layer_below(
    bundle: LayoutBundle,
    id: LayoutCellId,
    level: u32,
    min_level: u32,
    max_level: u32,
    layer: LayerId,
)
    ensures
        hierarchy::layer_in_range(bundle, id, level, min_level, max_level, layer) <==>
            has_layer_below(bundle, id, layer, min_level - level, max_level - level),
    decreases max_level - level,
{
    let found = hierarchy::layer_in_range(bundle, id, level, min_level, max_level, layer);
    let least = min_level - level;
    let most = max_level - level;
    if found {
        if min_level <= level <= max_level && bundle.at(id).layers.contains(layer) {
            let chain = seq![id];
            assert(is_chain(bundle, id, chain));
            assert(chain.last() == id);
        } else {
            let k = choose|k: int|
                0 <= k < bundle.at(id).instances.len() && hierarchy::layer_in_range(
                    bundle,
                    (#[trigger] bundle.at(id).instances[k]).target_cell_id,
                    (level + 1) as u32,
                    min_level,
                    max_level,
                    layer,
                );
            let target = bundle.at(id).instances[k].target_cell_id;
            lemma_layer_below(bundle, target, (level + 1) as u32, min_level, max_level, layer);
            let rest = choose|chain: Seq<LayoutCellId>| #[trigger]
                is_chain(bundle, target, chain) && least - 1 <= chain.len() - 1 <= most - 1
                    && bundle.has(chain.last()) && bundle.at(chain.last()).layers.contains(layer);
            lemma_chain_from(bundle, id, rest);
            let chain = seq![id] + rest;
            assert(chain.last() == rest.last());
            assert(is_chain(bundle, id, chain));
        }
    }
    if has_layer_below(bundle, id, layer, least, most) {
        let chain = choose|chain: Seq<LayoutCellId>| #[trigger]
            is_chain(bundle, id, chain) && least <= chain.len() - 1 <= most && bundle.has(
                chain.last(),
            ) && bundle.at(chain.last()).layers.contains(layer);
        if chain.len() == 1 {
            assert(chain.last() == id);
        } else {
            let rest = chain.skip(1);
            lemma_rest_of_chain(bundle, id, chain);
            assert(rest.last() == chain.last());
            lemma_layer_below(
                bundle,
                chain[1],
                (level + 1) as u32,
                min_level,
                max_level,
                layer,
            );
            assert(is_chain(bundle, chain[1], rest));
            assert(has_layer_below(bundle, chain[1], layer, least - 1, most - 1));
            let k = choose|k: int|
                0 <= k < bundle.at(id).instances.len() && (
                #[trigger] bundle.at(id).instances[k]).target_cell_id == chain[1];
            assert(hierarchy::layer_in_range(
                bundle,
                bundle.at(id).instances[k].target_cell_id,
                (level + 1) as u32,
                min_level,
                max_level,
                layer,
            ));
        }
    }
}

/// What the levels from one on and before another cost together.
pub open spec fn together(
    levels: Seq<LayoutHierarchyLevelCost>,
    from: int,
    to: int,
) -> (int, int)
    decreases to - from,
{
    if from >= to {
        (0, 0)
    } else {
        let rest = together(levels, from + 1, to);
        (levels[from].shape_count + rest.0, levels[from].point_count + rest.1)
    }
}

proof fn lemma_together_push(levels: Seq<LayoutHierarchyLevelCost>, from: int, to: int)
    requires
        from < to,
    ensures
        together(levels, from, to) == (
            together(levels, from, to - 1).0 + levels[to - 1].shape_count,
            together(levels, from, to - 1).1 + levels[to - 1].point_count,
        ),
    decreases to - from,
{
    reveal_with_fuel(together, 2);
    if from < to - 1 {
        lemma_together_push(levels, from + 1, to);
    }
}

proof fn lemma_first_levels(levels: Seq<LayoutHierarchyLevelCost>, count: int)
    requires
        count >= 0,
    ensures
        together(levels, 0, count) == (
            hierarchy::shapes_on(levels, count),
            hierarchy::points_on(levels, count),
        ),
    decreases count,
{
    if count > 0 {
        lemma_first_levels(levels, count - 1);
        lemma_together_push(levels, 0, count);
    }
}

/// Whether so many shapes and points are too many for a first view.
pub open spec fn is_too_much(cost: (int, int)) -> bool {
    cost.0 > 3_000_000 || cost.1 > 20_000_000
}

/// A first view goes as deep as its budget allows: the levels it shows cost no more, unless it is
/// one level only, and with the next level, where there is one, they would.
pub proof fn law_first_view_keeps_to_its_budget(levels: Seq<LayoutHierarchyLevelCost>)
    requires
        levels.len() > 0,
    ensures
        ({
            let deepest = hierarchy::affordable_level(levels);
            &&& 0 <= deepest < levels.len()
            &&& deepest > 0 ==> !is_too_much(together(levels, 0, deepest + 1))
            &&& deepest < levels.len() - 1 ==> is_too_much(together(levels, 0, deepest + 2))
        }),
{
    let over = |level: int| hierarchy::over_budget(levels, level);
    crate::seqs::lemma_least_from_is(1, levels.len() as int, over);
    let deepest = hierarchy::affordable_level(levels);
    lemma_first_levels(levels, deepest + 1);
    lemma_first_levels(levels, deepest + 2);
    if deepest > 0 {
        assert(!over(deepest));
    }
    if deepest < levels.len() - 1 {
        assert(over(deepest + 1));
    }
}

/// A range of levels costs what the levels from its first to its last one cost together, as far as
/// sixty-four bits count; levels that are not there cost nothing.
pub proof fn law_range_costs(
    levels: Seq<LayoutHierarchyLevelCost>,
    min_level: u32,
    max_level: u32,
)
    ensures
        ({
            let cost = hierarchy::range_cost(levels, min_level, max_level);
            let from = min_level as int;
            let to = if max_level < levels.len() {
                max_level + 1
            } else {
                levels.len() as int
            };
            let (shapes, points) = together(levels, from, to);
            &&& cost.shape_count == (if shapes > u64::MAX {
                u64::MAX as int
            } else {
                shapes
            })
            &&& cost.point_count == (if points > u64::MAX {
                u64::MAX as int
            } else {
                points
            })
        }),
{
    let kept = hierarchy::in_range(levels, min_level, max_level);
    lemma_range(levels, min_level, max_level, levels.len() as int);
    let to = if max_level < levels.len() {
        max_level + 1
    } else {
        levels.len() as int
    };
    lemma_together_grows(levels, min_level as int, to);
}

proof fn lemma_together_grows(levels: Seq<LayoutHierarchyLevelCost>, from: int, to: int)
    ensures
        together(levels, from, to).0 >= 0,
        together(levels, from, to).1 >= 0,
    decreases to - from,
{
    if from < to {
        lemma_together_grows(levels, from + 1, to);
    }
}

proof fn lemma_range(
    levels: Seq<LayoutHierarchyLevelCost>,
    min_level: u32,
    max_level: u32,
    count: int,
)
    requires
        0 <= count <= levels.len(),
    ensures
        ({
            let kept = hierarchy::in_range(levels, min_level, max_level);
            let to = if max_level < count {
                max_level + 1
            } else {
                count
            };
            (hierarchy::shapes_on(kept, count), hierarchy::points_on(kept, count)) == together(
                levels,
                min_level as int,
                to,
            )
        }),
    decreases count,
{
    let kept = hierarchy::in_range(levels, min_level, max_level);
    if count > 0 {
        lemma_range(levels, min_level, max_level, count - 1);
        if min_level <= count - 1 <= max_level {
            lemma_together_push(levels, min_level as int, count);
            assert(kept[count - 1] == levels[count - 1]);
        } else {
            assert(kept[count - 1] == hierarchy::no_cost());
        }
    }
}

/// A range is drawn without being flattened just where it costs more than three million shapes or
/// twenty million points.
pub proof fn law_large_ranges_are_not_flattened(cost: LayoutHierarchyLevelCost)
    ensures
        hierarchy::too_large_to_flatten(cost) <==> is_too_much(
            (cost.shape_count as int, cost.point_count as int),
        ),
{
}

} // verus!
