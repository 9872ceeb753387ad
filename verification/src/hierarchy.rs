//! How deep a layout goes, and what its levels cost.

use crate::layout;
use crate::layout::{LayoutBundle, LayoutCellId, LayoutInstance, LayoutRepetition};
use std::collections::{HashMap, HashSet};
use vstd::prelude::*;

verus! {

broadcast use vstd::std_specs::hash::group_hash_axioms;

/// How many cells of the layout are not being visited.
pub open spec fn unvisited(bundle: LayoutBundle, stack: Set<u64>) -> nat {
    bundle.listed().filter(|cell: std::sync::Arc<layout::LayoutCell>| !stack.contains(cell@.id.0)).len()
}

proof fn lemma_filter_fewer<A>(s: Seq<A>, p: spec_fn(A) -> bool, q: spec_fn(A) -> bool, at: int)
    requires
        0 <= at < s.len(),
        p(s[at]),
        !q(s[at]),
        forall|x: A| #[trigger] q(x) ==> p(x),
    ensures
        s.filter(q).len() < s.filter(p).len(),
    decreases s.len(),
{
    reveal(Seq::filter);
    let init = s.drop_last();
    if at == s.len() - 1 {
        lemma_filter_no_more(init, p, q);
    } else {
        lemma_filter_fewer(init, p, q, at);
    }
}

proof fn lemma_filter_no_more<A>(s: Seq<A>, p: spec_fn(A) -> bool, q: spec_fn(A) -> bool)
    requires
        forall|x: A| #[trigger] q(x) ==> p(x),
    ensures
        s.filter(q).len() <= s.filter(p).len(),
    decreases s.len(),
{
    reveal(Seq::filter);
    if s.len() > 0 {
        lemma_filter_no_more(s.drop_last(), p, q);
    }
}

/// Visiting one more cell leaves fewer.
pub proof fn lemma_unvisited_decreases(bundle: LayoutBundle, id: LayoutCellId, stack: Set<u64>)
    requires
        bundle.has(id),
        !stack.contains(id.0),
    ensures
        unvisited(bundle, stack.insert(id.0)) < unvisited(bundle, stack),
{
    let cells = bundle.listed();
    let at = layout::cell_index(cells, id);
    lemma_filter_fewer(
        cells,
        |cell: std::sync::Arc<layout::LayoutCell>| !stack.contains(cell@.id.0),
        |cell: std::sync::Arc<layout::LayoutCell>| !stack.insert(id.0).contains(cell@.id.0),
        at,
    );
}

/// How many levels lie below a cell, and what is then known of all cells.
///
/// A cell that is known already is not visited again; a cell that is being visited counts as
/// having no level below it.
pub open spec fn depth_below(
    bundle: LayoutBundle,
    id: LayoutCellId,
    known: Map<u64, u32>,
    stack: Set<u64>,
) -> (int, Map<u64, u32>)
    decreases unvisited(bundle, stack), 0int,
{
    if known.dom().contains(id.0) {
        (known[id.0] as int, known)
    } else if stack.contains(id.0) {
        (0, known)
    } else if !bundle.has(id) {
        (0, known.insert(id.0, 0))
    } else {
        proof {
            lemma_unvisited_decreases(bundle, id, stack);
        }
        let (depth, after) = depth_of_instances(
            bundle,
            bundle.at(id).instances,
            known,
            stack.insert(id.0),
        );
        (depth, after.insert(id.0, depth as u32))
    }
}

/// How many levels a list of instances leads down, and what is then known of all cells.
pub open spec fn depth_of_instances(
    bundle: LayoutBundle,
    instances: Seq<LayoutInstance>,
    known: Map<u64, u32>,
    stack: Set<u64>,
) -> (int, Map<u64, u32>)
    decreases unvisited(bundle, stack), instances.len(),
{
    if instances.len() == 0 {
        (0, known)
    } else {
        let (depth, between) = depth_of_instances(bundle, instances.drop_last(), known, stack);
        let (below, after) = depth_below(
            bundle,
            instances.last().target_cell_id,
            between,
            stack,
        );
        (if 1 + below > depth { 1 + below } else { depth }, after)
    }
}

/// The numbers of all cells.
pub open spec fn cell_ids(bundle: LayoutBundle) -> Set<u64> {
    bundle.listed().map_values(|cell: std::sync::Arc<layout::LayoutCell>| cell@.id.0).to_set()
}

proof fn lemma_cell_ids(bundle: LayoutBundle)
    requires
        bundle.linked(),
    ensures
        cell_ids(bundle).finite(),
        cell_ids(bundle).len() == bundle.listed().len(),
        forall|id: LayoutCellId| #![trigger bundle.has(id)]
            bundle.has(id) <==> cell_ids(bundle).contains(id.0),
{
    let cells = bundle.listed();
    let ids = cells.map_values(|cell: std::sync::Arc<layout::LayoutCell>| cell@.id.0);
    assert forall|i: int, j: int| 0 <= i < ids.len() && 0 <= j < ids.len() && i != j implies ids[i]
        != ids[j] by {
        if i < j {
            assert(cells[i]@.id.0 < cells[j]@.id.0);
        } else {
            assert(cells[j]@.id.0 < cells[i]@.id.0);
        }
    }
    ids.unique_seq_to_set();
    vstd::seq_lib::seq_to_set_is_finite(ids);
    assert forall|id: LayoutCellId| #![trigger bundle.has(id)]
        bundle.has(id) <==> cell_ids(bundle).contains(id.0) by {
        if bundle.has(id) {
            let k = layout::cell_index(cells, id);
            assert(ids[k] == id.0);
            assert(ids.contains(id.0));
        }
        if cell_ids(bundle).contains(id.0) {
            let k = choose|k: int| 0 <= k < ids.len() && ids[k] == id.0;
            assert(cells[k]@.id == id);
        }
    }
}

/// Whether the sizes of what is known of the cells stay below their number: cells are known one
/// by one, none of them while it is being visited.
spec fn bounded<V>(
    bundle: LayoutBundle,
    known: Map<u64, V>,
    stack: Set<u64>,
    size: spec_fn(V) -> int,
) -> bool {
    &&& known.dom().subset_of(cell_ids(bundle))
    &&& known.dom().finite()
    &&& forall|id: u64| known.dom().contains(id) ==> !stack.contains(id)
    &&& forall|id: u64| #![trigger known[id]]
        known.dom().contains(id) ==> 0 <= size(known[id]) <= known.dom().len()
}

/// Where a cell is being visited, fewer are known than there are.
proof fn lemma_bounded<V>(
    bundle: LayoutBundle,
    known: Map<u64, V>,
    stack: Set<u64>,
    size: spec_fn(V) -> int,
    id: LayoutCellId,
)
    requires
        bundle.linked(),
        bundle.has(id),
        stack.contains(id.0),
        bounded(bundle, known, stack, size),
    ensures
        known.dom().len() < bundle.listed().len(),
{
    lemma_cell_ids(bundle);
    let rest = cell_ids(bundle).remove(id.0);
    assert(known.dom().subset_of(rest));
    vstd::set_lib::lemma_len_subset(known.dom(), rest);
}

fn visit_depth(
    bundle: &LayoutBundle,
    id: LayoutCellId,
    known: &mut HashMap<u64, u32>,
    stack: &mut HashSet<u64>,
) -> (depth: u32)
    requires
        bundle.linked(),
        bundle.has(id),
        bundle.listed().len() <= u32::MAX,
        bounded(*bundle, old(known)@, old(stack)@, |depth: u32| depth as int),
    ensures
        (depth as int, final(known)@) == depth_below(*bundle, id, old(known)@, old(stack)@),
        final(stack)@ == old(stack)@,
        bounded(*bundle, final(known)@, final(stack)@, |depth: u32| depth as int),
        depth <= final(known)@.dom().len(),
        old(known)@.dom().len() <= final(known)@.dom().len(),
    decreases unvisited(*bundle, old(stack)@),
{
    let ghost size = |depth: u32| depth as int;
    if let Some(depth) = known.get(&id.0) {
        return *depth;
    }
    if !stack.insert(id.0) {
        assert(stack@ =~= old(stack)@);
        return 0;
    }
    proof {
        lemma_unvisited_decreases(*bundle, id, old(stack)@);
        lemma_cell_ids(*bundle);
    }
    let ghost inner = stack@;
    let mut depth: u32 = 0;
    if let Some(cell) = bundle.cell(id) {
        let instances = cell.instances();
        let mut i: usize = 0;
        assert(instances@.take(0) =~= Seq::empty());
        while i < instances.len()
            invariant
                i <= instances@.len(),
                bundle.linked(),
                bundle.has(id),
                bundle.listed().len() <= u32::MAX,
                instances@ == bundle.at(id).instances,
                stack@ == inner,
                inner == old(stack)@.insert(id.0),
                unvisited(*bundle, inner) < unvisited(*bundle, old(stack)@),
                size == (|depth: u32| depth as int),
                bounded(*bundle, known@, inner, size),
                depth <= known@.dom().len() + 1,
                old(known)@.dom().len() <= known@.dom().len(),
                (depth as int, known@) == depth_of_instances(
                    *bundle,
                    instances@.take(i as int),
                    old(known)@,
                    inner,
                ),
            decreases instances@.len() - i,
        {
            let target = instances[i].target_cell_id();
            proof {
                assert(instances@.take(i + 1).drop_last() =~= instances@.take(i as int));
                let at = layout::cell_index(bundle.listed(), id);
                assert(!layout::has_dangling(bundle.listed(), bundle.listed()[at]@));
                assert(!layout::dangles(bundle.listed(), bundle.at(id).instances[i as int]));
            }
            let below: u32 = visit_depth(bundle, target, known, stack);
            proof {
                lemma_bounded(*bundle, known@, inner, size, id);
            }
            if 1 + below > depth {
                depth = 1 + below;
            }
            i += 1;
        }
        assert(instances@.take(i as int) =~= instances@);
    }
    stack.remove(&id.0);
    assert(stack@ =~= old(stack)@);
    known.insert(id.0, depth);
    depth
}

/// The number of levels below a cell: how many instances lead down from it at most.
pub fn compute_layout_root_max_hierarchy_level(
    bundle: &LayoutBundle,
    root_cell_id: LayoutCellId,
) -> (level: u32)
    requires
        bundle.listed().len() <= u32::MAX,
    ensures
        level == depth_below(*bundle, root_cell_id, Map::empty(), Set::empty()).0,
{
    let _cells = bundle.cells();
    if bundle.cell(root_cell_id).is_none() {
        return 0;
    }
    let mut known: HashMap<u64, u32> = HashMap::new();
    let mut stack: HashSet<u64> = HashSet::new();
    visit_depth(bundle, root_cell_id, &mut known, &mut stack)
}

/// Whether cells can be ranked so that every instance leads to a lower rank: no cell uses itself,
/// directly or through others.
pub open spec fn ranked_by(bundle: LayoutBundle, rank: spec_fn(LayoutCellId) -> u32) -> bool {
    forall|id: LayoutCellId, k: int|
        bundle.has(id) && 0 <= k < bundle.at(id).instances.len() ==> rank(
            (#[trigger] bundle.at(id).instances[k]).target_cell_id,
        ) < rank(id)
}

/// The length of the longest chain of instances down from a cell.
pub open spec fn height(
    bundle: LayoutBundle,
    rank: spec_fn(LayoutCellId) -> u32,
    id: LayoutCellId,
) -> nat
    decreases rank(id), 1nat, 0nat,
    when ranked_by(bundle, rank)
{
    if bundle.has(id) {
        height_of_instances(bundle, rank, id, bundle.at(id).instances.len())
    } else {
        0
    }
}

/// The length of the longest chain down from a cell that starts with one of its first instances.
pub open spec fn height_of_instances(
    bundle: LayoutBundle,
    rank: spec_fn(LayoutCellId) -> u32,
    id: LayoutCellId,
    count: nat,
) -> nat
    decreases rank(id), 0nat, count,
    when ranked_by(bundle, rank) && bundle.has(id) && count <= bundle.at(id).instances.len()
{
    if count == 0 {
        0
    } else {
        let head = height_of_instances(bundle, rank, id, (count - 1) as nat);
        let target = bundle.at(id).instances[count - 1].target_cell_id;
        let below = 1 + height(bundle, rank, target);
        if below > head {
            below
        } else {
            head
        }
    }
}

proof fn lemma_height_of_instances_bound(
    bundle: LayoutBundle,
    rank: spec_fn(LayoutCellId) -> u32,
    id: LayoutCellId,
    count: nat,
)
    requires
        ranked_by(bundle, rank),
        bundle.has(id),
        count <= bundle.at(id).instances.len(),
    ensures
        height_of_instances(bundle, rank, id, count) <= rank(id),
    decreases rank(id), 0nat, count,
{
    if count > 0 {
        lemma_height_of_instances_bound(bundle, rank, id, (count - 1) as nat);
        let target = bundle.at(id).instances[count - 1].target_cell_id;
        if bundle.has(target) {
            lemma_height_of_instances_bound(
                bundle,
                rank,
                target,
                bundle.at(target).instances.len(),
            );
        }
        assert(height(bundle, rank, target) <= rank(target));
    }
}

/// Whether what is known of the cells are their heights.
spec fn knows_heights(
    bundle: LayoutBundle,
    rank: spec_fn(LayoutCellId) -> u32,
    known: Map<u64, u32>,
) -> bool {
    forall|id: u64| #![trigger known[id]]
        known.dom().contains(id) ==> known[id] == height(bundle, rank, LayoutCellId(id))
}

proof fn lemma_depth_is_height(
    bundle: LayoutBundle,
    rank: spec_fn(LayoutCellId) -> u32,
    id: LayoutCellId,
    known: Map<u64, u32>,
    stack: Set<u64>,
)
    requires
        ranked_by(bundle, rank),
        knows_heights(bundle, rank, known),
        forall|s: u64| stack.contains(s) ==> rank(LayoutCellId(s)) > rank(id),
    ensures
        depth_below(bundle, id, known, stack).0 == height(bundle, rank, id),
        knows_heights(bundle, rank, depth_below(bundle, id, known, stack).1),
    decreases rank(id), 1nat, 0nat,
{
    assert(LayoutCellId(id.0) == id);
    if !known.dom().contains(id.0) && !stack.contains(id.0) && bundle.has(id) {
        let instances = bundle.at(id).instances;
        lemma_depth_of_instances_is_height(
            bundle,
            rank,
            id,
            instances.len(),
            known,
            stack.insert(id.0),
        );
        assert(instances.take(instances.len() as int) =~= instances);
        lemma_height_of_instances_bound(bundle, rank, id, instances.len());
    }
}

proof fn lemma_depth_of_instances_is_height(
    bundle: LayoutBundle,
    rank: spec_fn(LayoutCellId) -> u32,
    id: LayoutCellId,
    count: nat,
    known: Map<u64, u32>,
    stack: Set<u64>,
)
    requires
        ranked_by(bundle, rank),
        bundle.has(id),
        count <= bundle.at(id).instances.len(),
        knows_heights(bundle, rank, known),
        forall|s: u64| stack.contains(s) ==> rank(LayoutCellId(s)) >= rank(id),
    ensures
        ({
            let head = bundle.at(id).instances.take(count as int);
            &&& depth_of_instances(bundle, head, known, stack).0 == height_of_instances(
                bundle,
                rank,
                id,
                count,
            )
            &&& knows_heights(
                bundle,
                rank,
                depth_of_instances(bundle, head, known, stack).1,
            )
        }),
    decreases rank(id), 0nat, count,
{
    let instances = bundle.at(id).instances;
    let head = instances.take(count as int);
    if count > 0 {
        lemma_depth_of_instances_is_height(bundle, rank, id, (count - 1) as nat, known, stack);
        assert(head.drop_last() =~= instances.take(count - 1));
        assert(head.last() == instances[count - 1]);
        let between = depth_of_instances(bundle, head.drop_last(), known, stack).1;
        let target = instances[count - 1].target_cell_id;
        lemma_depth_is_height(bundle, rank, target, between, stack);
    }
}

/// In a layout whose cells do not use themselves, the number of levels below a cell is the length
/// of the longest chain of instances down from it.
pub proof fn law_depth_is_longest_chain(
    bundle: LayoutBundle,
    rank: spec_fn(LayoutCellId) -> u32,
    id: LayoutCellId,
)
    requires
        ranked_by(bundle, rank),
    ensures
        depth_below(bundle, id, Map::empty(), Set::empty()).0 == height(bundle, rank, id),
{
    lemma_depth_is_height(bundle, rank, id, Map::empty(), Set::empty());
}

/// What one level costs: how many shapes and points stand on it.
#[derive(Debug, Clone, Copy, PartialEq, Eq, Structural)]
pub struct LayoutHierarchyLevelCost {
    pub shape_count: u64,
    pub point_count: u64,
}

/// The sum of two counts, no larger than the largest count.
pub open spec fn capped_sum(a: int, b: int) -> u64 {
    if a + b > u64::MAX {
        u64::MAX
    } else {
        (a + b) as u64
    }
}

/// The product of two counts, no larger than the largest count.
pub open spec fn capped_product(a: int, b: int) -> u64 {
    if a * b > u64::MAX {
        u64::MAX
    } else {
        (a * b) as u64
    }
}

/// The cost of nothing.
pub open spec fn no_cost() -> LayoutHierarchyLevelCost {
    LayoutHierarchyLevelCost { shape_count: 0, point_count: 0 }
}

/// A cost with `copies` times another one on top.
pub open spec fn cost_with(
    base: LayoutHierarchyLevelCost,
    more: LayoutHierarchyLevelCost,
    copies: u64,
) -> LayoutHierarchyLevelCost {
    LayoutHierarchyLevelCost {
        shape_count: capped_sum(
            base.shape_count as int,
            capped_product(more.shape_count as int, copies as int) as int,
        ),
        point_count: capped_sum(
            base.point_count as int,
            capped_product(more.point_count as int, copies as int) as int,
        ),
    }
}

/// How often an instance places its cell.
pub open spec fn copies_of(instance: LayoutInstance) -> u64 {
    capped_product(instance.columns() as int, instance.rows() as int)
}

/// How many points the shapes have together.
pub open spec fn local_points(shapes: Seq<layout::LocalShape>) -> nat
    decreases shapes.len(),
{
    if shapes.len() == 0 {
        0
    } else {
        local_points(shapes.drop_last()) + shapes.last().points.len()
    }
}

/// What the shapes of a cell itself cost.
pub open spec fn own_cost(cell: layout::CellModel) -> LayoutHierarchyLevelCost {
    LayoutHierarchyLevelCost {
        shape_count: cell.shapes.len() as u64,
        point_count: local_points(cell.shapes) as u64,
    }
}

/// The costs of a cell's levels with those of an instance, one level deeper, on top. An instance
/// without levels or copies adds nothing.
pub open spec fn with_child_levels(
    levels: Seq<LayoutHierarchyLevelCost>,
    child: Seq<LayoutHierarchyLevelCost>,
    copies: u64,
) -> Seq<LayoutHierarchyLevelCost> {
    if child.len() == 0 || copies == 0 {
        levels
    } else {
        Seq::new(
            if levels.len() < child.len() + 1 {
                child.len() + 1
            } else {
                levels.len()
            },
            |k: int|
                {
                    let base = if k < levels.len() {
                        levels[k]
                    } else {
                        no_cost()
                    };
                    if 1 <= k <= child.len() {
                        cost_with(base, child[k - 1], copies)
                    } else {
                        base
                    }
                },
        )
    }
}

/// The costs of the levels from a cell on down, and what is then known of all cells.
///
/// A cell that is known already is not visited again; a cell that is being visited has no levels.
pub open spec fn costs_below(
    bundle: LayoutBundle,
    id: LayoutCellId,
    known: Map<u64, Seq<LayoutHierarchyLevelCost>>,
    stack: Set<u64>,
) -> (Seq<LayoutHierarchyLevelCost>, Map<u64, Seq<LayoutHierarchyLevelCost>>)
    decreases unvisited(bundle, stack), 0int,
{
    if known.dom().contains(id.0) {
        (known[id.0], known)
    } else if stack.contains(id.0) {
        (Seq::empty(), known)
    } else if !bundle.has(id) {
        (seq![no_cost()], known.insert(id.0, seq![no_cost()]))
    } else {
        proof {
            lemma_unvisited_decreases(bundle, id, stack);
        }
        let (levels, after) = costs_with_instances(
            bundle,
            own_cost(bundle.at(id)),
            bundle.at(id).instances,
            known,
            stack.insert(id.0),
        );
        (levels, after.insert(id.0, levels))
    }
}

/// The costs of the levels that start with `own` and go on with a list of instances.
pub open spec fn costs_with_instances(
    bundle: LayoutBundle,
    own: LayoutHierarchyLevelCost,
    instances: Seq<LayoutInstance>,
    known: Map<u64, Seq<LayoutHierarchyLevelCost>>,
    stack: Set<u64>,
) -> (Seq<LayoutHierarchyLevelCost>, Map<u64, Seq<LayoutHierarchyLevelCost>>)
    decreases unvisited(bundle, stack), instances.len(),
{
    if instances.len() == 0 {
        (seq![own], known)
    } else {
        let (levels, between) = costs_with_instances(
            bundle,
            own,
            instances.drop_last(),
            known,
            stack,
        );
        let (child, after) = costs_below(bundle, instances.last().target_cell_id, between, stack);
        (with_child_levels(levels, child, copies_of(instances.last())), after)
    }
}

/// The costs of the levels of a view that starts from this cell.
pub open spec fn level_costs(bundle: LayoutBundle, root: LayoutCellId) -> Seq<
    LayoutHierarchyLevelCost,
> {
    costs_below(bundle, root, Map::empty(), Set::empty()).0
}

/// Whether the points of every cell can be counted.
pub open spec fn countable(bundle: LayoutBundle) -> bool {
    forall|i: int|
        0 <= i < bundle.listed().len() ==> local_points((#[trigger] bundle.listed()[i])@.shapes)
            <= u64::MAX
}

fn capped_mul(a: u64, b: u64) -> (product: u64)
    ensures
        product == capped_product(a as int, b as int),
{
    match a.checked_mul(b) {
        Some(product) => product,
        None => u64::MAX,
    }
}

/// How often an instance places its cell.
pub fn repetition_factor(instance: &LayoutInstance) -> (factor: u64)
    ensures
        factor == copies_of(*instance),
{
    match instance.repetition {
        Some(LayoutRepetition::RegularGrid { columns, rows, .. }) => {
            assert(instance.columns() == columns && instance.rows() == rows);
            assert(columns * rows <= u64::MAX) by (nonlinear_arith)
                requires
                    columns <= u32::MAX,
                    rows <= u32::MAX,
            ;
            columns as u64 * rows as u64
        },
        None => {
            assert(instance.columns() * instance.rows() == 1) by (nonlinear_arith)
                requires
                    instance.columns() == 1,
                    instance.rows() == 1,
            ;
            1
        },
    }
}

fn copy_levels(levels: &Vec<LayoutHierarchyLevelCost>) -> (copy: Vec<LayoutHierarchyLevelCost>)
    ensures
        copy@ == levels@,
{
    let mut copy: Vec<LayoutHierarchyLevelCost> = Vec::new();
    let mut i: usize = 0;
    while i < levels.len()
        invariant
            i <= levels@.len(),
            copy@ == levels@.take(i as int),
        decreases levels@.len() - i,
    {
        copy.push(levels[i]);
        assert(copy@ =~= levels@.take(i + 1));
        i += 1;
    }
    assert(copy@ =~= levels@);
    copy
}

fn own_points(shapes: &[layout::LayoutShape]) -> (count: u64)
    requires
        local_points(layout::local_shapes_of(shapes@)) <= u64::MAX,
    ensures
        count == local_points(layout::local_shapes_of(shapes@)),
{
    let ghost models = layout::local_shapes_of(shapes@);
    let mut count: u64 = 0;
    let mut i: usize = 0;
    assert(models.take(0) =~= Seq::empty());
    while i < shapes.len()
        invariant
            i <= shapes@.len(),
            models == layout::local_shapes_of(shapes@),
            local_points(models) <= u64::MAX,
            count == local_points(models.take(i as int)),
        decreases shapes@.len() - i,
    {
        proof {
            lemma_local_points_take(models, i as int);
            assert(models[i as int] == shapes@[i as int]@);
        }
        count += shapes[i].points().len() as u64;
        i += 1;
    }
    assert(models.take(i as int) =~= models);
    count
}

proof fn lemma_local_points_take(shapes: Seq<layout::LocalShape>, i: int)
    requires
        0 <= i < shapes.len(),
    ensures
        local_points(shapes.take(i + 1)) == local_points(shapes.take(i)) + shapes[i].points.len(),
        local_points(shapes.take(i + 1)) <= local_points(shapes),
    decreases shapes.len() - i,
{
    assert(shapes.take(i + 1).drop_last() =~= shapes.take(i));
    if i + 1 == shapes.len() {
        assert(shapes.take(i + 1) =~= shapes);
    } else {
        lemma_local_points_take(shapes, i + 1);
    }
}

/// What is known, list by list.
pub open spec fn known_levels(known: Map<u64, Vec<LayoutHierarchyLevelCost>>) -> Map<
    u64,
    Seq<LayoutHierarchyLevelCost>,
> {
    Map::new(|id: u64| known.dom().contains(id), |id: u64| known[id]@)
}

fn add_child_levels(
    levels: &mut Vec<LayoutHierarchyLevelCost>,
    child: &Vec<LayoutHierarchyLevelCost>,
    copies: u64,
)
    requires
        child@.len() < usize::MAX,
    ensures
        final(levels)@ == with_child_levels(old(levels)@, child@, copies),
{
    if child.len() == 0 || copies == 0 {
        return;
    }
    let ghost before = levels@;
    let ghost goal = with_child_levels(before, child@, copies);
    while levels.len() < child.len() + 1
        invariant
            child@.len() < usize::MAX,
            before.len() <= levels@.len(),
            levels@.len() <= before.len() || levels@.len() <= child@.len() + 1,
            forall|k: int|
                0 <= k < levels@.len() ==> #[trigger] levels@[k] == (if k < before.len() {
                    before[k]
                } else {
                    no_cost()
                }),
        decreases child@.len() + 1 - levels@.len(),
    {
        levels.push(LayoutHierarchyLevelCost { shape_count: 0, point_count: 0 });
    }
    let ghost padded = levels@;
    let mut i: usize = 0;
    while i < child.len()
        invariant
            i <= child@.len(),
            child@.len() < levels@.len(),
            child@.len() > 0,
            copies != 0,
            levels@.len() == padded.len(),
            padded.len() == goal.len(),
            goal == with_child_levels(before, child@, copies),
            forall|k: int|
                0 <= k < padded.len() ==> #[trigger] padded[k] == (if k < before.len() {
                    before[k]
                } else {
                    no_cost()
                }),
            forall|k: int| 0 <= k <= i ==> #[trigger] levels@[k] == goal[k],
            forall|k: int| i < k < levels@.len() ==> #[trigger] levels@[k] == padded[k],
        decreases child@.len() - i,
    {
        let base = levels[i + 1];
        let more = child[i];
        let next = LayoutHierarchyLevelCost {
            shape_count: base.shape_count.saturating_add(capped_mul(more.shape_count, copies)),
            point_count: base.point_count.saturating_add(capped_mul(more.point_count, copies)),
        };
        proof {
            assert(base == padded[i + 1]);
            assert(next == goal[i + 1]);
        }
        levels[i + 1] = next;
        i += 1;
    }
    proof {
        assert forall|k: int| 0 <= k < goal.len() implies levels@[k] == goal[k] by {
            if k > child@.len() {
                assert(levels@[k] == padded[k]);
            }
        }
        assert(levels@ =~= goal);
    }
}

fn visit_costs(
    bundle: &LayoutBundle,
    id: LayoutCellId,
    known: &mut HashMap<u64, Vec<LayoutHierarchyLevelCost>>,
    stack: &mut HashSet<u64>,
) -> (levels: Vec<LayoutHierarchyLevelCost>)
    requires
        bundle.linked(),
        bundle.has(id),
        countable(*bundle),
        bounded(
            *bundle,
            known_levels(old(known)@),
            old(stack)@,
            |levels: Seq<LayoutHierarchyLevelCost>| levels.len() as int,
        ),
    ensures
        (levels@, known_levels(final(known)@)) == costs_below(
            *bundle,
            id,
            known_levels(old(known)@),
            old(stack)@,
        ),
        final(stack)@ == old(stack)@,
        bounded(
            *bundle,
            known_levels(final(known)@),
            final(stack)@,
            |levels: Seq<LayoutHierarchyLevelCost>| levels.len() as int,
        ),
        levels@.len() <= known_levels(final(known)@).dom().len(),
        known_levels(old(known)@).dom().len() <= known_levels(final(known)@).dom().len(),
    decreases unvisited(*bundle, old(stack)@),
{
    let ghost size = |levels: Seq<LayoutHierarchyLevelCost>| levels.len() as int;
    let cell_count: usize = bundle.cells().len();
    let ghost start = known_levels(known@);
    if let Some(levels) = known.get(&id.0) {
        assert(start[id.0] == levels@);
        return copy_levels(levels);
    }
    if !stack.insert(id.0) {
        assert(stack@ =~= old(stack)@);
        return Vec::new();
    }
    proof {
        lemma_unvisited_decreases(*bundle, id, old(stack)@);
        lemma_cell_ids(*bundle);
    }
    let ghost inner = stack@;
    let mut levels: Vec<LayoutHierarchyLevelCost> = Vec::new();
    levels.push(LayoutHierarchyLevelCost { shape_count: 0, point_count: 0 });
    if let Some(cell) = bundle.cell(id) {
        let ghost own = own_cost(bundle.at(id));
        proof {
            let at = layout::cell_index(bundle.listed(), id);
            assert(local_points(bundle.listed()[at]@.shapes) <= u64::MAX);
        }
        levels[0] = LayoutHierarchyLevelCost {
            shape_count: cell.local_shape_count() as u64,
            point_count: own_points(cell.local_shapes()),
        };
        let instances = cell.instances();
        let mut i: usize = 0;
        assert(instances@.take(0) =~= Seq::empty());
        assert(levels@ =~= seq![own]);
        while i < instances.len()
            invariant
                i <= instances@.len(),
                bundle.linked(),
                bundle.has(id),
                countable(*bundle),
                cell_count == bundle.listed().len(),
                instances@ == bundle.at(id).instances,
                own == own_cost(bundle.at(id)),
                start == known_levels(old(known)@),
                stack@ == inner,
                inner == old(stack)@.insert(id.0),
                unvisited(*bundle, inner) < unvisited(*bundle, old(stack)@),
                size == (|levels: Seq<LayoutHierarchyLevelCost>| levels.len() as int),
                bounded(*bundle, known_levels(known@), inner, size),
                levels@.len() <= known_levels(known@).dom().len() + 1,
                start.dom().len() <= known_levels(known@).dom().len(),
                (levels@, known_levels(known@)) == costs_with_instances(
                    *bundle,
                    own,
                    instances@.take(i as int),
                    start,
                    inner,
                ),
            decreases instances@.len() - i,
        {
            let instance = instances[i];
            proof {
                assert(instances@.take(i + 1).drop_last() =~= instances@.take(i as int));
                let at = layout::cell_index(bundle.listed(), id);
                assert(!layout::has_dangling(bundle.listed(), bundle.listed()[at]@));
                assert(!layout::dangles(bundle.listed(), bundle.at(id).instances[i as int]));
            }
            let child = visit_costs(bundle, instance.target_cell_id(), known, stack);
            proof {
                lemma_bounded(*bundle, known_levels(known@), inner, size, id);
            }
            let copies: u64 = repetition_factor(&instance);
            add_child_levels(&mut levels, &child, copies);
            i += 1;
        }
        assert(instances@.take(i as int) =~= instances@);
    }
    stack.remove(&id.0);
    assert(stack@ =~= old(stack)@);
    let ghost before = known_levels(known@);
    let copy = copy_levels(&levels);
    known.insert(id.0, copy);
    assert(known_levels(known@) =~= before.insert(id.0, levels@));
    levels
}

/// Estimates what each level of a view costs, from the cell it starts from on down.
///
/// Counts stop at the largest count that can be held.
pub fn estimate_layout_root_level_costs(
    bundle: &LayoutBundle,
    root_cell_id: LayoutCellId,
) -> (levels: Vec<LayoutHierarchyLevelCost>)
    requires
        countable(*bundle),
    ensures
        levels@ == level_costs(*bundle, root_cell_id),
        levels@.len() <= bundle.listed().len() + 1,
{
    let _cells = bundle.cells();
    if bundle.cell(root_cell_id).is_none() {
        let mut levels: Vec<LayoutHierarchyLevelCost> = Vec::new();
        levels.push(LayoutHierarchyLevelCost { shape_count: 0, point_count: 0 });
        assert(levels@ =~= seq![no_cost()]);
        return levels;
    }
    let mut known: HashMap<u64, Vec<LayoutHierarchyLevelCost>> = HashMap::new();
    let mut stack: HashSet<u64> = HashSet::new();
    assert(known_levels(known@) =~= Map::empty());
    let levels = visit_costs(bundle, root_cell_id, &mut known, &mut stack);
    proof {
        lemma_cell_ids(*bundle);
        vstd::set_lib::lemma_len_subset(known_levels(known@).dom(), cell_ids(*bundle));
    }
    levels
}

/// How many shapes the first view of a large layout holds at most.
pub const INITIAL_LAYOUT_WORKSET_SHAPE_BUDGET: u64 = 3_000_000;

/// How many points the first view of a large layout holds at most.
pub const INITIAL_LAYOUT_WORKSET_POINT_BUDGET: u64 = 20_000_000;

/// The shapes on the first `count` levels.
pub open spec fn shapes_on(levels: Seq<LayoutHierarchyLevelCost>, count: int) -> int
    decreases count,
{
    if count <= 0 {
        0
    } else {
        shapes_on(levels, count - 1) + levels[count - 1].shape_count
    }
}

/// The points on the first `count` levels.
pub open spec fn points_on(levels: Seq<LayoutHierarchyLevelCost>, count: int) -> int
    decreases count,
{
    if count <= 0 {
        0
    } else {
        points_on(levels, count - 1) + levels[count - 1].point_count
    }
}

/// Whether the levels up to this one are too much for a first view.
pub open spec fn over_budget(levels: Seq<LayoutHierarchyLevelCost>, level: int) -> bool {
    shapes_on(levels, level + 1) > INITIAL_LAYOUT_WORKSET_SHAPE_BUDGET || points_on(
        levels,
        level + 1,
    ) > INITIAL_LAYOUT_WORKSET_POINT_BUDGET
}

/// The deepest level of a first view: the last one before the budget is exceeded, and the top
/// level whatever it costs.
pub open spec fn affordable_level(levels: Seq<LayoutHierarchyLevelCost>) -> int {
    crate::seqs::least_from(1, levels.len() as int, |level: int| over_budget(levels, level)) - 1
}

/// The levels that a layout shows first: from the top down to the last level that fits into the
/// budget, and no deeper than `max_level`.
pub fn recommended_initial_hierarchy_level_range_for_layout(
    bundle: &LayoutBundle,
    root_cell_id: LayoutCellId,
    max_level: u32,
) -> (range: (u32, u32))
    requires
        countable(*bundle),
        bundle.listed().len() < u32::MAX,
    ensures
        range.0 == 0,
        range.1 == ({
            let levels = level_costs(*bundle, root_cell_id);
            if levels.len() > 0 && affordable_level(levels) < max_level {
                affordable_level(levels)
            } else {
                max_level as int
            }
        }),
{
    let levels = estimate_layout_root_level_costs(bundle, root_cell_id);
    if levels.len() == 0 {
        return (0, max_level);
    }
    let ghost costs = levels@;
    let ghost over = |level: int| over_budget(costs, level);
    let mut shapes: u64 = levels[0].shape_count;
    let mut points: u64 = levels[0].point_count;
    let mut level: usize = 1;
    proof {
        reveal_with_fuel(shapes_on, 2);
        reveal_with_fuel(points_on, 2);
    }
    let mut exceeded: bool = false;
    while !exceeded && level < levels.len()
        invariant
            1 <= level <= levels@.len(),
            levels@ == costs,
            levels@.len() <= u32::MAX,
            over == (|level: int| over_budget(costs, level)),
            shapes == shapes_on(costs, level as int),
            points == points_on(costs, level as int),
            forall|k: int| 1 <= k < level ==> !(#[trigger] over(k)),
            exceeded ==> level < levels@.len() && over(level as int),
        decreases levels@.len() - level + (if exceeded { 0int } else { 1int }),
    {
        let cost = levels[level];
        let next_shapes: u64 = shapes.saturating_add(cost.shape_count);
        let next_points: u64 = points.saturating_add(cost.point_count);
        assert(shapes_on(costs, level + 1) == shapes + cost.shape_count);
        assert(points_on(costs, level + 1) == points + cost.point_count);
        if next_shapes > INITIAL_LAYOUT_WORKSET_SHAPE_BUDGET || next_points
            > INITIAL_LAYOUT_WORKSET_POINT_BUDGET {
            exceeded = true;
        } else {
            assert(!over(level as int));
            shapes = next_shapes;
            points = next_points;
            level += 1;
        }
    }
    proof {
        crate::seqs::lemma_least_from(1, costs.len() as int, over, level as int);
    }
    let selected: u32 = (level - 1) as u32;
    if selected < max_level {
        (0, selected)
    } else {
        (0, max_level)
    }
}

/// The levels from `min_level` to `max_level` of a list, those outside at no cost.
pub open spec fn in_range(
    levels: Seq<LayoutHierarchyLevelCost>,
    min_level: u32,
    max_level: u32,
) -> Seq<LayoutHierarchyLevelCost> {
    levels.map(
        |level: int, cost: LayoutHierarchyLevelCost|
            if min_level <= level <= max_level {
                cost
            } else {
                no_cost()
            },
    )
}

/// What the levels from `min_level` to `max_level` cost together.
pub open spec fn range_cost(
    levels: Seq<LayoutHierarchyLevelCost>,
    min_level: u32,
    max_level: u32,
) -> LayoutHierarchyLevelCost {
    let kept = in_range(levels, min_level, max_level);
    LayoutHierarchyLevelCost {
        shape_count: capped_sum(0, shapes_on(kept, kept.len() as int)),
        point_count: capped_sum(0, points_on(kept, kept.len() as int)),
    }
}

/// What the levels from `min_level` to `max_level` cost together.
pub fn estimated_layout_range_cost(
    bundle: &LayoutBundle,
    root_cell_id: LayoutCellId,
    min_level: u32,
    max_level: u32,
) -> (total: LayoutHierarchyLevelCost)
    requires
        countable(*bundle),
        bundle.listed().len() < u32::MAX,
    ensures
        total == range_cost(level_costs(*bundle, root_cell_id), min_level, max_level),
{
    let levels = estimate_layout_root_level_costs(bundle, root_cell_id);
    let ghost kept = in_range(levels@, min_level, max_level);
    let mut shape_count: u64 = 0;
    let mut point_count: u64 = 0;
    let mut i: usize = 0;
    while i < levels.len()
        invariant
            i <= levels@.len(),
            levels@.len() <= u32::MAX,
            kept == in_range(levels@, min_level, max_level),
            shape_count == capped_sum(0, shapes_on(kept, i as int)),
            point_count == capped_sum(0, points_on(kept, i as int)),
            0 <= shapes_on(kept, i as int),
            0 <= points_on(kept, i as int),
        decreases levels@.len() - i,
    {
        let level: u32 = i as u32;
        let cost = levels[i];
        if level >= min_level && level <= max_level {
            shape_count = shape_count.saturating_add(cost.shape_count);
            point_count = point_count.saturating_add(cost.point_count);
        }
        assert(shapes_on(kept, i + 1) == shapes_on(kept, i as int) + kept[i as int].shape_count);
        assert(points_on(kept, i + 1) == points_on(kept, i as int) + kept[i as int].point_count);
        i += 1;
    }
    LayoutHierarchyLevelCost { shape_count, point_count }
}

/// From how many shapes on a range is drawn tile by tile from the hierarchy.
pub const DIRECT_LAYOUT_TILE_SOURCE_SHAPE_THRESHOLD: u64 = 3_000_000;

/// From how many points on a range is drawn tile by tile from the hierarchy.
pub const DIRECT_LAYOUT_TILE_SOURCE_POINT_THRESHOLD: u64 = 20_000_000;

/// Whether a range is too large to be flattened.
pub open spec fn too_large_to_flatten(range_cost: LayoutHierarchyLevelCost) -> bool {
    range_cost.shape_count > DIRECT_LAYOUT_TILE_SOURCE_SHAPE_THRESHOLD || range_cost.point_count
        > DIRECT_LAYOUT_TILE_SOURCE_POINT_THRESHOLD
}

/// Whether a range is drawn tile by tile from the hierarchy, and not flattened first.
pub fn should_use_direct_hierarchy_tile_render(range_cost: LayoutHierarchyLevelCost) -> (direct:
    bool)
    ensures
        direct == too_large_to_flatten(range_cost),
{
    range_cost.shape_count > DIRECT_LAYOUT_TILE_SOURCE_SHAPE_THRESHOLD || range_cost.point_count
        > DIRECT_LAYOUT_TILE_SOURCE_POINT_THRESHOLD
}

/// Whether a shape of the layer stands on a level from `min_level` to `max_level`, where the cell
/// stands on `level`.
pub open spec fn layer_in_range(
    bundle: LayoutBundle,
    id: LayoutCellId,
    level: u32,
    min_level: u32,
    max_level: u32,
    layer: crate::scene::LayerId,
) -> bool
    decreases max_level - level,
{
    bundle.has(id) && {
        ||| min_level <= level <= max_level && bundle.at(id).layers.contains(layer)
        ||| level < max_level && exists|k: int|
            0 <= k < bundle.at(id).instances.len() && layer_in_range(
                bundle,
                (#[trigger] bundle.at(id).instances[k]).target_cell_id,
                (level + 1) as u32,
                min_level,
                max_level,
                layer,
            )
    }
}

fn visit_layers(
    bundle: &LayoutBundle,
    id: LayoutCellId,
    level: u32,
    min_level: u32,
    max_level: u32,
    found: &mut crate::layers::LayerSet,
)
    requires
        level <= max_level,
    ensures
        forall|x: crate::scene::LayerId| #![trigger final(found)@.contains(x)]
            final(found)@.contains(x) <==> old(found)@.contains(x) || layer_in_range(
                *bundle,
                id,
                level,
                min_level,
                max_level,
                x,
            ),
    decreases max_level - level,
{
    if let Some(cell) = bundle.cell(id) {
        let ghost start = found@;
        let ghost own = |x: crate::scene::LayerId|
            min_level <= level <= max_level && bundle.at(id).layers.contains(x);
        if level >= min_level {
            let own_layers = cell.local_layers();
            let mut i: usize = 0;
            while i < own_layers.len()
                invariant
                    i <= own_layers@.len(),
                    forall|x: crate::scene::LayerId| #![trigger found@.contains(x)]
                        found@.contains(x) <==> start.contains(x) || own_layers@.take(
                            i as int,
                        ).contains(x),
                decreases own_layers@.len() - i,
            {
                let ghost before = found@;
                let _added = found.insert(own_layers[i]);
                proof {
                    let upto = own_layers@.take(i as int);
                    assert(own_layers@.take(i + 1) =~= upto.push(own_layers@[i as int]));
                    assert forall|x: crate::scene::LayerId| #![trigger found@.contains(x)]
                        found@.contains(x) <==> start.contains(x) || own_layers@.take(
                            i + 1,
                        ).contains(x) by {
                        crate::seqs::lemma_push_contains(upto, own_layers@[i as int], x);
                        assert(before.contains(x) <==> start.contains(x) || upto.contains(x));
                    }
                }
                i += 1;
            }
            assert(own_layers@.take(i as int) =~= own_layers@);
        }
        assert(forall|x: crate::scene::LayerId| #![trigger found@.contains(x)]
            found@.contains(x) <==> start.contains(x) || own(x));
        if level >= max_level {
            return;
        }
        let instances = cell.instances();
        let mut k: usize = 0;
        while k < instances.len()
            invariant
                k <= instances@.len(),
                level < max_level,
                bundle.has(id),
                instances@ == bundle.at(id).instances,
                own == (|x: crate::scene::LayerId|
                    min_level <= level <= max_level && bundle.at(id).layers.contains(x)),
                forall|x: crate::scene::LayerId| #![trigger found@.contains(x)]
                    found@.contains(x) <==> start.contains(x) || own(x) || exists|m: int|
                        0 <= m < k && layer_in_range(
                            *bundle,
                            (#[trigger] bundle.at(id).instances[m]).target_cell_id,
                            (level + 1) as u32,
                            min_level,
                            max_level,
                            x,
                        ),
            decreases instances@.len() - k,
        {
            let ghost before = found@;
            visit_layers(
                bundle,
                instances[k].target_cell_id(),
                level + 1,
                min_level,
                max_level,
                found,
            );
            proof {
                assert forall|x: crate::scene::LayerId| #![trigger found@.contains(x)]
                    found@.contains(x) <==> start.contains(x) || own(x) || exists|m: int|
                        0 <= m < k + 1 && layer_in_range(
                            *bundle,
                            (#[trigger] bundle.at(id).instances[m]).target_cell_id,
                            (level + 1) as u32,
                            min_level,
                            max_level,
                            x,
                        ) by {
                    assert(before.contains(x) <==> start.contains(x) || own(x) || exists|m: int|
                        0 <= m < k && layer_in_range(
                            *bundle,
                            (#[trigger] bundle.at(id).instances[m]).target_cell_id,
                            (level + 1) as u32,
                            min_level,
                            max_level,
                            x,
                        ));
                    assert(bundle.at(id).instances[k as int] == instances@[k as int]);
                }
            }
            k += 1;
        }
    }
}

/// The layers with a shape on a level from `min_level` to `max_level`, in ascending order.
pub open spec fn range_layers(
    bundle: LayoutBundle,
    root: LayoutCellId,
    min_level: u32,
    max_level: u32,
) -> Seq<crate::scene::LayerId> {
    crate::layers::ascending(
        Set::new(
            |x: crate::scene::LayerId| layer_in_range(bundle, root, 0, min_level, max_level, x),
        ),
    )
}

/// The layers with a shape on a level from `min_level` to `max_level`, in ascending order.
pub fn collect_layout_layers_for_range(
    bundle: &LayoutBundle,
    root_cell_id: LayoutCellId,
    min_level: u32,
    max_level: u32,
) -> (ids: Vec<crate::scene::LayerId>)
    ensures
        crate::layers::layers_ascend(ids@),
        forall|x: crate::scene::LayerId| #![trigger ids@.contains(x)]
            ids@.contains(x) <==> layer_in_range(
                *bundle,
                root_cell_id,
                0,
                min_level,
                max_level,
                x,
            ),
        ids@ == range_layers(*bundle, root_cell_id, min_level, max_level),
{
    let mut found = crate::layers::LayerSet::new();
    visit_layers(bundle, root_cell_id, 0, min_level, max_level, &mut found);
    let ghost set = found@;
    assert(set =~= Set::new(
        |x: crate::scene::LayerId|
            layer_in_range(*bundle, root_cell_id, 0, min_level, max_level, x),
    ));
    let ids = found.into_ids();
    proof {
        assert forall|x: crate::scene::LayerId| #![trigger ids@.contains(x)]
            ids@.contains(x) <==> layer_in_range(
                *bundle,
                root_cell_id,
                0,
                min_level,
                max_level,
                x,
            ) by {
            assert(ids@.to_set().contains(x) <==> set.contains(x));
        }
    }
    ids
}

} // verus!
