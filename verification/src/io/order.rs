//! The order in which cells can be built: every cell after those that it refers to.

use crate::io::flatten;
use crate::io::flatten::{find_cell, LoadError, SourceCell, SourceItem};
use vstd::prelude::*;

verus! {

/// Whether one cell refers to another.
pub open spec fn depends(cells: Seq<SourceCell>, a: int, b: int) -> bool {
    exists|i: int|
        0 <= i < cells[a].items@.len() && leads_to(cells, #[trigger] cells[a].items@[i], b)
}

/// Whether the item refers to the cell.
pub open spec fn leads_to(cells: Seq<SourceCell>, item: SourceItem, b: int) -> bool {
    item matches SourceItem::Reference { target, copies } && flatten::resolve(
        cells,
        target@,
        cells.len(),
    ) == Some(b)
}

/// Whether each of these cells refers to the next.
pub open spec fn is_chain(cells: Seq<SourceCell>, chain: Seq<usize>) -> bool {
    &&& flatten::are_cells(cells, chain)
    &&& forall|i: int|
        0 <= i < chain.len() - 1 ==> depends(cells, #[trigger] chain[i] as int, chain[i + 1] as int)
}

/// Whether some cell contains itself: a chain of references leads back to where it starts.
pub open spec fn has_cycle(cells: Seq<SourceCell>) -> bool {
    exists|chain: Seq<usize>|
        #![trigger is_chain(cells, chain)]
        is_chain(cells, chain) && chain.len() >= 2 && chain.first() == chain.last()
}

/// Whether the cell contains itself, directly or through others.
pub open spec fn on_cycle(cells: Seq<SourceCell>, cell: int) -> bool {
    exists|chain: Seq<usize>| #[trigger]
        is_chain(cells, chain) && chain.len() >= 2 && chain.first() == chain.last()
            && chain.first() == cell
}

/// Whether some item refers to a name that no cell has.
pub open spec fn has_missing(cells: Seq<SourceCell>, name: Seq<char>) -> bool {
    flatten::is_referenced(cells, name) && flatten::resolve(cells, name, cells.len()) is None
}

/// Whether the item refers to a cell that is there, if to any.
pub open spec fn item_resolves(cells: Seq<SourceCell>, item: SourceItem) -> bool {
    item matches SourceItem::Reference { target, copies } ==> flatten::resolve(
        cells,
        target@,
        cells.len(),
    ) is Some
}

/// Whether every cell of the list stands after all that it refers to, and refers to cells that are
/// there.
pub open spec fn is_build_order(cells: Seq<SourceCell>, order: Seq<usize>) -> bool {
    &&& flatten::are_cells(cells, order)
    &&& order.no_duplicates()
    &&& forall|p: int, b: int|
        0 <= p < order.len() && #[trigger] depends(cells, order[p] as int, b) ==> exists|q: int|
            0 <= q < p && #[trigger] order[q] == b
    &&& forall|p: int, i: int|
        0 <= p < order.len() && 0 <= i < cells[order[p] as int].items@.len() ==> item_resolves(
            cells,
            #[trigger] cells[order[p] as int].items@[i],
        )
}

/// How many of the first `count` cells were not looked at.
spec fn untouched(marks: Seq<u8>, count: nat) -> nat
    decreases count,
{
    if count == 0 {
        0
    } else {
        untouched(marks, (count - 1) as nat) + (if marks[count - 1] == 0 {
            1nat
        } else {
            0nat
        })
    }
}

proof fn lemma_untouched(marks: Seq<u8>, at: int, mark: u8, count: nat)
    requires
        0 <= at < marks.len(),
        marks[at] == 0,
        mark != 0,
        count <= marks.len(),
    ensures
        untouched(marks.update(at, mark), count) <= untouched(marks, count),
        at < count ==> untouched(marks.update(at, mark), count) < untouched(marks, count),
    decreases count,
{
    if count > 0 {
        lemma_untouched(marks, at, mark, (count - 1) as nat);
    }
}

proof fn lemma_untouched_monotone(a: Seq<u8>, b: Seq<u8>, count: nat)
    requires
        a.len() == b.len(),
        count <= a.len(),
        forall|k: int| 0 <= k < a.len() && a[k] != 0 ==> #[trigger] b[k] != 0,
    ensures
        untouched(b, count) <= untouched(a, count),
    decreases count,
{
    if count > 0 {
        lemma_untouched_monotone(a, b, (count - 1) as nat);
    }
}

/// Whether marks, open cells and order tell the same: 0 for a cell not looked at, 1 for one that is
/// open, 2 for one in the order.
spec fn in_step(
    cells: Seq<SourceCell>,
    marks: Seq<u8>,
    open: Seq<usize>,
    order: Seq<usize>,
) -> bool {
    &&& marks.len() == cells.len()
    &&& is_chain(cells, open)
    &&& is_build_order(cells, order)
    &&& forall|k: int| 0 <= k < marks.len() ==> (#[trigger] marks[k]) <= 2
    &&& forall|k: int|
        0 <= k < marks.len() && #[trigger] marks[k] == 1 ==> exists|j: int|
            0 <= j < open.len() && #[trigger] open[j] == k
    &&& forall|k: int|
        0 <= k < marks.len() && #[trigger] marks[k] == 2 ==> exists|j: int|
            0 <= j < order.len() && #[trigger] order[j] == k
    &&& forall|j: int| 0 <= j < order.len() ==> marks[(#[trigger] order[j]) as int] == 2
    &&& forall|j: int| 0 <= j < open.len() ==> marks[(#[trigger] open[j]) as int] == 1
}

/// Whether the failure is there.
pub open spec fn order_failure(cells: Seq<SourceCell>, failure: flatten::LoadFailure) -> bool {
    match failure {
        flatten::LoadFailure::MissingCell(name) => has_missing(cells, name),
        flatten::LoadFailure::CyclicReference(name) => exists|cell: int|
            #[trigger] on_cycle(cells, cell) && cells[cell].name@ == name,
        flatten::LoadFailure::UnsupportedRepetition => false,
    }
}

/// A chain of open cells that refers back to one of them closes a cycle.
proof fn lemma_back_reference(cells: Seq<SourceCell>, open: Seq<usize>, b: usize)
    requires
        is_chain(cells, open),
        open.len() > 0,
        depends(cells, open.last() as int, b as int),
        exists|j: int| 0 <= j < open.len() && #[trigger] open[j] == b,
    ensures
        has_cycle(cells),
        on_cycle(cells, b as int),
{
    let j = choose|j: int| 0 <= j < open.len() && #[trigger] open[j] == b;
    let chain = open.skip(j).push(b);
    assert forall|i: int| 0 <= i < chain.len() - 1 implies depends(
        cells,
        #[trigger] chain[i] as int,
        chain[i + 1] as int,
    ) by {
        assert(chain[i] == open[j + i]);
        if i + 1 < chain.len() - 1 {
            assert(chain[i + 1] == open[j + i + 1]);
            assert(depends(cells, open[j + i] as int, open[j + i + 1] as int));
        }
    }
    assert forall|k: int| 0 <= k < chain.len() implies (#[trigger] chain[k]) < cells.len() by {
        if k < open.len() - j {
            assert(chain[k] == open[j + k]);
        }
    }
    assert(is_chain(cells, chain));
    assert(chain.first() == chain.last());
}

/// Puts a cell and all that it refers to into the order.
fn place_cell(
    cells: &[SourceCell],
    cell: usize,
    marks: &mut Vec<u8>,
    order: &mut Vec<usize>,
    Ghost(open): Ghost<Seq<usize>>,
) -> (result: Result<(), LoadError>)
    requires
        cell < cells@.len(),
        in_step(cells@, old(marks)@, open, old(order)@),
        old(marks)@[cell as int] == 0,
        open.len() > 0 ==> depends(cells@, open.last() as int, cell as int),
    ensures
        match result {
            Ok(()) => {
                &&& in_step(cells@, final(marks)@, open, final(order)@)
                &&& final(marks)@[cell as int] == 2
                &&& forall|k: int|
                    0 <= k < cells@.len() && #[trigger] old(marks)@[k] != 0 ==> final(marks)@[k]
                        == old(marks)@[k]
            },
            Err(error) => order_failure(cells@, error@),
        },
    decreases untouched(old(marks)@, cells@.len()),
{
    let ghost start = marks@;
    let ghost inner = open.push(cell);
    proof {
        lemma_untouched(marks@, cell as int, 1, cells@.len());
    }
    marks.set(cell, 1);
    proof {
        assert forall|i: int| 0 <= i < inner.len() - 1 implies depends(
            cells@,
            #[trigger] inner[i] as int,
            inner[i + 1] as int,
        ) by {
            if i + 1 < open.len() {
                assert(depends(cells@, open[i] as int, open[i + 1] as int));
            }
        }
        assert(is_chain(cells@, inner));
        assert forall|k: int| 0 <= k < marks@.len() && #[trigger] marks@[k] == 1 implies exists|
            j: int,
        | 0 <= j < inner.len() && #[trigger] inner[j] == k by {
            if k == cell {
                assert(inner[open.len() as int] == cell);
            } else {
                assert(start[k] == 1);
                let j = choose|j: int| 0 <= j < open.len() && #[trigger] open[j] == k;
                assert(inner[j] == k);
            }
        }
        assert forall|j: int| 0 <= j < order@.len() implies marks@[(#[trigger] order@[j]) as int]
            == 2 by {
            assert(start[order@[j] as int] == 2);
        }
        assert forall|k: int| 0 <= k < marks@.len() && #[trigger] marks@[k] == 2 implies exists|
            j: int,
        | 0 <= j < order@.len() && #[trigger] order@[j] == k by {
            assert(start[k] == 2);
        }
        assert(in_step(cells@, marks@, inner, order@));
    }
    let count: usize = cells[cell].items.len();
    let mut i: usize = 0;
    while i < count
        invariant
            i <= count,
            cell < cells@.len(),
            count == cells@[cell as int].items@.len(),
            inner == open.push(cell),
            in_step(cells@, marks@, inner, order@),
            start.len() == cells@.len(),
            start == old(marks)@,
            start[cell as int] == 0,
            untouched(marks@, cells@.len()) < untouched(start, cells@.len()),
            forall|k: int|
                0 <= k < cells@.len() && #[trigger] start[k] != 0 ==> marks@[k] == start[k],
            marks@[cell as int] == 1,
            forall|j: int, b: int|
                0 <= j < i && #[trigger] leads_to(cells@, cells@[cell as int].items@[j], b)
                    ==> marks@[b] == 2,
            forall|j: int|
                0 <= j < i ==> item_resolves(cells@, #[trigger] cells@[cell as int].items@[j]),
        decreases count - i,
    {
        let ghost before = marks@;
        match &cells[cell].items[i] {
            SourceItem::Reference { target, .. } => {
                match find_cell(cells, target) {
                    None => {
                        proof {
                            assert(flatten::refers_to(
                                cells@[cell as int].items@[i as int],
                                target@,
                            ));
                        }
                        return Err(LoadError::MissingCell(target.clone()));
                    },
                    Some(child) => {
                        proof {
                            assert(leads_to(
                                cells@,
                                cells@[cell as int].items@[i as int],
                                child as int,
                            ));
                            assert(depends(cells@, cell as int, child as int));
                            assert(inner.last() == cell);
                        }
                        if marks[child] == 1 {
                            proof {
                                lemma_back_reference(cells@, inner, child);
                                assert(on_cycle(cells@, child as int));
                            }
                            return Err(LoadError::CyclicReference(target.clone()));
                        }
                        if marks[child] == 0 {
                            match place_cell(cells, child, marks, order, Ghost(inner)) {
                                Ok(()) => {},
                                Err(error) => {
                                    return Err(error);
                                },
                            }
                            proof {
                                lemma_untouched_monotone(before, marks@, cells@.len());
                            }
                        }
                        proof {
                            assert forall|j: int, b: int|
                                0 <= j < i + 1 && #[trigger] leads_to(
                                    cells@,
                                    cells@[cell as int].items@[j],
                                    b,
                                ) implies marks@[b] == 2 by {
                                if j < i {
                                    assert(before[b] == 2);
                                    lemma_leads_to_cell(
                                        cells@,
                                        cells@[cell as int].items@[j],
                                        b,
                                    );
                                }
                            }
                        }
                    },
                }
            },
            _ => {},
        }
        i += 1;
    }
    let ghost marked = marks@;
    let ghost listed = order@;
    marks.set(cell, 2);
    order.push(cell);
    proof {
        assert forall|p: int, b: int|
            0 <= p < order@.len() && #[trigger] depends(cells@, order@[p] as int, b) implies exists|
            q: int,
        | 0 <= q < p && #[trigger] order@[q] == b by {
            if p < listed.len() {
                assert(order@[p] == listed[p]);
                let q = choose|q: int| 0 <= q < p && #[trigger] listed[q] == b;
                assert(order@[q] == b);
            } else {
                let j = choose|j: int|
                    0 <= j < cells@[cell as int].items@.len() && leads_to(
                        cells@,
                        #[trigger] cells@[cell as int].items@[j],
                        b,
                    );
                lemma_leads_to_cell(cells@, cells@[cell as int].items@[j], b);
                assert(marked[b] == 2);
                let q = choose|q: int| 0 <= q < listed.len() && #[trigger] listed[q] == b;
                assert(order@[q] == b);
            }
        }
        assert(order@.no_duplicates()) by {
            assert forall|a: int, b: int|
                0 <= a < order@.len() && 0 <= b < order@.len() && a != b implies order@[a]
                != order@[b] by {
                if a < listed.len() && b < listed.len() {
                    assert(listed[a] != listed[b]);
                } else if a < listed.len() {
                    assert(marked[listed[a] as int] == 2);
                } else {
                    assert(marked[listed[b] as int] == 2);
                }
            }
        }
        assert forall|p: int, j: int|
            0 <= p < order@.len() && 0 <= j
                < cells@[order@[p] as int].items@.len() implies item_resolves(
            cells@,
            #[trigger] cells@[order@[p] as int].items@[j],
        ) by {
            if p < listed.len() {
                assert(order@[p] == listed[p]);
                assert(item_resolves(cells@, cells@[listed[p] as int].items@[j]));
            }
        }
        assert(is_build_order(cells@, order@));
        assert(is_chain(cells@, open)) by {
            assert forall|k: int| 0 <= k < open.len() - 1 implies depends(
                cells@,
                #[trigger] open[k] as int,
                open[k + 1] as int,
            ) by {
                assert(depends(cells@, inner[k] as int, inner[k + 1] as int));
            }
        }
        assert forall|k: int| 0 <= k < marks@.len() && #[trigger] marks@[k] == 2 implies exists|
            j: int,
        | 0 <= j < order@.len() && #[trigger] order@[j] == k by {
            if k == cell {
                assert(order@[listed.len() as int] == cell);
            } else {
                assert(marked[k] == 2);
                let j = choose|j: int| 0 <= j < listed.len() && #[trigger] listed[j] == k;
                assert(order@[j] == k);
            }
        }
        assert forall|k: int| 0 <= k < marks@.len() && #[trigger] marks@[k] == 1 implies exists|
            j: int,
        | 0 <= j < open.len() && #[trigger] open[j] == k by {
            assert(marked[k] == 1);
            let j = choose|j: int| 0 <= j < inner.len() && #[trigger] inner[j] == k;
            assert(j < open.len());
            assert(open[j] == k);
        }
        assert forall|j: int| 0 <= j < open.len() implies marks@[(#[trigger] open[j]) as int]
            == 1 by {
            assert(inner[j] == open[j]);
            assert(marked[inner[j] as int] == 1);
            assert(start[open[j] as int] == 1);
        }
        assert forall|j: int| 0 <= j < order@.len() implies marks@[(#[trigger] order@[j]) as int]
            == 2 by {
            if j < listed.len() {
                assert(marked[listed[j] as int] == 2);
            }
        }
    }
    Ok(())
}

proof fn lemma_leads_to_cell(cells: Seq<SourceCell>, item: SourceItem, b: int)
    requires
        leads_to(cells, item, b),
    ensures
        0 <= b < cells.len(),
{
    if let SourceItem::Reference { target, copies } = item {
        flatten::lemma_resolve(cells, target@, cells.len());
    }
}

/// All cells, each after those that it refers to. Fails where a cell is missing, and where a cell
/// contains itself.
pub fn build_order(cells: &[SourceCell]) -> (result: Result<Vec<usize>, LoadError>)
    ensures
        match result {
            Ok(order) => {
                &&& is_build_order(cells@, order@)
                &&& order@.len() == cells@.len()
                &&& forall|c: usize| c < cells@.len() ==> #[trigger] order@.contains(c)
            },
            Err(error) => order_failure(cells@, error@),
        },
{
    let mut marks: Vec<u8> = Vec::new();
    while marks.len() < cells.len()
        invariant
            marks@.len() <= cells@.len(),
            forall|k: int| 0 <= k < marks@.len() ==> #[trigger] marks@[k] == 0,
        decreases cells@.len() - marks@.len(),
    {
        marks.push(0);
    }
    let mut order: Vec<usize> = Vec::new();
    let ghost open = Seq::<usize>::empty();
    let mut i: usize = 0;
    while i < cells.len()
        invariant
            i <= cells@.len(),
            open == Seq::<usize>::empty(),
            in_step(cells@, marks@, open, order@),
            forall|k: int| 0 <= k < i ==> #[trigger] marks@[k] == 2,
        decreases cells@.len() - i,
    {
        let ghost before = marks@;
        if marks[i] == 0 {
            match place_cell(cells, i, &mut marks, &mut order, Ghost(open)) {
                Ok(()) => {},
                Err(error) => {
                    return Err(error);
                },
            }
            assert forall|k: int| 0 <= k < i implies #[trigger] marks@[k] == 2 by {
                assert(before[k] == 2);
            }
        } else {
            assert(marks@[i as int] != 1);
        }
        i += 1;
    }
    proof {
        assert forall|c: usize| c < cells@.len() implies #[trigger] order@.contains(c) by {
            assert(marks@[c as int] == 2);
            let j = choose|j: int| 0 <= j < order@.len() && #[trigger] order@[j] == c;
            assert(order@[j] == c);
        }
        lemma_permutation_len(order@, cells@.len());
    }
    Ok(order)
}

proof fn lemma_permutation_len(order: Seq<usize>, count: nat)
    requires
        order.no_duplicates(),
        count <= usize::MAX,
        forall|k: int| 0 <= k < order.len() ==> (#[trigger] order[k]) < count,
        forall|c: usize| c < count ==> #[trigger] order.contains(c),
    ensures
        order.len() == count,
{
    let all = Set::new(|c: usize| c < count);
    assert(order.to_set() =~= all);
    order.unique_seq_to_set();
    lemma_below_len(count);
}

proof fn lemma_below_len(count: nat)
    requires
        count <= usize::MAX,
    ensures
        Set::new(|c: usize| c < count).finite(),
        Set::new(|c: usize| c < count).len() == count,
    decreases count,
{
    let all = Set::new(|c: usize| c < count);
    if count == 0 {
        assert(all =~= Set::<usize>::empty());
    } else {
        let last = (count - 1) as usize;
        let fewer = Set::new(|c: usize| c < (count - 1) as nat);
        lemma_below_len((count - 1) as nat);
        assert(all =~= fewer.insert(last));
    }
}

/// Cells that can be put in order contain no cycle.
pub proof fn law_ordered_cells_have_no_cycle(cells: Seq<SourceCell>, order: Seq<usize>)
    requires
        is_build_order(cells, order),
        cells.len() <= usize::MAX,
        forall|c: usize| c < cells.len() ==> #[trigger] order.contains(c),
    ensures
        !has_cycle(cells),
{
    if has_cycle(cells) {
        let chain = choose|chain: Seq<usize>|
            #![trigger is_chain(cells, chain)]
            is_chain(cells, chain) && chain.len() >= 2 && chain.first() == chain.last();
        assert(order.contains(chain[0]));
        let p = choose|p: int| 0 <= p < order.len() && order[p] == chain[0];
        lemma_chain_descends(cells, order, chain, p, chain.len() - 1);
        let q = choose|q: int|
            0 <= q <= p - (chain.len() - 1) && #[trigger] order[q] == chain[chain.len() - 1];
        assert(order[p] == order[q]);
    }
}

/// Cells that can be put in order refer to no cell that is not there.
pub proof fn law_ordered_cells_are_complete(
    cells: Seq<SourceCell>,
    order: Seq<usize>,
    name: Seq<char>,
)
    requires
        is_build_order(cells, order),
        cells.len() <= usize::MAX,
        forall|c: usize| c < cells.len() ==> #[trigger] order.contains(c),
    ensures
        !has_missing(cells, name),
{
    if flatten::is_referenced(cells, name) {
        let (c, i) = choose|c: int, i: int|
            0 <= c < cells.len() && 0 <= i < cells[c].items@.len() && flatten::refers_to(
                #[trigger] cells[c].items@[i],
                name,
            );
        assert(order.contains(c as usize));
        let p = choose|p: int| 0 <= p < order.len() && order[p] == c as usize;
        assert(item_resolves(cells, cells[order[p] as int].items@[i]));
    }
}

proof fn lemma_chain_descends(
    cells: Seq<SourceCell>,
    order: Seq<usize>,
    chain: Seq<usize>,
    p: int,
    i: int,
)
    requires
        is_build_order(cells, order),
        is_chain(cells, chain),
        0 <= p < order.len(),
        order[p] == chain[0],
        0 <= i < chain.len(),
    ensures
        exists|q: int| 0 <= q <= p - i && #[trigger] order[q] == chain[i],
    decreases i,
{
    if i == 0 {
        assert(order[p] == chain[0]);
    } else {
        lemma_chain_descends(cells, order, chain, p, i - 1);
        let q = choose|q: int| 0 <= q <= p - (i - 1) && #[trigger] order[q] == chain[i - 1];
        assert(depends(cells, chain[i - 1] as int, chain[i] as int));
        assert(depends(cells, order[q] as int, chain[i] as int));
        let r = choose|r: int| 0 <= r < q && #[trigger] order[r] == chain[i] as int;
        assert(order[r] == chain[i]);
    }
}

} // verus!
