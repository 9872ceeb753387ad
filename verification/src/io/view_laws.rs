//! What holds of the views of a file: which shapes they show, in what order, and when they fail.

use crate::io::flatten;
use crate::io::flatten::{CopyStep, FlatModel, LoadFailure, SourceCell, SourceItem};
use vstd::prelude::*;

verus! {

/// Whether a name means this cell: it is the last one that is called so.
pub open spec fn is_meant(cells: Seq<SourceCell>, name: Seq<char>, cell: int) -> bool {
    &&& 0 <= cell < cells.len()
    &&& cells[cell].name@ == name
    &&& forall|k: int| cell < k < cells.len() ==> (#[trigger] cells[k]).name@ != name
}

/// Whether a name means no cell.
pub open spec fn means_nothing(cells: Seq<SourceCell>, name: Seq<char>) -> bool {
    forall|k: int| 0 <= k < cells.len() ==> (#[trigger] cells[k]).name@ != name
}

/// A name means one cell at most, and a cell wherever there is one that is called so.
pub proof fn law_names_mean_the_last_cell(cells: Seq<SourceCell>, name: Seq<char>)
    ensures
        match flatten::resolve(cells, name, cells.len()) {
            Some(cell) => is_meant(cells, name, cell),
            None => means_nothing(cells, name),
        },
{
    lemma_last_named(cells, name, cells.len());
}

proof fn lemma_last_named(cells: Seq<SourceCell>, name: Seq<char>, count: nat)
    requires
        count <= cells.len(),
        forall|k: int| count <= k < cells.len() ==> (#[trigger] cells[k]).name@ != name,
    ensures
        match flatten::resolve(cells, name, count) {
            Some(cell) => is_meant(cells, name, cell),
            None => means_nothing(cells, name),
        },
    decreases count,
{
    if count > 0 && cells[count - 1].name@ != name {
        lemma_last_named(cells, name, (count - 1) as nat);
    }
}

/// The item that a step goes through.
pub open spec fn item_at(cells: Seq<SourceCell>, step: CopyStep) -> SourceItem {
    cells[step.cell as int].items@[step.item as int]
}

/// Whether there is such an item.
pub open spec fn has_item(cells: Seq<SourceCell>, step: CopyStep) -> bool {
    step.cell < cells.len() && step.item < cells[step.cell as int].items@.len()
}

/// Whether the step goes through one of the copies of a reference to the cell.
pub open spec fn steps_into(cells: Seq<SourceCell>, step: CopyStep, cell: int) -> bool {
    has_item(cells, step) && match item_at(cells, step) {
        SourceItem::Reference { target, copies } => copies matches Some(n) && step.copy < n
            && is_meant(cells, target@, cell),
        _ => false,
    }
}

/// The cell that a path is in after a step.
pub open spec fn cell_after(path: Seq<CopyStep>, to: int, i: int) -> int {
    if i + 1 < path.len() {
        path[i + 1].cell as int
    } else {
        to
    }
}

/// Whether the path leads from one cell to another, each step through one copy of one reference.
pub open spec fn leads(cells: Seq<SourceCell>, from: int, path: Seq<CopyStep>, to: int) -> bool {
    &&& path.len() == 0 ==> from == to
    &&& path.len() > 0 ==> path[0].cell == from
    &&& forall|i: int|
        0 <= i < path.len() ==> #[trigger] steps_into(cells, path[i], cell_after(path, to, i))
}

/// Whether the shape is one of the copies of an outline, on the level that the references leading
/// to it tell.
pub open spec fn is_outline_copy(cells: Seq<SourceCell>, shape: FlatModel) -> bool {
    &&& has_item(cells, shape.place)
    &&& shape.hierarchy_level == shape.path.len() as u32
    &&& match item_at(cells, shape.place) {
        SourceItem::Shape { layer, closed, has_points, copies } => shape.layer == layer
            && shape.closed == closed && has_points && (copies matches Some(n) && shape.place.copy
            < n),
        _ => false,
    }
}

/// Whether one shape comes before another: where their ways part, through an earlier item, or
/// through an earlier copy of the same one.
pub open spec fn comes_before(a: FlatModel, b: FlatModel) -> bool {
    exists|m: int| #[trigger] parts_at(a, b, m)
}

/// The step of a shape's way at a depth; the last one is the shape itself.
pub open spec fn way_at(shape: FlatModel, m: int) -> CopyStep {
    if m < shape.path.len() {
        shape.path[m]
    } else {
        shape.place
    }
}

/// Whether the ways of two shapes part at a depth, with the first one going before.
pub open spec fn parts_at(a: FlatModel, b: FlatModel, m: int) -> bool {
    let x = way_at(a, m);
    let y = way_at(b, m);
    &&& 0 <= m <= a.path.len()
    &&& m <= b.path.len()
    &&& a.path.take(m) == b.path.take(m)
    &&& x.item < y.item || (x.item == y.item && x.copy < y.copy)
}

/// Whether the shape is one that the cell shows, reached by a path.
spec fn belongs(cells: Seq<SourceCell>, cell: int, path: Seq<CopyStep>, s: FlatModel) -> bool {
    let p = path.len() as int;
    &&& s.path.len() >= p
    &&& s.path.take(p) == path
    &&& leads(cells, cell, s.path.skip(p), s.place.cell as int)
    &&& is_outline_copy(cells, s)
}

/// Whether the list holds the shapes with a property, each once and in order.
spec fn lists(shapes: Seq<FlatModel>, p: spec_fn(FlatModel) -> bool) -> bool {
    &&& forall|s: FlatModel| #[trigger] shapes.contains(s) <==> p(s)
    &&& forall|i: int, j: int|
        0 <= i < j < shapes.len() ==> comes_before(#[trigger] shapes[i], #[trigger] shapes[j])
}

proof fn lemma_lists_add(
    a: Seq<FlatModel>,
    b: Seq<FlatModel>,
    p: spec_fn(FlatModel) -> bool,
    q: spec_fn(FlatModel) -> bool,
    r: spec_fn(FlatModel) -> bool,
)
    requires
        lists(a, p),
        lists(b, q),
        forall|s: FlatModel| #[trigger] r(s) <==> p(s) || q(s),
        forall|s: FlatModel, t: FlatModel| #[trigger] p(s) && #[trigger] q(t) ==> comes_before(s, t),
    ensures
        lists(a + b, r),
{
    let all = a + b;
    assert forall|s: FlatModel| #[trigger] all.contains(s) <==> r(s) by {
        assert(a.contains(s) <==> p(s));
        assert(b.contains(s) <==> q(s));
        if a.contains(s) {
            let k = choose|k: int| 0 <= k < a.len() && a[k] == s;
            assert(all[k] == s);
        }
        if b.contains(s) {
            let k = choose|k: int| 0 <= k < b.len() && b[k] == s;
            assert(all[a.len() + k] == s);
        }
        if all.contains(s) {
            let k = choose|k: int| 0 <= k < all.len() && all[k] == s;
            if k < a.len() {
                assert(a[k] == s);
            } else {
                assert(b[k - a.len()] == s);
            }
        }
    }
    assert forall|i: int, j: int| 0 <= i < j < all.len() implies comes_before(
        #[trigger] all[i],
        #[trigger] all[j],
    ) by {
        if j < a.len() {
            assert(comes_before(a[i], a[j]));
        } else if i >= a.len() {
            assert(comes_before(b[i - a.len()], b[j - a.len()]));
        } else {
            assert(a.contains(a[i]));
            assert(b.contains(b[j - a.len()]));
            assert(p(a[i]));
            assert(q(b[j - a.len()]));
        }
    }
}

proof fn lemma_cell_lists(
    cells: Seq<SourceCell>,
    cell: int,
    stack: Seq<Seq<char>>,
    path: Seq<CopyStep>,
    count: nat,
)
    requires
        cells.len() <= usize::MAX,
        0 <= cell < cells.len(),
        count <= cells[cell].items@.len(),
        forall|c: int| 0 <= c < cells.len() ==> (#[trigger] cells[c]).items@.len() <= usize::MAX,
        flatten::cell_shapes(cells, cell, stack, path, count) is Ok,
    ensures
        lists(
            flatten::cell_shapes(cells, cell, stack, path, count)->Ok_0,
            |s: FlatModel|
                belongs(cells, cell, path, s) && way_at(s, path.len() as int).item < count,
        ),
    decreases flatten::unentered(cells, stack, cells.len()), 0int, count,
{
    let d = path.len() as int;
    let r = |s: FlatModel| belongs(cells, cell, path, s) && way_at(s, d).item < count;
    if count == 0 {
        let none = Seq::<FlatModel>::empty();
        assert(lists(none, r));
    } else {
        let last = (count - 1) as nat;
        lemma_cell_lists(cells, cell, stack, path, last);
        lemma_item_lists(cells, cell, last, stack, path);
        let before = flatten::cell_shapes(cells, cell, stack, path, last)->Ok_0;
        let more = flatten::item_shapes(cells, cell, last, stack, path)->Ok_0;
        let p = |s: FlatModel| belongs(cells, cell, path, s) && way_at(s, d).item < last;
        let q = |s: FlatModel| belongs(cells, cell, path, s) && way_at(s, d).item == last;
        assert forall|s: FlatModel, t: FlatModel| #[trigger] p(s) && #[trigger] q(
            t,
        ) implies comes_before(s, t) by {
            assert(parts_at(s, t, d));
        }
        lemma_lists_add(before, more, p, q, r);
    }
}

/// Where a shape of a cell starts its way, it is in the cell.
proof fn lemma_way_starts(cells: Seq<SourceCell>, cell: int, path: Seq<CopyStep>, s: FlatModel)
    requires
        belongs(cells, cell, path, s),
    ensures
        way_at(s, path.len() as int).cell == cell,
        has_item(cells, way_at(s, path.len() as int)),
{
    let rest = s.path.skip(path.len() as int);
    if rest.len() > 0 {
        assert(rest[0] == s.path[path.len() as int]);
        assert(steps_into(cells, rest[0], cell_after(rest, s.place.cell as int, 0)));
    }
}

proof fn lemma_item_lists(
    cells: Seq<SourceCell>,
    cell: int,
    item: nat,
    stack: Seq<Seq<char>>,
    path: Seq<CopyStep>,
)
    requires
        cells.len() <= usize::MAX,
        0 <= cell < cells.len(),
        item < cells[cell].items@.len(),
        forall|c: int| 0 <= c < cells.len() ==> (#[trigger] cells[c]).items@.len() <= usize::MAX,
        flatten::item_shapes(cells, cell, item, stack, path) is Ok,
    ensures
        lists(
            flatten::item_shapes(cells, cell, item, stack, path)->Ok_0,
            |s: FlatModel|
                belongs(cells, cell, path, s) && way_at(s, path.len() as int).item == item,
        ),
    decreases flatten::unentered(cells, stack, cells.len()), 0int, item,
{
    let d = path.len() as int;
    let r = |s: FlatModel| belongs(cells, cell, path, s) && way_at(s, d).item == item;
    let all = flatten::item_shapes(cells, cell, item, stack, path)->Ok_0;
    match cells[cell].items@[item as int] {
        SourceItem::Shape { layer, closed, has_points, copies } => {
            assert forall|s: FlatModel| #[trigger] r(s) implies s.path == path && s.place.cell == cell
                && s.place.item == item by {
                lemma_way_starts(cells, cell, path, s);
                if s.path.len() > d {
                    let rest = s.path.skip(d);
                    assert(rest[0] == s.path[d]);
                    assert(steps_into(cells, rest[0], cell_after(rest, s.place.cell as int, 0)));
                }
                assert(s.path =~= path);
            }
            assert forall|s: FlatModel| #[trigger] all.contains(s) <==> r(s) by {
                if all.contains(s) {
                    let k = choose|k: int| 0 <= k < all.len() && all[k] == s;
                    assert(s.path.take(d) =~= path);
                    assert(s.path.skip(d).len() == 0);
                }
                if r(s) {
                    let k = s.place.copy as int;
                    assert(all[k] == s);
                }
            }
            assert forall|i: int, j: int| 0 <= i < j < all.len() implies comes_before(
                #[trigger] all[i],
                #[trigger] all[j],
            ) by {
                assert(parts_at(all[i], all[j], d));
            }
        },
        SourceItem::Reference { target, copies } => {
            let child = flatten::resolve(cells, target@, cells.len()).unwrap();
            flatten::lemma_resolve(cells, target@, cells.len());
            flatten::lemma_unentered(cells, stack, target@, cells.len(), child);
            law_names_mean_the_last_cell(cells, target@);
            let n = copies.unwrap();
            lemma_copies_list(
                cells,
                cell,
                item as int,
                child,
                stack.push(target@),
                path,
                n as nat,
            );
            let q = |s: FlatModel|
                belongs(cells, cell, path, s) && s.path.len() > d && s.path[d].item == item
                    && s.path[d].copy < n;
            assert forall|s: FlatModel| #[trigger] all.contains(s) <==> r(s) by {
                assert(all.contains(s) <==> q(s));
                if r(s) {
                    lemma_way_starts(cells, cell, path, s);
                    if s.path.len() > d {
                        let rest = s.path.skip(d);
                        assert(rest[0] == s.path[d]);
                        assert(steps_into(
                            cells,
                            rest[0],
                            cell_after(rest, s.place.cell as int, 0),
                        ));
                    }
                }
            }
        },
        SourceItem::Other => {
            assert forall|s: FlatModel| #[trigger] all.contains(s) <==> r(s) by {
                if r(s) {
                    lemma_way_starts(cells, cell, path, s);
                    if s.path.len() > d {
                        let rest = s.path.skip(d);
                        assert(rest[0] == s.path[d]);
                        assert(steps_into(
                            cells,
                            rest[0],
                            cell_after(rest, s.place.cell as int, 0),
                        ));
                    }
                }
            }
        },
    }
}

/// What a cell shows through one copy of a reference is what the cell referred to shows.
proof fn lemma_through_step(
    cells: Seq<SourceCell>,
    cell: int,
    path: Seq<CopyStep>,
    step: CopyStep,
    child: int,
    s: FlatModel,
)
    requires
        step.cell == cell,
        steps_into(cells, step, child),
    ensures
        belongs(cells, child, path.push(step), s) <==> belongs(cells, cell, path, s)
            && s.path.len() > path.len() && s.path[path.len() as int] == step,
{
    let d = path.len() as int;
    let to = s.place.cell as int;
    let deeper = path.push(step);
    if s.path.len() > d {
        let long = s.path.skip(d);
        let short = s.path.skip(d + 1);
        assert(long[0] == s.path[d]);
        assert forall|i: int| 0 <= i < short.len() implies short[i] == #[trigger] long[i + 1]
            && cell_after(short, to, i) == cell_after(long, to, i + 1) by {}
        if belongs(cells, child, deeper, s) {
            assert(s.path.take(d + 1)[d] == s.path[d]);
            assert(s.path[d] == step);
            assert(s.path.take(d) =~= s.path.take(d + 1).take(d));
            assert(deeper.take(d) =~= path);
            assert forall|i: int| 0 <= i < long.len() implies #[trigger] steps_into(
                cells,
                long[i],
                cell_after(long, to, i),
            ) by {
                if i > 0 {
                    assert(steps_into(cells, short[i - 1], cell_after(short, to, i - 1)));
                } else if short.len() > 0 {
                    assert(long[1] == short[0]);
                    assert(cell_after(long, to, 0) == child);
                } else {
                    assert(cell_after(long, to, 0) == child);
                }
            }
        }
        if belongs(cells, cell, path, s) && s.path[d] == step {
            assert(s.path.take(d + 1) =~= deeper);
            assert(steps_into(cells, long[0], cell_after(long, to, 0)));
            lemma_meant_once(cells, step, child, cell_after(long, to, 0));
            if short.len() > 0 {
                assert(long[1] == short[0]);
            }
            assert forall|i: int| 0 <= i < short.len() implies #[trigger] steps_into(
                cells,
                short[i],
                cell_after(short, to, i),
            ) by {
                assert(steps_into(cells, long[i + 1], cell_after(long, to, i + 1)));
            }
        }
    }
}

proof fn lemma_meant_once(cells: Seq<SourceCell>, step: CopyStep, a: int, b: int)
    requires
        steps_into(cells, step, a),
        steps_into(cells, step, b),
    ensures
        a == b,
{
    if a < b {
        assert(cells[b].name@ != cells[a].name@);
    } else if b < a {
        assert(cells[a].name@ != cells[b].name@);
    }
}

proof fn lemma_copies_list(
    cells: Seq<SourceCell>,
    cell: int,
    item: int,
    child: int,
    stack: Seq<Seq<char>>,
    path: Seq<CopyStep>,
    count: nat,
)
    requires
        cells.len() <= usize::MAX,
        0 <= cell < cells.len(),
        0 <= item < cells[cell].items@.len(),
        0 <= child < cells.len(),
        forall|c: int| 0 <= c < cells.len() ==> (#[trigger] cells[c]).items@.len() <= usize::MAX,
        cells[cell].items@[item] matches SourceItem::Reference { target, copies } && is_meant(
            cells,
            target@,
            child,
        ) && (copies matches Some(n) && count <= n),
        flatten::copies_shapes(cells, cell, item, child, stack, path, count) is Ok,
    ensures
        lists(
            flatten::copies_shapes(cells, cell, item, child, stack, path, count)->Ok_0,
            |s: FlatModel|
                belongs(cells, cell, path, s) && s.path.len() > path.len()
                    && s.path[path.len() as int].item == item && s.path[path.len() as int].copy
                    < count,
        ),
    decreases flatten::unentered(cells, stack, cells.len()), 1int, count,
{
    let d = path.len() as int;
    let r = |s: FlatModel|
        belongs(cells, cell, path, s) && s.path.len() > d && s.path[d].item == item
            && s.path[d].copy < count;
    if count == 0 {
        assert(lists(Seq::<FlatModel>::empty(), r));
    } else {
        let last = (count - 1) as nat;
        let step = CopyStep { cell: cell as usize, item: item as usize, copy: last as u64 };
        let deeper = path.push(step);
        lemma_copies_list(cells, cell, item, child, stack, path, last);
        lemma_cell_lists(cells, child, stack, deeper, cells[child].items@.len());
        let before = flatten::copies_shapes(cells, cell, item, child, stack, path, last)->Ok_0;
        let more = flatten::cell_shapes(
            cells,
            child,
            stack,
            deeper,
            cells[child].items@.len(),
        )->Ok_0;
        let p = |s: FlatModel|
            belongs(cells, cell, path, s) && s.path.len() > d && s.path[d].item == item
                && s.path[d].copy < last;
        let inner = |s: FlatModel|
            belongs(cells, child, deeper, s) && way_at(s, deeper.len() as int).item
                < cells[child].items@.len();
        let q = |s: FlatModel|
            belongs(cells, cell, path, s) && s.path.len() > d && s.path[d].item == item
                && s.path[d].copy == last;
        assert forall|s: FlatModel| #[trigger] more.contains(s) <==> q(s) by {
            assert(more.contains(s) <==> inner(s));
            lemma_through_step(cells, cell, path, step, child, s);
            if belongs(cells, child, deeper, s) {
                lemma_way_starts(cells, child, deeper, s);
            }
            if q(s) {
                lemma_way_starts(cells, cell, path, s);
                assert(s.path[d] == step);
            }
        }
        assert forall|s: FlatModel, t: FlatModel| #[trigger] p(s) && #[trigger] q(
            t,
        ) implies comes_before(s, t) by {
            assert(parts_at(s, t, d));
        }
        lemma_lists_add(before, more, p, q, r);
    }
}

/// A view shows every copy of every outline that a path of references leads to from its cell,
/// through each copy of each reference, and nothing else: on the layer of the outline, on the
/// level that the references leading to it tell, each once, and in the order of the items and their
/// copies.
pub proof fn law_views_show_every_copy(cells: Seq<SourceCell>, root: int)
    requires
        cells.len() <= usize::MAX,
        0 <= root < cells.len(),
        forall|c: int| 0 <= c < cells.len() ==> (#[trigger] cells[c]).items@.len() <= usize::MAX,
        flatten::view_of(cells, root) is Ok,
    ensures
        ({
            let shapes = flatten::view_of(cells, root)->Ok_0;
            &&& forall|s: FlatModel| #[trigger]
                shapes.contains(s) <==> leads(cells, root, s.path, s.place.cell as int)
                    && is_outline_copy(cells, s)
            &&& forall|i: int, j: int|
                0 <= i < j < shapes.len() ==> comes_before(#[trigger] shapes[i], #[trigger] shapes[j])
        }),
{
    let none = Seq::<CopyStep>::empty();
    let count = cells[root].items@.len();
    lemma_cell_lists(cells, root, seq![cells[root].name@], none, count);
    let shapes = flatten::view_of(cells, root)->Ok_0;
    let r = |s: FlatModel| belongs(cells, root, none, s) && way_at(s, 0).item < count;
    assert forall|s: FlatModel| #[trigger] shapes.contains(s) <==> leads(
        cells,
        root,
        s.path,
        s.place.cell as int,
    ) && is_outline_copy(cells, s) by {
        assert(shapes.contains(s) <==> r(s));
        assert(s.path.skip(0) =~= s.path);
        assert(s.path.take(0) =~= none);
        if leads(cells, root, s.path, s.place.cell as int) && is_outline_copy(cells, s) {
            lemma_way_starts(cells, root, none, s);
        }
    }
}

/// Whether the cell is being unfolded where the path has come to.
pub open spec fn is_open(
    cells: Seq<SourceCell>,
    root: int,
    path: Seq<CopyStep>,
    to: int,
    name: Seq<char>,
) -> bool {
    cells[root].name@ == name || exists|i: int|
        0 <= i < path.len() && cells[#[trigger] cell_after(path, to, i)].name@ == name
}

/// Why an item cannot be unfolded, if it cannot: it refers to no cell, or to one that is being
/// unfolded, or the way of repeating it is not known.
pub open spec fn item_failure(
    cells: Seq<SourceCell>,
    root: int,
    path: Seq<CopyStep>,
    cell: int,
    item: int,
) -> Option<LoadFailure> {
    match cells[cell].items@[item] {
        SourceItem::Shape { layer, closed, has_points, copies } => if copies is None {
            Some(LoadFailure::UnsupportedRepetition)
        } else {
            None
        },
        SourceItem::Reference { target, copies } => if means_nothing(cells, target@) {
            Some(LoadFailure::MissingCell(target@))
        } else if is_open(cells, root, path, cell, target@) {
            Some(LoadFailure::CyclicReference(target@))
        } else if copies is None {
            Some(LoadFailure::UnsupportedRepetition)
        } else {
            None
        },
        SourceItem::Other => None,
    }
}

/// Whether an item that a path leads to fails in this way.
pub open spec fn fails_at(
    cells: Seq<SourceCell>,
    root: int,
    path: Seq<CopyStep>,
    cell: int,
    item: int,
    failure: LoadFailure,
) -> bool {
    &&& leads(cells, root, path, cell)
    &&& 0 <= cell < cells.len()
    &&& 0 <= item < cells[cell].items@.len()
    &&& item_failure(cells, root, path, cell, item) == Some(failure)
}

/// Whether the list holds the names of the cells that are being unfolded where the path has come
/// to.
spec fn names_open(
    cells: Seq<SourceCell>,
    root: int,
    path: Seq<CopyStep>,
    to: int,
    stack: Seq<Seq<char>>,
) -> bool {
    forall|name: Seq<char>| #[trigger] stack.contains(name) <==> is_open(cells, root, path, to, name)
}

proof fn lemma_open_push(
    cells: Seq<SourceCell>,
    root: int,
    path: Seq<CopyStep>,
    step: CopyStep,
    child: int,
    stack: Seq<Seq<char>>,
)
    requires
        names_open(cells, root, path, step.cell as int, stack),
        0 <= child < cells.len(),
        leads(cells, root, path, step.cell as int),
        steps_into(cells, step, child),
    ensures
        names_open(cells, root, path.push(step), child, stack.push(cells[child].name@)),
        leads(cells, root, path.push(step), child),
{
    let deeper = path.push(step);
    let from = step.cell as int;
    assert forall|i: int| 0 <= i < path.len() implies cell_after(deeper, child, i)
        == #[trigger] cell_after(path, from, i) by {}
    assert forall|i: int| 0 <= i < deeper.len() implies #[trigger] steps_into(
        cells,
        deeper[i],
        cell_after(deeper, child, i),
    ) by {
        if i < path.len() {
            assert(steps_into(cells, path[i], cell_after(path, from, i)));
        }
    }
    let name = cells[child].name@;
    assert forall|x: Seq<char>| #[trigger] stack.push(name).contains(x) <==> is_open(
        cells,
        root,
        deeper,
        child,
        x,
    ) by {
        crate::seqs::lemma_push_contains(stack, name, x);
        assert(stack.contains(x) <==> is_open(cells, root, path, from, x));
        if is_open(cells, root, path, from, x) && cells[root].name@ != x {
            let i = choose|i: int|
                0 <= i < path.len() && cells[#[trigger] cell_after(path, from, i)].name@ == x;
            assert(cells[cell_after(deeper, child, i)].name@ == x);
        }
        if x == name {
            assert(cell_after(deeper, child, path.len() as int) == child);
        }
        if is_open(cells, root, deeper, child, x) && cells[root].name@ != x {
            let i = choose|i: int|
                0 <= i < deeper.len() && cells[#[trigger] cell_after(deeper, child, i)].name@ == x;
            if i < path.len() {
                assert(cells[cell_after(path, from, i)].name@ == x);
            }
        }
    }
}

/// Whether a way from the cell of a path on leads to an item that fails.
spec fn fails_below(
    cells: Seq<SourceCell>,
    root: int,
    path: Seq<CopyStep>,
    cell: int,
    rest: Seq<CopyStep>,
    to: int,
    item: int,
    failure: LoadFailure,
) -> bool {
    &&& leads(cells, cell, rest, to)
    &&& 0 <= to < cells.len()
    &&& 0 <= item < cells[to].items@.len()
    &&& item_failure(cells, root, path + rest, to, item) == Some(failure)
}

/// The first item on the way.
spec fn first_item(rest: Seq<CopyStep>, item: int) -> int {
    if rest.len() > 0 {
        rest[0].item as int
    } else {
        item
    }
}

proof fn lemma_cell_fails(
    cells: Seq<SourceCell>,
    root: int,
    cell: int,
    stack: Seq<Seq<char>>,
    path: Seq<CopyStep>,
    count: nat,
)
    requires
        cells.len() <= usize::MAX,
        0 <= cell < cells.len(),
        count <= cells[cell].items@.len(),
        forall|c: int| 0 <= c < cells.len() ==> (#[trigger] cells[c]).items@.len() <= usize::MAX,
        names_open(cells, root, path, cell, stack),
        leads(cells, root, path, cell),
    ensures
        match flatten::cell_shapes(cells, cell, stack, path, count) {
            Ok(_) => forall|rest: Seq<CopyStep>, to: int, item: int, failure: LoadFailure|
                first_item(rest, item) < count ==> !#[trigger] fails_below(
                    cells,
                    root,
                    path,
                    cell,
                    rest,
                    to,
                    item,
                    failure,
                ),
            Err(failure) => exists|rest: Seq<CopyStep>, to: int, item: int|
                first_item(rest, item) < count && #[trigger] fails_below(
                    cells,
                    root,
                    path,
                    cell,
                    rest,
                    to,
                    item,
                    failure,
                ),
        },
    decreases flatten::unentered(cells, stack, cells.len()), 0int, count,
{
    if count > 0 {
        let last = (count - 1) as nat;
        lemma_cell_fails(cells, root, cell, stack, path, last);
        lemma_item_fails(cells, root, cell, last, stack, path);
    } else {
        assert forall|rest: Seq<CopyStep>, to: int, item: int, failure: LoadFailure|
            first_item(rest, item) < count implies !#[trigger] fails_below(
            cells,
            root,
            path,
            cell,
            rest,
            to,
            item,
            failure,
        ) by {}
    }
}

proof fn lemma_item_fails(
    cells: Seq<SourceCell>,
    root: int,
    cell: int,
    item: nat,
    stack: Seq<Seq<char>>,
    path: Seq<CopyStep>,
)
    requires
        cells.len() <= usize::MAX,
        0 <= cell < cells.len(),
        item < cells[cell].items@.len(),
        forall|c: int| 0 <= c < cells.len() ==> (#[trigger] cells[c]).items@.len() <= usize::MAX,
        names_open(cells, root, path, cell, stack),
        leads(cells, root, path, cell),
    ensures
        match flatten::item_shapes(cells, cell, item, stack, path) {
            Ok(_) => forall|rest: Seq<CopyStep>, to: int, at: int, failure: LoadFailure|
                first_item(rest, at) == item ==> !#[trigger] fails_below(
                    cells,
                    root,
                    path,
                    cell,
                    rest,
                    to,
                    at,
                    failure,
                ),
            Err(failure) => exists|rest: Seq<CopyStep>, to: int, at: int|
                first_item(rest, at) == item && #[trigger] fails_below(
                    cells,
                    root,
                    path,
                    cell,
                    rest,
                    to,
                    at,
                    failure,
                ),
        },
    decreases flatten::unentered(cells, stack, cells.len()), 0int, item,
{
    let none = Seq::<CopyStep>::empty();
    assert(path + none =~= path);
    let own = item_failure(cells, root, path, cell, item as int);
    let found = cells[cell].items@[item as int];
    if let SourceItem::Reference { target, copies } = found {
        law_names_mean_the_last_cell(cells, target@);
        assert(stack.contains(target@) <==> is_open(cells, root, path, cell, target@));
    }
    if own is Some {
        assert(fails_below(cells, root, path, cell, none, cell, item as int, own.unwrap()));
        assert(flatten::item_shapes(cells, cell, item, stack, path) == Err::<
            Seq<FlatModel>,
            LoadFailure,
        >(own.unwrap()));
    } else {
        match found {
            SourceItem::Reference { target, copies } => {
                let child = flatten::resolve(cells, target@, cells.len()).unwrap();
                flatten::lemma_resolve(cells, target@, cells.len());
                flatten::lemma_unentered(cells, stack, target@, cells.len(), child);
                let n = copies.unwrap();
                lemma_copies_fail(
                    cells,
                    root,
                    cell,
                    item as int,
                    child,
                    stack,
                    path,
                    n as nat,
                );
                assert forall|rest: Seq<CopyStep>, to: int, at: int, failure: LoadFailure|
                    first_item(rest, at) == item && #[trigger] fails_below(
                        cells,
                        root,
                        path,
                        cell,
                        rest,
                        to,
                        at,
                        failure,
                    ) implies rest.len() > 0 && rest[0].copy < n by {
                    if rest.len() > 0 {
                        assert(steps_into(cells, rest[0], cell_after(rest, to, 0)));
                    } else {
                        assert(rest =~= none);
                    }
                }
            },
            _ => {
                assert forall|rest: Seq<CopyStep>, to: int, at: int, failure: LoadFailure|
                    first_item(rest, at) == item implies !#[trigger] fails_below(
                    cells,
                    root,
                    path,
                    cell,
                    rest,
                    to,
                    at,
                    failure,
                ) by {
                    if fails_below(cells, root, path, cell, rest, to, at, failure) {
                        if rest.len() > 0 {
                            assert(steps_into(cells, rest[0], cell_after(rest, to, 0)));
                        } else {
                            assert(rest =~= none);
                        }
                    }
                }
            },
        }
    }
}

/// Failing below one copy of a reference is failing below the cell referred to.
proof fn lemma_fails_through(
    cells: Seq<SourceCell>,
    root: int,
    path: Seq<CopyStep>,
    cell: int,
    step: CopyStep,
    child: int,
    rest: Seq<CopyStep>,
    to: int,
    at: int,
    failure: LoadFailure,
)
    requires
        step.cell == cell,
        steps_into(cells, step, child),
    ensures
        fails_below(cells, root, path.push(step), child, rest, to, at, failure) <==> fails_below(
            cells,
            root,
            path,
            cell,
            seq![step] + rest,
            to,
            at,
            failure,
        ),
{
    let long = seq![step] + rest;
    assert(path.push(step) + rest =~= path + long);
    assert forall|i: int| 0 <= i < rest.len() implies rest[i] == #[trigger] long[i + 1]
        && cell_after(rest, to, i) == cell_after(long, to, i + 1) by {}
    if leads(cells, child, rest, to) {
        assert forall|i: int| 0 <= i < long.len() implies #[trigger] steps_into(
            cells,
            long[i],
            cell_after(long, to, i),
        ) by {
            if i > 0 {
                assert(steps_into(cells, rest[i - 1], cell_after(rest, to, i - 1)));
            } else {
                assert(cell_after(long, to, 0) == child);
            }
        }
    }
    if leads(cells, cell, long, to) {
        assert(steps_into(cells, long[0], cell_after(long, to, 0)));
        lemma_meant_once(cells, step, child, cell_after(long, to, 0));
        assert forall|i: int| 0 <= i < rest.len() implies #[trigger] steps_into(
            cells,
            rest[i],
            cell_after(rest, to, i),
        ) by {
            assert(steps_into(cells, long[i + 1], cell_after(long, to, i + 1)));
        }
    }
}

proof fn lemma_copies_fail(
    cells: Seq<SourceCell>,
    root: int,
    cell: int,
    item: int,
    child: int,
    stack: Seq<Seq<char>>,
    path: Seq<CopyStep>,
    count: nat,
)
    requires
        cells.len() <= usize::MAX,
        0 <= cell < cells.len(),
        0 <= item < cells[cell].items@.len(),
        0 <= child < cells.len(),
        forall|c: int| 0 <= c < cells.len() ==> (#[trigger] cells[c]).items@.len() <= usize::MAX,
        cells[cell].items@[item] matches SourceItem::Reference { target, copies } && is_meant(
            cells,
            target@,
            child,
        ) && (copies matches Some(n) && count <= n),
        names_open(cells, root, path, cell, stack),
        leads(cells, root, path, cell),
    ensures
        match flatten::copies_shapes(
            cells,
            cell,
            item,
            child,
            stack.push(cells[child].name@),
            path,
            count,
        ) {
            Ok(_) => forall|rest: Seq<CopyStep>, to: int, at: int, failure: LoadFailure|
                rest.len() > 0 && rest[0].item == item && rest[0].copy < count
                    ==> !#[trigger] fails_below(cells, root, path, cell, rest, to, at, failure),
            Err(failure) => exists|rest: Seq<CopyStep>, to: int, at: int|
                rest.len() > 0 && rest[0].item == item && rest[0].copy < count
                    && #[trigger] fails_below(cells, root, path, cell, rest, to, at, failure),
        },
    decreases flatten::unentered(cells, stack.push(cells[child].name@), cells.len()), 1int, count,
{
    if count > 0 {
        let last = (count - 1) as nat;
        let step = CopyStep { cell: cell as usize, item: item as usize, copy: last as u64 };
        let deeper = path.push(step);
        let inner = stack.push(cells[child].name@);
        let all = cells[child].items@.len();
        lemma_copies_fail(cells, root, cell, item, child, stack, path, last);
        lemma_open_push(cells, root, path, step, child, stack);
        lemma_cell_fails(cells, root, child, inner, deeper, all);
        match flatten::copies_shapes(cells, cell, item, child, inner, path, last) {
            Err(_) => {},
            Ok(_) => match flatten::cell_shapes(cells, child, inner, deeper, all) {
                Err(failure) => {
                    let (rest, to, at) = choose|rest: Seq<CopyStep>, to: int, at: int|
                        first_item(rest, at) < all && #[trigger] fails_below(
                            cells,
                            root,
                            deeper,
                            child,
                            rest,
                            to,
                            at,
                            failure,
                        );
                    lemma_fails_through(
                        cells,
                        root,
                        path,
                        cell,
                        step,
                        child,
                        rest,
                        to,
                        at,
                        failure,
                    );
                    assert((seq![step] + rest)[0] == step);
                },
                Ok(_) => {
                    assert forall|rest: Seq<CopyStep>, to: int, at: int, failure: LoadFailure|
                        rest.len() > 0 && rest[0].item == item && rest[0].copy
                            < count implies !#[trigger] fails_below(
                        cells,
                        root,
                        path,
                        cell,
                        rest,
                        to,
                        at,
                        failure,
                    ) by {
                        if fails_below(cells, root, path, cell, rest, to, at, failure)
                            && rest[0].copy == last {
                            assert(rest[0] == step);
                            let short = rest.skip(1);
                            assert(seq![step] + short =~= rest);
                            lemma_fails_through(
                                cells,
                                root,
                                path,
                                cell,
                                step,
                                child,
                                short,
                                to,
                                at,
                                failure,
                            );
                            if short.len() > 0 {
                                assert(steps_into(cells, short[0], cell_after(short, to, 0)));
                            }
                            assert(first_item(short, at) < all);
                        }
                    }
                },
            },
        }
    }
}

/// A view fails where an item that a path leads to fails, and for that reason; where none does, it
/// does not fail.
pub proof fn law_views_fail_for_a_reason(cells: Seq<SourceCell>, root: int)
    requires
        cells.len() <= usize::MAX,
        0 <= root < cells.len(),
        forall|c: int| 0 <= c < cells.len() ==> (#[trigger] cells[c]).items@.len() <= usize::MAX,
    ensures
        match flatten::view_of(cells, root) {
            Ok(_) => forall|path: Seq<CopyStep>, cell: int, item: int, failure: LoadFailure|
                !#[trigger] fails_at(cells, root, path, cell, item, failure),
            Err(failure) => exists|path: Seq<CopyStep>, cell: int, item: int| #[trigger]
                fails_at(cells, root, path, cell, item, failure),
        },
{
    let none = Seq::<CopyStep>::empty();
    let stack = seq![cells[root].name@];
    let count = cells[root].items@.len();
    assert forall|name: Seq<char>| #[trigger] stack.contains(name) <==> is_open(
        cells,
        root,
        none,
        root,
        name,
    ) by {
        assert(stack[0] == cells[root].name@);
    }
    lemma_cell_fails(cells, root, root, stack, none, count);
    match flatten::view_of(cells, root) {
        Ok(_) => {
            assert forall|path: Seq<CopyStep>, cell: int, item: int, failure: LoadFailure|
                !#[trigger] fails_at(cells, root, path, cell, item, failure) by {
                if fails_at(cells, root, path, cell, item, failure) {
                    assert(none + path =~= path);
                    if path.len() > 0 {
                        assert(steps_into(cells, path[0], cell_after(path, cell, 0)));
                    }
                    assert(first_item(path, item) < count);
                    assert(fails_below(cells, root, none, root, path, cell, item, failure));
                }
            }
        },
        Err(failure) => {
            let (path, cell, item) = choose|path: Seq<CopyStep>, cell: int, item: int|
                first_item(path, item) < count && #[trigger] fails_below(
                    cells,
                    root,
                    none,
                    root,
                    path,
                    cell,
                    item,
                    failure,
                );
            assert(none + path =~= path);
            assert(fails_at(cells, root, path, cell, item, failure));
        },
    }
}

/// Views start from the cells that nothing refers to, in the order of the file, or from all of them
/// where something refers to each.
pub proof fn law_views_start_from_roots(cells: Seq<SourceCell>)
    requires
        cells.len() <= usize::MAX,
    ensures
        ({
            let roots = flatten::root_cells(cells);
            let free = |c: int| 0 <= c < cells.len() && is_free(cells, c);
            &&& (exists|c: int| #[trigger] free(c)) ==> forall|c: int|
                free(c) <==> roots.contains(#[trigger] (c as usize)) && 0 <= c <= usize::MAX
            &&& !(exists|c: int| #[trigger] free(c)) ==> roots.len() == cells.len()
            &&& forall|i: int, j: int|
                0 <= i < j < roots.len() ==> (#[trigger] roots[i]) < (#[trigger] roots[j])
            &&& forall|i: int| 0 <= i < roots.len() ==> (#[trigger] roots[i]) < cells.len()
        }),
{
    let found = flatten::unreferenced(cells, cells.len());
    lemma_unreferenced(cells, cells.len());
    let free = |c: int| 0 <= c < cells.len() && is_free(cells, c);
    if exists|c: int| #[trigger] free(c) {
        let c = choose|c: int| #[trigger] free(c);
        assert(found.contains(c as usize));
    } else if found.len() > 0 {
        assert(found.contains(found[0]));
        assert(free(found[0] as int));
    }
    let roots = flatten::root_cells(cells);
    assert forall|i: int, j: int| 0 <= i < j < roots.len() implies (#[trigger] roots[i]) < (
    #[trigger] roots[j]) by {}
    assert forall|i: int| 0 <= i < roots.len() implies (#[trigger] roots[i]) < cells.len() by {
        if found.len() > 0 {
            assert(found.contains(found[i]));
        }
    }
    if exists|c: int| #[trigger] free(c) {
        assert forall|c: int| free(c) <==> roots.contains(#[trigger] (c as usize)) && 0 <= c
            <= usize::MAX by {
            if 0 <= c <= usize::MAX {
                assert(found.contains(c as usize) <==> c < cells.len() && is_free(cells, c));
            }
        }
    }
}

/// Whether no item of any cell refers to the cell by its name.
pub open spec fn is_free(cells: Seq<SourceCell>, cell: int) -> bool {
    forall|c: int, i: int|
        0 <= c < cells.len() && 0 <= i < cells[c].items@.len() ==> match #[trigger] cells[c].items@[i] {
            SourceItem::Reference { target, copies } => target@ != cells[cell].name@,
            _ => true,
        }
}

proof fn lemma_unreferenced(cells: Seq<SourceCell>, count: nat)
    requires
        count <= cells.len() <= usize::MAX,
    ensures
        ({
            let found = flatten::unreferenced(cells, count);
            &&& forall|c: usize| #[trigger]
                found.contains(c) <==> c < count && is_free(cells, c as int)
            &&& forall|i: int, j: int|
                0 <= i < j < found.len() ==> (#[trigger] found[i]) < (#[trigger] found[j])
        }),
    decreases count,
{
    if count > 0 {
        let last = (count - 1) as usize;
        lemma_unreferenced(cells, (count - 1) as nat);
        let rest = flatten::unreferenced(cells, (count - 1) as nat);
        let found = flatten::unreferenced(cells, count);
        let name = cells[last as int].name@;
        assert(flatten::is_referenced(cells, name) <==> !is_free(cells, last as int)) by {
            if flatten::is_referenced(cells, name) {
                let (c, i) = choose|c: int, i: int|
                    0 <= c < cells.len() && 0 <= i < cells[c].items@.len() && flatten::refers_to(
                        #[trigger] cells[c].items@[i],
                        name,
                    );
                assert(flatten::refers_to(cells[c].items@[i], name));
            }
            if !is_free(cells, last as int) {
                let (c, i) = choose|c: int, i: int|
                    0 <= c < cells.len() && 0 <= i < cells[c].items@.len() && !(match #[trigger] cells[c].items@[i] {
                        SourceItem::Reference { target, copies } => target@ != name,
                        _ => true,
                    });
                assert(flatten::refers_to(cells[c].items@[i], name));
            }
        }
        assert forall|c: usize| #[trigger] found.contains(c) <==> c < count && is_free(
            cells,
            c as int,
        ) by {
            crate::seqs::lemma_push_contains(rest, last, c);
            assert(rest.contains(c) <==> c < count - 1 && is_free(cells, c as int));
        }
        assert forall|i: int, j: int| 0 <= i < j < found.len() implies (#[trigger] found[i]) < (
        #[trigger] found[j]) by {
            if j < rest.len() {
                assert(rest[i] < rest[j]);
            } else {
                assert(rest.contains(rest[i]));
            }
        }
    }
}

} // verus!
