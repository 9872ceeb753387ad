//! A layout shows what its file shows when every cell is unfolded.

use crate::io::flatten;
use crate::io::flatten::{CopyStep, FlatModel, SourceCell, SourceItem};
use crate::io::gds;
use crate::io::gds::{GdsElement, GdsStructure};
use crate::io::layered;
use crate::io::layered::GdsRules;
use crate::io::order;
use crate::layout;
use crate::layout::{LayoutBundle, LayoutCellId, LayoutInstance};
use crate::scene;
use crate::view_builder;
use crate::view_builder::{LayoutViewBuildOptions, Placing};
use crate::workset::counting;
use vstd::prelude::*;

verus! {

/// One element of one cell.
pub struct Part {
    pub cell: int,
    pub item: int,
}

/// The place of an element among the shapes of its structure.
pub open spec fn shape_rank(elements: Seq<GdsElement>, item: int, rules: GdsRules) -> int {
    layered::shapes_of(elements.take(item), rules).len() as int
}

/// Which shapes of a flat view are copies of the element on a level.
pub open spec fn flat_copy(part: Part, level: u32) -> spec_fn(FlatModel) -> bool {
    |shape: FlatModel|
        shape.place.cell == part.cell && shape.place.item == part.item && shape.hierarchy_level
            == level
}

/// Which shape of which cell is the shape of an element.
pub open spec fn is_shape_of(
    part: Part,
    structures: Seq<GdsStructure>,
    rules: GdsRules,
) -> spec_fn(LayoutCellId, int) -> bool {
    |id: LayoutCellId, index: int|
        id == layered::id_of(part.cell) && index == shape_rank(
            structures[part.cell].elements@,
            part.item,
            rules,
        )
}

/// How many copies of the part the first `count` items of a cell show so many levels below.
spec fn copies_below(cells: Seq<SourceCell>, cell: int, count: nat, depth: nat, part: Part) -> nat
    decreases depth, count,
{
    if count == 0 {
        0
    } else {
        copies_below(cells, cell, (count - 1) as nat, depth, part) + item_copies_below(
            cells,
            cell,
            (count - 1) as nat,
            depth,
            part,
        )
    }
}

/// How many copies of the part an item of a cell shows so many levels below.
spec fn item_copies_below(
    cells: Seq<SourceCell>,
    cell: int,
    item: nat,
    depth: nat,
    part: Part,
) -> nat
    decreases depth, item,
{
    match cells[cell].items@[item as int] {
        SourceItem::Shape { layer, closed, has_points, copies } => if depth == 0 && cell
            == part.cell && item == part.item && has_points && copies is Some {
            copies->0 as nat
        } else {
            0
        },
        SourceItem::Reference { target, copies } => match flatten::resolve(
            cells,
            target@,
            cells.len(),
        ) {
            Some(child) => if depth > 0 && copies is Some {
                copies->0 as nat * all_below(cells, child, (depth - 1) as nat, part)
            } else {
                0
            },
            None => 0,
        },
        SourceItem::Other => 0,
    }
}

/// How many copies of the part a cell shows so many levels below.
spec fn all_below(cells: Seq<SourceCell>, cell: int, depth: nat, part: Part) -> nat
    decreases depth, cells[cell].items@.len() + 1,
{
    copies_below(cells, cell, cells[cell].items@.len(), depth, part)
}

proof fn lemma_filter_all<A>(s: Seq<A>, p: spec_fn(A) -> bool)
    requires
        forall|i: int| 0 <= i < s.len() ==> p(#[trigger] s[i]),
    ensures
        s.filter(p).len() == s.len(),
    decreases s.len(),
{
    reveal(Seq::filter);
    if s.len() > 0 {
        assert forall|i: int| 0 <= i < s.drop_last().len() implies p(
            #[trigger] s.drop_last()[i],
        ) by {
            assert(s.drop_last()[i] == s[i]);
        }
        lemma_filter_all(s.drop_last(), p);
    }
}

proof fn lemma_filter_none<A>(s: Seq<A>, p: spec_fn(A) -> bool)
    requires
        forall|i: int| 0 <= i < s.len() ==> !p(#[trigger] s[i]),
    ensures
        s.filter(p).len() == 0,
    decreases s.len(),
{
    reveal(Seq::filter);
    if s.len() > 0 {
        assert forall|i: int| 0 <= i < s.drop_last().len() implies !p(
            #[trigger] s.drop_last()[i],
        ) by {
            assert(s.drop_last()[i] == s[i]);
        }
        lemma_filter_none(s.drop_last(), p);
    }
}

/// The flat view of a cell shows as many copies on each level as lie so far below it.
proof fn lemma_flat_cell(
    cells: Seq<SourceCell>,
    cell: int,
    stack: Seq<Seq<char>>,
    path: Seq<CopyStep>,
    count: nat,
    part: Part,
    level: u32,
)
    requires
        0 <= cell < cells.len() <= u32::MAX,
        count <= cells[cell].items@.len(),
        path.len() + flatten::unentered(cells, stack, cells.len()) <= cells.len(),
        0 <= part.cell <= usize::MAX,
        0 <= part.item <= usize::MAX,
        flatten::cell_shapes(cells, cell, stack, path, count) is Ok,
    ensures
        flatten::cell_shapes(cells, cell, stack, path, count)->Ok_0.filter(
            flat_copy(part, level),
        ).len() == counting::on_level(
            level,
            path.len(),
            |depth: nat| copies_below(cells, cell, count, depth, part),
        ),
    decreases flatten::unentered(cells, stack, cells.len()), 0int, count,
{
    reveal(Seq::filter);
    if count > 0 {
        let before = flatten::cell_shapes(cells, cell, stack, path, (count - 1) as nat);
        let more = flatten::item_shapes(cells, cell, (count - 1) as nat, stack, path);
        lemma_flat_cell(cells, cell, stack, path, (count - 1) as nat, part, level);
        lemma_flat_item(cells, cell, (count - 1) as nat, stack, path, part, level);
        counting::lemma_filter_add(before->Ok_0, more->Ok_0, flat_copy(part, level));
    }
}

proof fn lemma_flat_item(
    cells: Seq<SourceCell>,
    cell: int,
    item: nat,
    stack: Seq<Seq<char>>,
    path: Seq<CopyStep>,
    part: Part,
    level: u32,
)
    requires
        0 <= cell < cells.len() <= u32::MAX,
        item < cells[cell].items@.len(),
        path.len() + flatten::unentered(cells, stack, cells.len()) <= cells.len(),
        0 <= part.cell <= usize::MAX,
        0 <= part.item <= usize::MAX,
        flatten::item_shapes(cells, cell, item, stack, path) is Ok,
    ensures
        flatten::item_shapes(cells, cell, item, stack, path)->Ok_0.filter(
            flat_copy(part, level),
        ).len() == counting::on_level(
            level,
            path.len(),
            |depth: nat| item_copies_below(cells, cell, item, depth, part),
        ),
    decreases flatten::unentered(cells, stack, cells.len()), 0int, item,
{
    reveal(Seq::filter);
    let made = flatten::item_shapes(cells, cell, item, stack, path)->Ok_0;
    let wanted = flat_copy(part, level);
    match cells[cell].items@[item as int] {
        SourceItem::Shape { layer, closed, has_points, copies } => {
            assert(cells[cell].items@.len() == cells[cell].items.len());
            if has_points {
                if cell == part.cell && item == part.item && level == path.len() {
                    lemma_filter_all(made, wanted);
                } else {
                    lemma_filter_none(made, wanted);
                }
            }
        },
        SourceItem::Reference { target, copies } => {
            let child = flatten::resolve(cells, target@, cells.len())->0;
            flatten::lemma_resolve(cells, target@, cells.len());
            flatten::lemma_unentered(cells, stack, target@, cells.len(), child);
            lemma_flat_copies(
                cells,
                cell,
                item as int,
                child,
                stack.push(target@),
                path,
                copies->0 as nat,
                part,
                level,
            );
        },
        SourceItem::Other => {},
    }
}

proof fn lemma_flat_copies(
    cells: Seq<SourceCell>,
    cell: int,
    item: int,
    child: int,
    stack: Seq<Seq<char>>,
    path: Seq<CopyStep>,
    count: nat,
    part: Part,
    level: u32,
)
    requires
        0 <= child < cells.len() <= u32::MAX,
        path.len() + 1 + flatten::unentered(cells, stack, cells.len()) <= cells.len(),
        0 <= part.cell <= usize::MAX,
        0 <= part.item <= usize::MAX,
        flatten::copies_shapes(cells, cell, item, child, stack, path, count) is Ok,
    ensures
        flatten::copies_shapes(cells, cell, item, child, stack, path, count)->Ok_0.filter(
            flat_copy(part, level),
        ).len() == counting::on_level(
            level,
            path.len() + 1,
            |depth: nat| count * all_below(cells, child, depth, part),
        ),
    decreases flatten::unentered(cells, stack, cells.len()), 1int, count,
{
    reveal(Seq::filter);
    if count == 0 {
        assert forall|depth: nat| 0 * #[trigger] all_below(cells, child, depth, part) == 0 by {}
    } else {
        let step = CopyStep {
            cell: cell as usize,
            item: item as usize,
            copy: (count - 1) as u64,
        };
        let inner = path.push(step);
        let items = cells[child].items@.len();
        let before = flatten::copies_shapes(
            cells,
            cell,
            item,
            child,
            stack,
            path,
            (count - 1) as nat,
        );
        let more = flatten::cell_shapes(cells, child, stack, inner, items);
        lemma_flat_copies(cells, cell, item, child, stack, path, (count - 1) as nat, part, level);
        lemma_flat_cell(cells, child, stack, inner, items, part, level);
        counting::lemma_filter_add(before->Ok_0, more->Ok_0, flat_copy(part, level));
        if level >= path.len() + 1 {
            let below = all_below(cells, child, (level - (path.len() + 1)) as nat, part);
            assert((count - 1) * below + below == count * below) by (nonlinear_arith);
        }
    }
}

/// What the proofs about a layout and its file go on.
spec fn fits(
    cells: Seq<SourceCell>,
    structures: Seq<GdsStructure>,
    bundle: LayoutBundle,
    rules: GdsRules,
    part: Part,
) -> bool {
    &&& gds::are_cells_of(cells, structures)
    &&& layered::is_layout_of(bundle, cells, structures, rules)
    &&& structures.len() <= u32::MAX
    &&& forall|name: Seq<char>| !#[trigger] order::has_missing(cells, name)
    &&& 0 <= part.cell < structures.len()
    &&& 0 <= part.item < structures[part.cell].elements@.len()
    &&& layered::shape_of(structures[part.cell].elements@[part.item], rules) is Some
}

/// A reference of a cell leads to a cell.
proof fn lemma_reference_resolves(cells: Seq<SourceCell>, cell: int, item: int)
    requires
        0 <= cell < cells.len(),
        0 <= item < cells[cell].items@.len(),
        forall|name: Seq<char>| !#[trigger] order::has_missing(cells, name),
    ensures
        cells[cell].items@[item] matches SourceItem::Reference { target, copies } ==> (
        flatten::resolve(cells, target@, cells.len()) matches Some(child) && 0 <= child
            < cells.len()),
{
    if let SourceItem::Reference { target, copies } = cells[cell].items@[item] {
        assert(flatten::refers_to(cells[cell].items@[item], target@));
        assert(flatten::is_referenced(cells, target@));
        assert(!order::has_missing(cells, target@));
        flatten::lemma_resolve(cells, target@, cells.len());
    }
}

/// A cell without a rectangle shows nothing on any level.
proof fn lemma_empty_cell(
    cells: Seq<SourceCell>,
    structures: Seq<GdsStructure>,
    bundle: LayoutBundle,
    rules: GdsRules,
    part: Part,
    cell: int,
    depth: nat,
)
    requires
        fits(cells, structures, bundle, rules, part),
        0 <= cell < cells.len(),
        bundle.at(layered::id_of(cell)).bounds is None,
    ensures
        all_below(cells, cell, depth, part) == 0,
    decreases depth, cells[cell].items@.len() + 1,
{
    assert(bundle.has(layered::id_of(cell)));
    lemma_empty_items(
        cells,
        structures,
        bundle,
        rules,
        part,
        cell,
        cells[cell].items@.len(),
        depth,
    );
}

proof fn lemma_empty_items(
    cells: Seq<SourceCell>,
    structures: Seq<GdsStructure>,
    bundle: LayoutBundle,
    rules: GdsRules,
    part: Part,
    cell: int,
    count: nat,
    depth: nat,
)
    requires
        fits(cells, structures, bundle, rules, part),
        0 <= cell < cells.len(),
        count <= cells[cell].items@.len(),
        bundle.at(layered::id_of(cell)).bounds is None,
    ensures
        copies_below(cells, cell, count, depth, part) == 0,
    decreases depth, count,
{
    if count > 0 {
        let item = count - 1;
        lemma_empty_items(
            cells,
            structures,
            bundle,
            rules,
            part,
            cell,
            (count - 1) as nat,
            depth,
        );
        lemma_nothing_in(cells, structures, bundle, rules, part, cell);
        let elements = structures[cell].elements@;
        assert(bundle.has(layered::id_of(cell)));
        assert(cells[cell].items@[item]@ == gds::item_of(elements[item]));
        lemma_no_shape(elements, rules, item);
        lemma_no_instance(
            cells,
            elements,
            layered::cell_rectangles(bundle, structures.len()),
            rules,
            item,
        );
        lemma_reference_resolves(cells, cell, item);
        match cells[cell].items@[item] {
            SourceItem::Shape { layer, closed, has_points, copies } => {
                assert(!has_points);
            },
            SourceItem::Reference { target, copies } => {
                let child = flatten::resolve(cells, target@, cells.len())->0;
                assert(layered::target_of(elements[item]) == Some(target@));
                assert(layered::cell_rectangles(bundle, structures.len())[child]
                    == bundle.at(layered::id_of(child)).bounds);
                if depth > 0 {
                    lemma_empty_cell(
                        cells,
                        structures,
                        bundle,
                        rules,
                        part,
                        child,
                        (depth - 1) as nat,
                    );
                    let below = all_below(cells, child, (depth - 1) as nat, part);
                    assert(copies->0 as nat * below == 0) by (nonlinear_arith)
                        requires
                            below == 0,
                    ;
                }
            },
            SourceItem::Other => {},
        }
        assert(item_copies_below(cells, cell, (count - 1) as nat, depth, part) == 0);
    }
}

/// A cell without a rectangle has neither shapes nor instances.
proof fn lemma_nothing_in(
    cells: Seq<SourceCell>,
    structures: Seq<GdsStructure>,
    bundle: LayoutBundle,
    rules: GdsRules,
    part: Part,
    cell: int,
)
    requires
        fits(cells, structures, bundle, rules, part),
        0 <= cell < cells.len(),
        bundle.at(layered::id_of(cell)).bounds is None,
    ensures
        layered::shapes_of(structures[cell].elements@, rules).len() == 0,
        layered::instances_of(
            cells,
            structures[cell].elements@,
            layered::cell_rectangles(bundle, structures.len()),
            rules,
        ).len() == 0,
{
    assert(bundle.has(layered::id_of(cell)));
    let model = bundle.at(layered::id_of(cell));
    assert(model.consistent());
    let parts = layout::part_bounds(model.shapes, model.instances);
    assert(parts.len() == model.shapes.len() + model.instances.len());
    if parts.len() > 0 {
        assert(scene::union_of(parts) is Some);
    }
}

/// Where a list makes no shapes, none of its elements does.
proof fn lemma_no_shape(elements: Seq<GdsElement>, rules: GdsRules, item: int)
    requires
        layered::shapes_of(elements, rules).len() == 0,
        0 <= item < elements.len(),
    ensures
        layered::shape_of(elements[item], rules) is None,
    decreases elements.len(),
{
    if item < elements.len() - 1 {
        lemma_no_shape(elements.drop_last(), rules, item);
        assert(elements.drop_last()[item] == elements[item]);
    }
}

/// Where a list makes no instances, none of its elements does.
proof fn lemma_no_instance(
    cells: Seq<SourceCell>,
    elements: Seq<GdsElement>,
    bounds: Seq<Option<scene::Bounds>>,
    rules: GdsRules,
    item: int,
)
    requires
        layered::instances_of(cells, elements, bounds, rules).len() == 0,
        0 <= item < elements.len(),
    ensures
        layered::instance_of(cells, elements[item], bounds, rules) is None,
    decreases elements.len(),
{
    if item < elements.len() - 1 {
        lemma_no_instance(cells, elements.drop_last(), bounds, rules, item);
        assert(elements.drop_last()[item] == elements[item]);
    }
}

/// A cell itself shows a part once where the part is its own.
proof fn lemma_own_copies(
    cells: Seq<SourceCell>,
    structures: Seq<GdsStructure>,
    bundle: LayoutBundle,
    rules: GdsRules,
    part: Part,
    cell: int,
    count: nat,
)
    requires
        fits(cells, structures, bundle, rules, part),
        0 <= cell < cells.len(),
        count <= cells[cell].items@.len(),
    ensures
        copies_below(cells, cell, count, 0, part) == (if cell == part.cell && part.item < count {
            1nat
        } else {
            0nat
        }),
    decreases count,
{
    if count > 0 {
        lemma_own_copies(cells, structures, bundle, rules, part, cell, (count - 1) as nat);
        let element = structures[cell].elements@[count - 1];
        assert(cells[cell].items@[count - 1]@ == gds::item_of(element));
        let own = item_copies_below(cells, cell, (count - 1) as nat, 0, part);
        if cell == part.cell && count - 1 == part.item {
            match element {
                GdsElement::Boundary(outline) => {
                    assert(own == 1);
                },
                GdsElement::Box(outline) => {
                    assert(own == 1);
                },
                GdsElement::Path(path) => {
                    assert(own == 1);
                },
                _ => {},
            }
        } else {
            assert(own == 0);
        }
    }
}

/// How many copies of the part the first instances of a cell show.
spec fn instances_below(
    cells: Seq<SourceCell>,
    instances: Seq<LayoutInstance>,
    depth: nat,
    part: Part,
) -> nat
    decreases instances.len(),
{
    if instances.len() == 0 {
        0
    } else {
        let last = instances.last();
        instances_below(cells, instances.drop_last(), depth, part) + last.rows() * (
        last.columns() * all_below(cells, last.target_cell_id.0 as int, depth, part))
    }
}

/// The instances of a cell show what its references show.
proof fn lemma_instances_below(
    cells: Seq<SourceCell>,
    structures: Seq<GdsStructure>,
    bundle: LayoutBundle,
    rules: GdsRules,
    part: Part,
    cell: int,
    count: nat,
    depth: nat,
)
    requires
        fits(cells, structures, bundle, rules, part),
        0 <= cell < cells.len(),
        count <= cells[cell].items@.len(),
    ensures
        instances_below(
            cells,
            layered::instances_of(
                cells,
                structures[cell].elements@.take(count as int),
                layered::cell_rectangles(bundle, structures.len()),
                rules,
            ),
            depth,
            part,
        ) == copies_below(cells, cell, count, depth + 1, part),
    decreases count,
{
    let elements = structures[cell].elements@;
    let bounds = layered::cell_rectangles(bundle, structures.len());
    if count > 0 {
        let item = count - 1;
        lemma_instances_below(
            cells,
            structures,
            bundle,
            rules,
            part,
            cell,
            (count - 1) as nat,
            depth,
        );
        let head = elements.take(item);
        assert(elements.take(count as int).drop_last() =~= head);
        assert(elements.take(count as int).last() == elements[item]);
        assert(cells[cell].items@[item]@ == gds::item_of(elements[item]));
        lemma_reference_resolves(cells, cell, item);
        let made = layered::instances_of(cells, head, bounds, rules);
        match cells[cell].items@[item] {
            SourceItem::Reference { target, copies } => {
                let child = flatten::resolve(cells, target@, cells.len())->0;
                assert(layered::target_of(elements[item]) == Some(target@));
                assert(bounds[child] == bundle.at(layered::id_of(child)).bounds);
                let below = all_below(cells, child, depth, part);
                assert((depth + 1 - 1) as nat == depth);
                assert(item_copies_below(cells, cell, item as nat, depth + 1, part) == copies->0
                    * below);
                match layered::instance_of(cells, elements[item], bounds, rules) {
                    Some(instance) => {
                        assert(made.push(instance).drop_last() =~= made);
                        assert(instance.target_cell_id.0 == child);
                        lemma_copy_count(elements[item], rules, instance, copies->0);
                        assert(instance.rows() * (instance.columns() * below) == copies->0 * below)
                            by (nonlinear_arith)
                            requires
                                instance.rows() * instance.columns() == copies->0,
                        ;
                    },
                    None => {
                        lemma_empty_cell(cells, structures, bundle, rules, part, child, depth);
                        assert(copies->0 as nat * below == 0) by (nonlinear_arith)
                            requires
                                below == 0,
                        ;
                    },
                }
            },
            _ => {
                assert(layered::target_of(elements[item]) is None);
                assert(item_copies_below(cells, cell, item as nat, depth + 1, part) == 0);
            },
        }
        assert((count - 1) as nat == item as nat);
    } else {
        assert(elements.take(0) =~= Seq::empty());
    }
}

/// An instance makes as many copies as the reference that it stands for.
proof fn lemma_copy_count(
    element: GdsElement,
    rules: GdsRules,
    instance: LayoutInstance,
    copies: u64,
)
    requires
        instance.repetition == layered::placement_of(element, rules).1,
        gds::item_of(element) matches flatten::ItemModel::Reference { target, copies: stated }
            && stated == Some(copies),
    ensures
        instance.rows() * instance.columns() == copies,
{
    let down = instance.rows() as int;
    let across = instance.columns() as int;
    if let GdsElement::ArrayRef(aref) = element {
        let columns = gds::at_least_one(aref.columns) as int;
        let rows = gds::at_least_one(aref.rows) as int;
        assert(1 <= columns * rows <= 0xffff * 0xffff) by (nonlinear_arith)
            requires
                1 <= columns <= 0xffff,
                1 <= rows <= 0xffff,
        ;
        assert(copies == columns * rows);
        if copies > 1 {
            assert(down == rows && across == columns);
            assert(down * across == columns * rows) by (nonlinear_arith)
                requires
                    down == rows,
                    across == columns,
            ;
        } else {
            assert(down == 1 && across == 1);
        }
    } else {
        assert(down == 1 && across == 1 && copies == 1);
    }
    assert(down * across == copies);
}

/// A shape of a structure stands in its place among the shapes.
proof fn lemma_rank_is_shape(elements: Seq<GdsElement>, rules: GdsRules, item: int)
    requires
        0 <= item < elements.len(),
        layered::shape_of(elements[item], rules) is Some,
    ensures
        0 <= shape_rank(elements, item, rules) < layered::shapes_of(elements, rules).len(),
    decreases elements.len(),
{
    if item == elements.len() - 1 {
        assert(elements.take(item) =~= elements.drop_last());
    } else {
        assert(elements.drop_last().take(item) =~= elements.take(item));
        lemma_rank_is_shape(elements.drop_last(), rules, item);
    }
}

/// An instance uses the cell of a structure.
proof fn lemma_targets(
    cells: Seq<SourceCell>,
    elements: Seq<GdsElement>,
    bounds: Seq<Option<scene::Bounds>>,
    rules: GdsRules,
    instance: int,
)
    requires
        cells.len() <= u32::MAX,
        0 <= instance < layered::instances_of(cells, elements, bounds, rules).len(),
    ensures
        layered::instances_of(cells, elements, bounds, rules)[instance].target_cell_id.0
            < cells.len(),
    decreases elements.len(),
{
    if elements.len() > 0 {
        let head = layered::instances_of(cells, elements.drop_last(), bounds, rules);
        if instance < head.len() {
            lemma_targets(cells, elements.drop_last(), bounds, rules, instance);
        } else {
            let name = layered::target_of(elements.last())->0;
            flatten::lemma_resolve(cells, name, cells.len());
        }
    }
}

/// What stands below the cell of a structure is what its references show.
proof fn lemma_kept_is_shown(
    cells: Seq<SourceCell>,
    structures: Seq<GdsStructure>,
    bundle: LayoutBundle,
    rules: GdsRules,
    part: Part,
    cell: int,
    depth: nat,
)
    requires
        fits(cells, structures, bundle, rules, part),
        0 <= cell < cells.len(),
    ensures
        counting::kept_below(
            bundle,
            is_shape_of(part, structures, rules),
            layered::id_of(cell),
            depth,
        ) == all_below(cells, cell, depth, part),
    decreases depth, 0nat,
{
    let keep = is_shape_of(part, structures, rules);
    let id = layered::id_of(cell);
    let elements = structures[cell].elements@;
    let items = cells[cell].items@.len();
    assert(bundle.has(id));
    assert(elements.take(items as int) =~= elements);
    if depth == 0 {
        lemma_own_copies(cells, structures, bundle, rules, part, cell, items);
        lemma_kept_shapes(structures, rules, part, id, bundle.at(id).shapes.len());
        if cell == part.cell {
            lemma_rank_is_shape(elements, rules, part.item);
        }
    } else {
        let instances = bundle.at(id).instances;
        let below = (depth - 1) as nat;
        lemma_instances_below(cells, structures, bundle, rules, part, cell, items, below);
        assert forall|k: int| 0 <= k < instances.len() implies (
        #[trigger] instances[k]).target_cell_id.0 < cells.len() by {
            lemma_targets(
                cells,
                elements,
                layered::cell_rectangles(bundle, structures.len()),
                rules,
                k,
            );
        }
        lemma_kept_in_instances(cells, structures, bundle, rules, part, instances, below);
    }
}

proof fn lemma_kept_in_instances(
    cells: Seq<SourceCell>,
    structures: Seq<GdsStructure>,
    bundle: LayoutBundle,
    rules: GdsRules,
    part: Part,
    instances: Seq<LayoutInstance>,
    depth: nat,
)
    requires
        fits(cells, structures, bundle, rules, part),
        forall|k: int|
            0 <= k < instances.len() ==> (#[trigger] instances[k]).target_cell_id.0 < cells.len(),
    ensures
        counting::kept_in_instances(
            bundle,
            is_shape_of(part, structures, rules),
            instances,
            depth,
        ) == instances_below(cells, instances, depth, part),
    decreases depth, instances.len() + 1,
{
    if instances.len() > 0 {
        let last = instances.last();
        assert(last == instances[instances.len() - 1]);
        assert forall|k: int| 0 <= k < instances.drop_last().len() implies (
        #[trigger] instances.drop_last()[k]).target_cell_id.0 < cells.len() by {
            assert(instances.drop_last()[k] == instances[k]);
        }
        lemma_kept_in_instances(
            cells,
            structures,
            bundle,
            rules,
            part,
            instances.drop_last(),
            depth,
        );
        let child = last.target_cell_id.0 as int;
        assert(layered::id_of(child) == last.target_cell_id);
        lemma_kept_is_shown(cells, structures, bundle, rules, part, child, depth);
    }
}

/// Of the shapes of a cell the part is one, where it is its own.
proof fn lemma_kept_shapes(
    structures: Seq<GdsStructure>,
    rules: GdsRules,
    part: Part,
    id: LayoutCellId,
    count: nat,
)
    ensures
        counting::kept_shapes(is_shape_of(part, structures, rules), id, count) == (if id
            == layered::id_of(part.cell) && shape_rank(
            structures[part.cell].elements@,
            part.item,
            rules,
        ) < count {
            1nat
        } else {
            0nat
        }),
    decreases count,
{
    if count > 0 {
        lemma_kept_shapes(structures, rules, part, id, (count - 1) as nat);
    }
}

/// A view of a layout shows every shape of the file, on every level that it shows at all, exactly
/// as often as the flat view of the same structure does.
pub proof fn law_layout_shows_what_the_flat_view_shows(
    cells: Seq<SourceCell>,
    structures: Seq<GdsStructure>,
    bundle: LayoutBundle,
    rules: GdsRules,
    options: LayoutViewBuildOptions,
    d: Placing,
    root: int,
    part: Part,
    level: u32,
)
    requires
        gds::are_cells_of(cells, structures),
        structures.len() <= u32::MAX,
        bundle.linked(),
        layered::is_layout_of(bundle, cells, structures, rules),
        forall|name: Seq<char>| !#[trigger] order::has_missing(cells, name),
        0 <= root < structures.len(),
        flatten::view_of(cells, root) is Ok,
        options.root_cell_id == layered::id_of(root),
        counting::shows_all(options),
        options.min_hierarchy_level <= level <= options.max_hierarchy_level,
        0 <= part.cell < structures.len(),
        0 <= part.item < structures[part.cell].elements@.len(),
        layered::shape_of(structures[part.cell].elements@[part.item], rules) is Some,
    ensures
        view_builder::view_contribution(bundle, options, d).filter(
            counting::kept_on(is_shape_of(part, structures, rules), level),
        ).len() == flatten::view_of(cells, root)->Ok_0.filter(flat_copy(part, level)).len(),
{
    let name = cells[root].name@;
    let stack = seq![name];
    let none = Seq::<Seq<char>>::empty();
    assert(none.push(name) =~= stack);
    flatten::lemma_unentered(cells, none, name, cells.len(), root);
    assert(structures[part.cell].elements@.len() == structures[part.cell].elements.len());
    lemma_all_unentered(cells, none, cells.len());
    lemma_flat_cell(
        cells,
        root,
        stack,
        Seq::empty(),
        cells[root].items@.len(),
        part,
        level,
    );
    assert(bundle.has(layered::id_of(root)));
    counting::lemma_cell_counts(
        bundle,
        options,
        d,
        Seq::empty(),
        layered::id_of(root),
        0,
        is_shape_of(part, structures, rules),
        level,
    );
    lemma_kept_is_shown(cells, structures, bundle, rules, part, root, level as nat);
}

proof fn lemma_all_unentered(cells: Seq<SourceCell>, stack: Seq<Seq<char>>, count: nat)
    ensures
        flatten::unentered(cells, stack, count) <= count,
    decreases count,
{
    if count > 0 {
        lemma_all_unentered(cells, stack, (count - 1) as nat);
    }
}

} // verus!
