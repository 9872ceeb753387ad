//! What holds of the shapes and instances of a layout.

use crate::io::element_laws;
use crate::io::flatten::SourceCell;
use crate::io::gds::{GdsElement, GdsStructure};
use crate::io::layered;
use crate::io::layered::GdsRules;
use crate::io::view_laws;
use crate::layout;
use crate::layout::{LayoutInstance, LayoutRepetition, LocalShape};
use crate::scene;
use crate::scene::{Bounds, Point};
use crate::seqs;
use vstd::prelude::*;

verus! {

/// The points that an element draws.
pub open spec fn drawn_points(element: GdsElement) -> Seq<(i32, i32)> {
    match element {
        GdsElement::Boundary(outline) => outline.xy@,
        GdsElement::Box(outline) => outline.xy@,
        GdsElement::Path(path) => path.xy@,
        _ => Seq::empty(),
    }
}

/// The layer and datatype of an element that draws something.
pub open spec fn drawn_on(element: GdsElement) -> (int, int) {
    match element {
        GdsElement::Boundary(outline) => (
            element_laws::layer_number(outline.layer),
            element_laws::layer_number(outline.datatype),
        ),
        GdsElement::Box(outline) => (
            element_laws::layer_number(outline.layer),
            element_laws::layer_number(outline.datatype),
        ),
        GdsElement::Path(path) => (
            element_laws::layer_number(path.layer),
            element_laws::layer_number(path.datatype),
        ),
        _ => (0, 0),
    }
}

/// Whether this is what the element draws: on its layer, with all its points; an open line for a
/// path, which has the width of the path and room for it, and a closed outline else.
pub open spec fn draws(element: GdsElement, shape: LocalShape, rules: GdsRules) -> bool {
    &&& (shape.layer.layer as int, shape.layer.datatype as int) == drawn_on(element)
    &&& shape.points.len() == drawn_points(element).len()
    &&& forall|k: int|
        0 <= k < shape.points.len() ==> #[trigger] shape.points[k] == (rules.point)(
            drawn_points(element)[k],
        )
    &&& match element {
        GdsElement::Path(path) => {
            let given: int = match path.width {
                Some(width) => width as int,
                None => 0,
            };
            let width: i32 = if given > 0 {
                given as i32
            } else {
                0
            };
            &&& !shape.closed
            &&& shape.stroke_width == Some((rules.stroke)(width))
            &&& scene::points_bounds(shape.points) matches Some(around) && shape.bounds == (
            rules.widened)(around, (rules.stroke)(width))
        },
        _ => {
            &&& shape.closed
            &&& shape.stroke_width is None
            &&& scene::points_bounds(shape.points) == Some(shape.bounds)
        },
    }
}

/// The shapes of a cell are what the elements of its structure draw that have points, in order.
pub proof fn law_elements_are_drawn(elements: Seq<GdsElement>, rules: GdsRules)
    ensures
        seqs::made_in_order(
            elements,
            layered::shapes_of(elements, rules),
            |element: GdsElement| drawn_points(element).len() > 0,
            |element: GdsElement, shape: LocalShape| draws(element, shape, rules),
        ),
    decreases elements.len(),
{
    let some = |element: GdsElement| drawn_points(element).len() > 0;
    let makes = |element: GdsElement, shape: LocalShape| draws(element, shape, rules);
    if elements.len() == 0 {
        seqs::lemma_made_of_nothing(some, makes);
        assert(elements =~= Seq::empty());
    } else {
        let init = elements.drop_last();
        let last = elements.last();
        law_elements_are_drawn(init, rules);
        let more: Seq<LocalShape> = match layered::shape_of(last, rules) {
            Some(shape) => seq![shape],
            None => Seq::empty(),
        };
        match last {
            GdsElement::Boundary(outline) => {
                element_laws::lemma_layer_number(outline.layer);
                element_laws::lemma_layer_number(outline.datatype);
                lemma_bounds_exist(layered::points_of(outline.xy@, rules));
            },
            GdsElement::Box(outline) => {
                element_laws::lemma_layer_number(outline.layer);
                element_laws::lemma_layer_number(outline.datatype);
                lemma_bounds_exist(layered::points_of(outline.xy@, rules));
            },
            GdsElement::Path(path) => {
                element_laws::lemma_layer_number(path.layer);
                element_laws::lemma_layer_number(path.datatype);
                lemma_bounds_exist(layered::points_of(path.xy@, rules));
            },
            _ => {},
        }
        seqs::lemma_made_in_order(
            init,
            layered::shapes_of(init, rules),
            last,
            more,
            some,
            makes,
        );
        assert(init.push(last) =~= elements);
        assert(layered::shapes_of(init, rules) + more =~= layered::shapes_of(elements, rules));
    }
}

proof fn lemma_bounds_exist(points: Seq<Point>)
    ensures
        points.len() > 0 ==> scene::points_bounds(points) is Some,
{
    let spans = points.map_values(|p: Point| scene::point_bounds(p));
    if points.len() > 0 {
        reveal_with_fuel(scene::union_of, 1);
        assert(spans.len() > 0);
    }
}

/// The name that an element refers to; the empty name for one that refers to nothing.
pub open spec fn referred_name(element: GdsElement) -> Seq<char> {
    match element {
        GdsElement::StructRef(sref) => sref.sname@,
        GdsElement::ArrayRef(aref) => aref.sname@,
        _ => Seq::empty(),
    }
}

/// Whether the element refers to the structure.
pub open spec fn refers(cells: Seq<SourceCell>, element: GdsElement, target: int) -> bool {
    &&& element is StructRef || element is ArrayRef
    &&& view_laws::is_meant(cells, referred_name(element), target)
}

/// Whether the element places a structure that shows something.
pub open spec fn places_some(
    cells: Seq<SourceCell>,
    element: GdsElement,
    bounds: Seq<Option<Bounds>>,
) -> bool {
    exists|target: int| #[trigger] refers(cells, element, target) && bounds[target] is Some
}

/// Whether the step leads along an array from its origin to the point, in this number of places; no
/// step where the point is missing or there is one place only.
pub open spec fn leads_along(
    step: Point,
    xy: Seq<(i32, i32)>,
    nth: int,
    count: u16,
    rules: GdsRules,
) -> bool {
    if nth < xy.len() && count >= 2 {
        step == (rules.step)(xy[0], xy[nth], count)
    } else {
        step == (Point { x: 0, y: 0 })
    }
}

/// Whether the instance is what the element places: the structure that it refers to, at its first
/// point, and for an array of more than one place as a grid with its columns and rows.
pub open spec fn is_placed(
    cells: Seq<SourceCell>,
    element: GdsElement,
    instance: LayoutInstance,
    bounds: Seq<Option<Bounds>>,
    rules: GdsRules,
) -> bool {
    &&& refers(cells, element, instance.target_cell_id.0 as int)
    &&& bounds[instance.target_cell_id.0 as int] matches Some(inner) && instance.local_bounds == (
    rules.reach)(inner, instance.transform, instance.repetition)
    &&& match element {
        GdsElement::StructRef(sref) => {
            &&& instance.transform == (rules.transform)(sref.xy, sref.strans)
            &&& instance.repetition is None
        },
        GdsElement::ArrayRef(aref) => {
            &&& instance.transform == (rules.transform)(
                if aref.xy@.len() > 0 {
                    aref.xy@[0]
                } else {
                    (0i32, 0i32)
                },
                aref.strans,
            )
            &&& instance.repetition is Some <==> aref.columns >= 2 || aref.rows >= 2
            &&& instance.repetition matches Some(
                LayoutRepetition::RegularGrid { columns, rows, column_step, row_step },
            ) ==> {
                &&& columns == element_laws::places(aref.columns as int)
                &&& rows == element_laws::places(aref.rows as int)
                &&& leads_along(column_step, aref.xy@, 1, aref.columns, rules)
                &&& leads_along(row_step, aref.xy@, 2, aref.rows, rules)
            }
        },
        _ => false,
    }
}

/// The instances of a cell are what the elements of its structure place, in order. A reference to a
/// structure that is not there or shows nothing places nothing.
pub proof fn law_references_are_placed(
    cells: Seq<SourceCell>,
    elements: Seq<GdsElement>,
    bounds: Seq<Option<Bounds>>,
    rules: GdsRules,
)
    requires
        cells.len() <= u64::MAX,
    ensures
        seqs::made_in_order(
            elements,
            layered::instances_of(cells, elements, bounds, rules),
            |element: GdsElement| places_some(cells, element, bounds),
            |element: GdsElement, instance: LayoutInstance|
                is_placed(cells, element, instance, bounds, rules),
        ),
    decreases elements.len(),
{
    let some = |element: GdsElement| places_some(cells, element, bounds);
    let makes = |element: GdsElement, instance: LayoutInstance|
        is_placed(cells, element, instance, bounds, rules);
    if elements.len() == 0 {
        seqs::lemma_made_of_nothing(some, makes);
        assert(elements =~= Seq::empty());
    } else {
        let init = elements.drop_last();
        let last = elements.last();
        law_references_are_placed(cells, init, bounds, rules);
        let made = layered::instance_of(cells, last, bounds, rules);
        let more: Seq<LayoutInstance> = match made {
            Some(instance) => seq![instance],
            None => Seq::empty(),
        };
        let name = referred_name(last);
        view_laws::law_names_mean_the_last_cell(cells, name);
        lemma_meant_alone(cells, name);
        if places_some(cells, last, bounds) {
            let target = choose|target: int| #[trigger]
                refers(cells, last, target) && bounds[target] is Some;
            assert(made is Some);
        }
        if made is Some {
            let target = crate::io::flatten::resolve(cells, name, cells.len())->0;
            assert(refers(cells, last, target));
            if last is ArrayRef {
                let aref = last->ArrayRef_0;
                let c = element_laws::places(aref.columns as int);
                let r = element_laws::places(aref.rows as int);
                assert(1 <= c * r <= 0xffff * 0xffff) by (nonlinear_arith)
                    requires
                        1 <= c <= 0xffff,
                        1 <= r <= 0xffff,
                ;
                assert(c * r > 1 <==> c >= 2 || r >= 2) by (nonlinear_arith)
                    requires
                        1 <= c,
                        1 <= r,
                ;
            }
            assert(is_placed(cells, last, made->0, bounds, rules));
        }
        seqs::lemma_made_in_order(
            init,
            layered::instances_of(cells, init, bounds, rules),
            last,
            more,
            some,
            makes,
        );
        assert(init.push(last) =~= elements);
        assert(layered::instances_of(cells, init, bounds, rules) + more =~= layered::instances_of(
            cells,
            elements,
            bounds,
            rules,
        ));
    }
}

proof fn lemma_meant_alone(cells: Seq<SourceCell>, name: Seq<char>)
    ensures
        forall|a: int, b: int| #[trigger]
            view_laws::is_meant(cells, name, a) && #[trigger] view_laws::is_meant(cells, name, b)
                ==> a == b,
{
    assert forall|a: int, b: int| #[trigger]
        view_laws::is_meant(cells, name, a) && #[trigger] view_laws::is_meant(
            cells,
            name,
            b,
        ) implies a == b by {
        if a < b {
            assert(cells[b].name@ == name);
        }
        if b < a {
            assert(cells[a].name@ == name);
        }
    }
}

/// A layout has a cell for each structure, with its name, its shapes and its instances, and
/// numbered by its place in the file. The rectangle of a cell is the one around all of these.
pub proof fn law_structures_become_cells(
    bundle: layout::LayoutBundle,
    cells: Seq<SourceCell>,
    structures: Seq<GdsStructure>,
    rules: GdsRules,
    cell: int,
)
    requires
        layered::is_layout_of(bundle, cells, structures, rules),
        0 <= cell < structures.len() <= u64::MAX,
        cells.len() <= u64::MAX,
    ensures
        ({
            let model = bundle.at(layered::id_of(cell));
            let bounds = Seq::new(
                structures.len(),
                |c: int| bundle.at(layered::id_of(c)).bounds,
            );
            let elements = structures[cell].elements@;
            &&& model.id.0 == cell
            &&& model.name == structures[cell].name@
            &&& seqs::made_in_order(
                elements,
                model.shapes,
                |element: GdsElement| drawn_points(element).len() > 0,
                |element: GdsElement, shape: LocalShape| draws(element, shape, rules),
            )
            &&& seqs::made_in_order(
                elements,
                model.instances,
                |element: GdsElement| places_some(cells, element, bounds),
                |element: GdsElement, instance: LayoutInstance|
                    is_placed(cells, element, instance, bounds, rules),
            )
            &&& model.bounds == scene::union_of(
                layout::part_bounds(model.shapes, model.instances),
            )
        }),
{
    let bounds = Seq::new(structures.len(), |c: int| bundle.at(layered::id_of(c)).bounds);
    assert(bundle.has(layered::id_of(cell)));
    assert(bounds =~= layered::cell_rectangles(bundle, structures.len()));
    law_elements_are_drawn(structures[cell].elements@, rules);
    law_references_are_placed(cells, structures[cell].elements@, bounds, rules);
}

/// A layout has a view for each structure that no other refers to, or for all where there is no
/// such, in the order of the file, called as the structure; the first one is selected.
pub proof fn law_layouts_have_views(
    bundle: layout::LayoutBundle,
    cells: Seq<SourceCell>,
    structures: Seq<GdsStructure>,
    rules: GdsRules,
    k: int,
)
    requires
        layered::is_layout_of(bundle, cells, structures, rules),
        structures.len() <= u64::MAX,
    ensures
        ({
            let roots = crate::io::flatten::root_cells(cells);
            let views = bundle.view_list();
            &&& bundle.selection() == 0
            &&& bundle.listed().len() == structures.len()
            &&& views.len() == roots.len()
            &&& 0 <= k < roots.len() ==> views[k].about().root().0 == roots[k]
                && views[k].about().name_chars() == structures[roots[k] as int].name@
        }),
{
}

} // verus!
