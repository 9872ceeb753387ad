//! The layout of a GDSII file, cell by cell, without flattening it.

use crate::error::AppError;
use crate::io::flatten;
use crate::io::flatten::{find_cell, find_root_cells, SourceCell};
use crate::io::gds;
use crate::io::gds::{
    array_reach, gds_cells, path_base_width, GdsArrayRef, GdsElement, GdsOutline, GdsPath,
    GdsStructure, GdsTransform,
};
use crate::io::order;
use crate::io::order::build_order;
use crate::layout;
use crate::layout::{
    LayoutBundle, LayoutCell, LayoutCellId, LayoutInstance, LayoutRepetition, LayoutShape,
    LayoutTransform, LayoutView, LayoutViewMetadata, LocalShape,
};
use crate::scene;
use crate::scene::{bounds_from_points, Bounds, LayerId, Point};
use crate::seqs;
use std::sync::Arc;
use vstd::prelude::*;

verus! {

/// The functions that turn the numbers of a file into coordinates.
///
/// `point` is a point; `stroke` the width of a line; `widened` a rectangle with room for a line;
/// `transform` how a structure is placed at a point; `step` one of the steps from a point to
/// another; `reach` the rectangle that the copies of a rectangle take up.
pub struct GdsMath<C, L, E, T, N, R> {
    pub point: C,
    pub stroke: L,
    pub widened: E,
    pub transform: T,
    pub step: N,
    pub reach: R,
}

/// What the functions compute.
pub struct GdsRules {
    pub point: spec_fn((i32, i32)) -> Point,
    pub stroke: spec_fn(i32) -> i32,
    pub widened: spec_fn(Bounds, i32) -> Bounds,
    pub transform: spec_fn((i32, i32), Option<GdsTransform>) -> LayoutTransform,
    pub step: spec_fn((i32, i32), (i32, i32), u16) -> Point,
    pub reach: spec_fn(Bounds, LayoutTransform, Option<LayoutRepetition>) -> Bounds,
}

/// Whether the functions can be asked about everything.
pub open spec fn can_convert<
    C: Fn((i32, i32)) -> Point,
    L: Fn(i32) -> i32,
    E: Fn(Bounds, i32) -> Bounds,
    T: Fn((i32, i32), Option<GdsTransform>) -> LayoutTransform,
    N: Fn((i32, i32), (i32, i32), u16) -> Point,
    R: Fn(Bounds, LayoutTransform, Option<LayoutRepetition>) -> Bounds,
>(math: GdsMath<C, L, E, T, N, R>) -> bool {
    &&& forall|xy: (i32, i32)| #[trigger] math.point.requires((xy,))
    &&& forall|width: i32| #[trigger] math.stroke.requires((width,))
    &&& forall|bounds: Bounds, width: i32| #[trigger] math.widened.requires((bounds, width))
    &&& forall|origin: (i32, i32), strans: Option<GdsTransform>| #[trigger]
        math.transform.requires((origin, strans))
    &&& forall|origin: (i32, i32), end: (i32, i32), count: u16| #[trigger]
        math.step.requires((origin, end, count))
    &&& forall|bounds: Bounds, transform: LayoutTransform, repetition: Option<LayoutRepetition>|
        #[trigger] math.reach.requires((bounds, transform, repetition))
}

/// Whether the functions compute by these rules.
pub open spec fn converts<
    C: Fn((i32, i32)) -> Point,
    L: Fn(i32) -> i32,
    E: Fn(Bounds, i32) -> Bounds,
    T: Fn((i32, i32), Option<GdsTransform>) -> LayoutTransform,
    N: Fn((i32, i32), (i32, i32), u16) -> Point,
    R: Fn(Bounds, LayoutTransform, Option<LayoutRepetition>) -> Bounds,
>(math: GdsMath<C, L, E, T, N, R>, rules: GdsRules) -> bool {
    &&& forall|xy: (i32, i32), r: Point| #[trigger]
        math.point.ensures((xy,), r) ==> r == (rules.point)(xy)
    &&& forall|width: i32, r: i32| #[trigger]
        math.stroke.ensures((width,), r) ==> r == (rules.stroke)(width)
    &&& forall|bounds: Bounds, width: i32, r: Bounds| #[trigger]
        math.widened.ensures((bounds, width), r) ==> r == (rules.widened)(bounds, width)
    &&& forall|origin: (i32, i32), strans: Option<GdsTransform>, r: LayoutTransform| #[trigger]
        math.transform.ensures((origin, strans), r) ==> r == (rules.transform)(origin, strans)
    &&& forall|origin: (i32, i32), end: (i32, i32), count: u16, r: Point| #[trigger]
        math.step.ensures((origin, end, count), r) ==> r == (rules.step)(origin, end, count)
    &&& forall|
        bounds: Bounds,
        transform: LayoutTransform,
        repetition: Option<LayoutRepetition>,
        r: Bounds,
    | #[trigger]
        math.reach.ensures((bounds, transform, repetition), r) ==> r == (rules.reach)(
            bounds,
            transform,
            repetition,
        )
}

/// The points of an element.
pub open spec fn points_of(xy: Seq<(i32, i32)>, rules: GdsRules) -> Seq<Point> {
    xy.map_values(rules.point)
}

/// The width of a line before it is drawn.
pub open spec fn base_width(path: GdsPath) -> i32 {
    match path.width {
        Some(width) => if width < 0 {
            0
        } else {
            width
        },
        None => 0,
    }
}

/// The closed shape of an outline, where it has points.
pub open spec fn outline_shape(outline: GdsOutline, rules: GdsRules) -> Option<LocalShape> {
    let points = points_of(outline.xy@, rules);
    if points.len() == 0 {
        None
    } else {
        Some(
            LocalShape {
                layer: LayerId { layer: outline.layer as u32, datatype: outline.datatype as u32 },
                bounds: scene::points_bounds(points)->0,
                points,
                closed: true,
                stroke_width: None,
            },
        )
    }
}

/// The shape of an element, where it has one.
pub open spec fn shape_of(element: GdsElement, rules: GdsRules) -> Option<LocalShape> {
    match element {
        GdsElement::Boundary(outline) => outline_shape(outline, rules),
        GdsElement::Box(outline) => outline_shape(outline, rules),
        GdsElement::Path(path) => {
            let points = points_of(path.xy@, rules);
            let stroke = (rules.stroke)(base_width(path));
            if points.len() == 0 {
                None
            } else {
                Some(
                    LocalShape {
                        layer: LayerId {
                            layer: path.layer as u32,
                            datatype: path.datatype as u32,
                        },
                        bounds: (rules.widened)(scene::points_bounds(points)->0, stroke),
                        points,
                        closed: false,
                        stroke_width: Some(stroke),
                    },
                )
            }
        },
        _ => None,
    }
}

/// The shapes of a structure, in order.
pub open spec fn shapes_of(elements: Seq<GdsElement>, rules: GdsRules) -> Seq<LocalShape>
    decreases elements.len(),
{
    if elements.len() == 0 {
        Seq::empty()
    } else {
        let head = shapes_of(elements.drop_last(), rules);
        match shape_of(elements.last(), rules) {
            Some(shape) => head.push(shape),
            None => head,
        }
    }
}

/// The name of the structure that an element refers to.
pub open spec fn target_of(element: GdsElement) -> Option<Seq<char>> {
    match element {
        GdsElement::StructRef(sref) => Some(sref.sname@),
        GdsElement::ArrayRef(aref) => Some(aref.sname@),
        _ => None,
    }
}

/// One of the steps of an array; none where it has only one place in that direction.
pub open spec fn step_of(
    origin: (i32, i32),
    end: Option<((i32, i32), u16)>,
    rules: GdsRules,
) -> Point {
    match end {
        Some((at, count)) => (rules.step)(origin, at, count),
        None => Point { x: 0, y: 0 },
    }
}

/// How an element places the structure that it refers to.
pub open spec fn placement_of(element: GdsElement, rules: GdsRules) -> (
    LayoutTransform,
    Option<LayoutRepetition>,
) {
    match element {
        GdsElement::ArrayRef(aref) => {
            let reach = gds::reach_of(aref.xy@, aref.columns, aref.rows);
            (
                (rules.transform)(reach.origin, aref.strans),
                if gds::array_copies(aref.columns, aref.rows) > 1 {
                    Some(
                        LayoutRepetition::RegularGrid {
                            columns: gds::at_least_one(aref.columns) as u32,
                            rows: gds::at_least_one(aref.rows) as u32,
                            column_step: step_of(reach.origin, reach.columns, rules),
                            row_step: step_of(reach.origin, reach.rows, rules),
                        },
                    )
                } else {
                    None
                },
            )
        },
        GdsElement::StructRef(sref) => ((rules.transform)(sref.xy, sref.strans), None),
        _ => ((rules.transform)((0, 0), None), None),
    }
}

/// The number of the cell of a structure.
pub open spec fn id_of(cell: int) -> LayoutCellId {
    LayoutCellId(cell as u64)
}

/// The instance that an element makes: none where it refers to nothing, or to a structure that
/// shows nothing.
pub open spec fn instance_of(
    cells: Seq<SourceCell>,
    element: GdsElement,
    bounds: Seq<Option<Bounds>>,
    rules: GdsRules,
) -> Option<LayoutInstance> {
    match target_of(element) {
        Some(name) => match flatten::resolve(cells, name, cells.len()) {
            Some(target) => match bounds[target] {
                Some(inner) => {
                    let (transform, repetition) = placement_of(element, rules);
                    Some(
                        LayoutInstance {
                            target_cell_id: id_of(target),
                            local_bounds: (rules.reach)(inner, transform, repetition),
                            transform,
                            repetition,
                        },
                    )
                },
                None => None,
            },
            None => None,
        },
        None => None,
    }
}

/// The instances of a structure, in order.
pub open spec fn instances_of(
    cells: Seq<SourceCell>,
    elements: Seq<GdsElement>,
    bounds: Seq<Option<Bounds>>,
    rules: GdsRules,
) -> Seq<LayoutInstance>
    decreases elements.len(),
{
    if elements.len() == 0 {
        Seq::empty()
    } else {
        let head = instances_of(cells, elements.drop_last(), bounds, rules);
        match instance_of(cells, elements.last(), bounds, rules) {
            Some(instance) => head.push(instance),
            None => head,
        }
    }
}

/// Whether the cell is that of the structure, where the cells have these rectangles.
pub open spec fn is_cell_of(
    model: layout::CellModel,
    cells: Seq<SourceCell>,
    structures: Seq<GdsStructure>,
    cell: int,
    bounds: Seq<Option<Bounds>>,
    rules: GdsRules,
) -> bool {
    &&& model.id == id_of(cell)
    &&& model.name == structures[cell].name@
    &&& model.shapes == shapes_of(structures[cell].elements@, rules)
    &&& model.instances == instances_of(cells, structures[cell].elements@, bounds, rules)
    &&& model.consistent()
}

/// The rectangles of the cells of a layout.
pub open spec fn cell_rectangles(bundle: LayoutBundle, count: nat) -> Seq<Option<Bounds>> {
    Seq::new(count, |cell: int| bundle.at(id_of(cell)).bounds)
}

/// Whether the layout is that of the structures: one cell for each of them, and one view for each
/// that no other refers to, or for all where there is no such structure.
pub open spec fn is_layout_of(
    bundle: LayoutBundle,
    cells: Seq<SourceCell>,
    structures: Seq<GdsStructure>,
    rules: GdsRules,
) -> bool {
    let roots = flatten::root_cells(cells);
    &&& bundle.listed().len() == structures.len()
    &&& forall|cell: int|
        0 <= cell < structures.len() ==> {
            &&& #[trigger] bundle.has(id_of(cell))
            &&& is_cell_of(
                bundle.at(id_of(cell)),
                cells,
                structures,
                cell,
                cell_rectangles(bundle, structures.len()),
                rules,
            )
        }
    &&& bundle.selection() == 0
    &&& bundle.view_list().len() == roots.len()
    &&& forall|k: int|
        0 <= k < roots.len() ==> {
            &&& (#[trigger] bundle.view_list()[k]).about().root() == id_of(roots[k] as int)
            &&& bundle.view_list()[k].about().name_chars() == structures[roots[k] as int].name@
        }
}

fn convert_points<C: Fn((i32, i32)) -> Point>(xy: &Vec<(i32, i32)>, point: &C) -> (points: Vec<Point>)
    requires
        forall|xy: (i32, i32)| #[trigger] point.requires((xy,)),
    ensures
        points@.len() == xy@.len(),
        forall|k: int| 0 <= k < xy@.len() ==> point.ensures((xy@[k],), #[trigger] points@[k]),
{
    let mut points: Vec<Point> = Vec::new();
    let mut i: usize = 0;
    while i < xy.len()
        invariant
            i <= xy@.len(),
            points@.len() == i,
            forall|xy: (i32, i32)| #[trigger] point.requires((xy,)),
            forall|k: int| 0 <= k < i ==> point.ensures((xy@[k],), #[trigger] points@[k]),
        decreases xy@.len() - i,
    {
        points.push(point(xy[i]));
        i += 1;
    }
    points
}

fn build_outline<
    C: Fn((i32, i32)) -> Point,
    L: Fn(i32) -> i32,
    E: Fn(Bounds, i32) -> Bounds,
    T: Fn((i32, i32), Option<GdsTransform>) -> LayoutTransform,
    N: Fn((i32, i32), (i32, i32), u16) -> Point,
    R: Fn(Bounds, LayoutTransform, Option<LayoutRepetition>) -> Bounds,
>(outline: &GdsOutline, math: &GdsMath<C, L, E, T, N, R>) -> (shape: Option<LayoutShape>)
    requires
        can_convert(*math),
    ensures
        forall|rules: GdsRules| #[trigger]
            converts(*math, rules) ==> match shape {
                Some(shape) => outline_shape(*outline, rules) == Some(shape@),
                None => outline_shape(*outline, rules) is None,
            },
{
    let points = convert_points(&outline.xy, &math.point);
    proof {
        assert forall|rules: GdsRules| #[trigger] converts(*math, rules) implies points@
            == points_of(outline.xy@, rules) by {
            assert(points@ =~= points_of(outline.xy@, rules));
        }
    }
    if points.len() == 0 {
        None
    } else {
        Some(
            LayoutShape::polygon(
                LayerId { layer: outline.layer as u32, datatype: outline.datatype as u32 },
                points,
            ),
        )
    }
}

fn build_path<
    C: Fn((i32, i32)) -> Point,
    L: Fn(i32) -> i32,
    E: Fn(Bounds, i32) -> Bounds,
    T: Fn((i32, i32), Option<GdsTransform>) -> LayoutTransform,
    N: Fn((i32, i32), (i32, i32), u16) -> Point,
    R: Fn(Bounds, LayoutTransform, Option<LayoutRepetition>) -> Bounds,
>(path: &GdsPath, math: &GdsMath<C, L, E, T, N, R>) -> (shape: Option<LayoutShape>)
    requires
        can_convert(*math),
    ensures
        forall|rules: GdsRules| #[trigger]
            converts(*math, rules) ==> match shape {
                Some(shape) => shape_of(GdsElement::Path(*path), rules) == Some(shape@),
                None => shape_of(GdsElement::Path(*path), rules) is None,
            },
{
    let points = convert_points(&path.xy, &math.point);
    proof {
        assert forall|rules: GdsRules| #[trigger] converts(*math, rules) implies points@
            == points_of(path.xy@, rules) by {
            assert(points@ =~= points_of(path.xy@, rules));
        }
    }
    match bounds_from_points(points.as_slice()) {
        None => {
            proof {
                if points@.len() > 0 {
                    let spanned = points@.map_values(|p: Point| scene::point_bounds(p));
                    assert(scene::union_of(spanned) is Some);
                }
            }
            None
        },
        Some(around) => {
            if points.len() == 0 {
                return None;
            }
            let stroke: i32 = (math.stroke)(path_base_width(path));
            let bounds = (math.widened)(around, stroke);
            Some(
                LayoutShape::path(
                    LayerId { layer: path.layer as u32, datatype: path.datatype as u32 },
                    points,
                    stroke,
                    bounds,
                ),
            )
        },
    }
}

/// The shapes of a structure.
fn build_shapes<
    C: Fn((i32, i32)) -> Point,
    L: Fn(i32) -> i32,
    E: Fn(Bounds, i32) -> Bounds,
    T: Fn((i32, i32), Option<GdsTransform>) -> LayoutTransform,
    N: Fn((i32, i32), (i32, i32), u16) -> Point,
    R: Fn(Bounds, LayoutTransform, Option<LayoutRepetition>) -> Bounds,
>(elements: &Vec<GdsElement>, math: &GdsMath<C, L, E, T, N, R>) -> (shapes: Vec<LayoutShape>)
    requires
        can_convert(*math),
    ensures
        forall|rules: GdsRules| #[trigger]
            converts(*math, rules) ==> layout::local_shapes_of(shapes@) == shapes_of(
                elements@,
                rules,
            ),
{
    let mut shapes: Vec<LayoutShape> = Vec::new();
    let mut i: usize = 0;
    assert(elements@.take(0) =~= Seq::empty());
    assert(layout::local_shapes_of(shapes@) =~= Seq::empty());
    while i < elements.len()
        invariant
            i <= elements@.len(),
            can_convert(*math),
            forall|rules: GdsRules| #[trigger]
                converts(*math, rules) ==> layout::local_shapes_of(shapes@) == shapes_of(
                    elements@.take(i as int),
                    rules,
                ),
        decreases elements@.len() - i,
    {
        let ghost before = shapes@;
        let made: Option<LayoutShape> = match &elements[i] {
            GdsElement::Boundary(outline) => build_outline(outline, math),
            GdsElement::Box(outline) => build_outline(outline, math),
            GdsElement::Path(path) => build_path(path, math),
            _ => None,
        };
        proof {
            assert(elements@.take(i + 1).drop_last() =~= elements@.take(i as int));
            assert(elements@.take(i + 1).last() == elements@[i as int]);
        }
        match made {
            Some(shape) => {
                shapes.push(shape);
                assert(layout::local_shapes_of(shapes@) =~= layout::local_shapes_of(before).push(
                    shape@,
                ));
            },
            None => {},
        }
        i += 1;
    }
    assert(elements@.take(i as int) =~= elements@);
    shapes
}

fn build_step<N: Fn((i32, i32), (i32, i32), u16) -> Point>(
    origin: (i32, i32),
    end: Option<((i32, i32), u16)>,
    step: &N,
) -> (made: Point)
    requires
        forall|origin: (i32, i32), end: (i32, i32), count: u16| #[trigger]
            step.requires((origin, end, count)),
    ensures
        match end {
            Some((at, count)) => step.ensures((origin, at, count), made),
            None => made == (Point { x: 0, y: 0 }),
        },
{
    match end {
        Some((at, count)) => step(origin, at, count),
        None => Point { x: 0, y: 0 },
    }
}

fn build_array_placement<
    C: Fn((i32, i32)) -> Point,
    L: Fn(i32) -> i32,
    E: Fn(Bounds, i32) -> Bounds,
    T: Fn((i32, i32), Option<GdsTransform>) -> LayoutTransform,
    N: Fn((i32, i32), (i32, i32), u16) -> Point,
    R: Fn(Bounds, LayoutTransform, Option<LayoutRepetition>) -> Bounds,
>(aref: &GdsArrayRef, math: &GdsMath<C, L, E, T, N, R>) -> (placement: (
    LayoutTransform,
    Option<LayoutRepetition>,
))
    requires
        can_convert(*math),
    ensures
        forall|rules: GdsRules| #[trigger]
            converts(*math, rules) ==> placement == placement_of(
                GdsElement::ArrayRef(*aref),
                rules,
            ),
{
    let reach = array_reach(aref);
    let transform = (math.transform)(reach.origin, aref.strans);
    let columns: u32 = if aref.columns == 0 {
        1
    } else {
        aref.columns as u32
    };
    let rows: u32 = if aref.rows == 0 {
        1
    } else {
        aref.rows as u32
    };
    proof {
        assert(columns * rows > 1 <==> columns > 1 || rows > 1) by (nonlinear_arith)
            requires
                columns >= 1,
                rows >= 1,
        ;
        assert(columns * rows <= 0xffff * 0xffff) by (nonlinear_arith)
            requires
                columns <= 0xffff,
                rows <= 0xffff,
        ;
        assert(gds::array_copies(aref.columns, aref.rows) == columns * rows);
    }
    if columns > 1 || rows > 1 {
        let column_step = build_step(reach.origin, reach.columns, &math.step);
        let row_step = build_step(reach.origin, reach.rows, &math.step);
        (transform, Some(LayoutRepetition::regular_grid(columns, rows, column_step, row_step)))
    } else {
        (transform, None)
    }
}

/// The instances of a structure.
fn build_instances<
    C: Fn((i32, i32)) -> Point,
    L: Fn(i32) -> i32,
    E: Fn(Bounds, i32) -> Bounds,
    T: Fn((i32, i32), Option<GdsTransform>) -> LayoutTransform,
    N: Fn((i32, i32), (i32, i32), u16) -> Point,
    R: Fn(Bounds, LayoutTransform, Option<LayoutRepetition>) -> Bounds,
>(
    cells: &Vec<SourceCell>,
    elements: &Vec<GdsElement>,
    bounds: &Vec<Option<Bounds>>,
    math: &GdsMath<C, L, E, T, N, R>,
) -> (instances: Vec<LayoutInstance>)
    requires
        can_convert(*math),
        bounds@.len() == cells@.len(),
    ensures
        forall|k: int|
            0 <= k < instances@.len() ==> (#[trigger] instances@[k]).target_cell_id.0
                < cells@.len(),
        forall|rules: GdsRules| #[trigger]
            converts(*math, rules) ==> instances@ == instances_of(
                cells@,
                elements@,
                bounds@,
                rules,
            ),
{
    let mut instances: Vec<LayoutInstance> = Vec::new();
    let mut i: usize = 0;
    assert(elements@.take(0) =~= Seq::empty());
    while i < elements.len()
        invariant
            i <= elements@.len(),
            can_convert(*math),
            bounds@.len() == cells@.len(),
            forall|k: int|
                0 <= k < instances@.len() ==> (#[trigger] instances@[k]).target_cell_id.0
                    < cells@.len(),
            forall|rules: GdsRules| #[trigger]
                converts(*math, rules) ==> instances@ == instances_of(
                    cells@,
                    elements@.take(i as int),
                    bounds@,
                    rules,
                ),
        decreases elements@.len() - i,
    {
        proof {
            assert(elements@.take(i + 1).drop_last() =~= elements@.take(i as int));
            assert(elements@.take(i + 1).last() == elements@[i as int]);
        }
        let target: Option<usize> = match &elements[i] {
            GdsElement::StructRef(sref) => find_cell(cells.as_slice(), &sref.sname),
            GdsElement::ArrayRef(aref) => find_cell(cells.as_slice(), &aref.sname),
            _ => None,
        };
        if let Some(target) = target {
            if let Some(inner) = bounds[target] {
                let placement: (LayoutTransform, Option<LayoutRepetition>) = match &elements[i] {
                    GdsElement::ArrayRef(aref) => build_array_placement(aref, math),
                    GdsElement::StructRef(sref) => ((math.transform)(sref.xy, sref.strans), None),
                    _ => ((math.transform)((0, 0), None), None),
                };
                let around = (math.reach)(inner, placement.0, placement.1);
                let single = LayoutInstance::with_transform(
                    LayoutCellId::new(target as u64),
                    around,
                    placement.0,
                );
                let instance = match placement.1 {
                    Some(repetition) => single.with_repetition(repetition),
                    None => single,
                };
                assert forall|rules: GdsRules| #[trigger] converts(*math, rules) implies Some(
                    instance,
                ) == instance_of(cells@, elements@[i as int], bounds@, rules) by {}
                instances.push(instance);
            }
        }
        i += 1;
    }
    assert(elements@.take(i as int) =~= elements@);
    instances
}

/// The instances depend on the rectangles of the cells that they use only.
proof fn lemma_instances_agree(
    cells: Seq<SourceCell>,
    elements: Seq<GdsElement>,
    a: Seq<Option<Bounds>>,
    b: Seq<Option<Bounds>>,
    rules: GdsRules,
)
    requires
        forall|i: int, t: int|
            0 <= i < elements.len() && #[trigger] uses(cells, elements[i], t) ==> a[t] == b[t],
    ensures
        instances_of(cells, elements, a, rules) == instances_of(cells, elements, b, rules),
    decreases elements.len(),
{
    if elements.len() > 0 {
        let init = elements.drop_last();
        assert forall|i: int, t: int|
            0 <= i < init.len() && #[trigger] uses(cells, init[i], t) implies a[t] == b[t] by {
            assert(uses(cells, elements[i], t));
        }
        lemma_instances_agree(cells, init, a, b, rules);
        let last = elements[elements.len() - 1];
        match target_of(last) {
            Some(name) => match flatten::resolve(cells, name, cells.len()) {
                Some(t) => {
                    assert(uses(cells, last, t));
                },
                None => {},
            },
            None => {},
        }
    }
}

/// Whether the element refers to the cell.
spec fn uses(cells: Seq<SourceCell>, element: GdsElement, target: int) -> bool {
    target_of(element) matches Some(name) && flatten::resolve(cells, name, cells.len()) == Some(
        target,
    )
}

/// What an element uses, its cell depends on.
proof fn lemma_uses_depends(
    cells: Seq<SourceCell>,
    structures: Seq<GdsStructure>,
    cell: int,
    i: int,
    target: int,
)
    requires
        gds::are_cells_of(cells, structures),
        0 <= cell < cells.len(),
        0 <= i < structures[cell].elements@.len(),
        uses(cells, structures[cell].elements@[i], target),
    ensures
        order::depends(cells, cell, target),
{
    let item = cells[cell].items@[i];
    assert(item@ == gds::item_of(structures[cell].elements@[i]));
    assert(order::leads_to(cells, item, target));
}

/// Whether the first cells of the order are built, and their rectangles noted.
spec fn is_built(
    made: Seq<Arc<LayoutCell>>,
    cells: Seq<SourceCell>,
    structures: Seq<GdsStructure>,
    order: Seq<usize>,
    bounds: Seq<Option<Bounds>>,
    rules: GdsRules,
) -> bool {
    forall|q: int|
        0 <= q < made.len() ==> is_cell_of(
            (#[trigger] made[q])@,
            cells,
            structures,
            order[q] as int,
            bounds,
            rules,
        )
}

/// Building one cell more leaves the others as they are.
proof fn lemma_build_one(
    made: Seq<Arc<LayoutCell>>,
    cell: Arc<LayoutCell>,
    cells: Seq<SourceCell>,
    structures: Seq<GdsStructure>,
    order: Seq<usize>,
    bounds: Seq<Option<Bounds>>,
    rules: GdsRules,
)
    requires
        gds::are_cells_of(cells, structures),
        order::is_build_order(cells, order),
        bounds.len() == cells.len(),
        made.len() < order.len(),
        is_built(made, cells, structures, order, bounds, rules),
        is_cell_of(
            cell@,
            cells,
            structures,
            order[made.len() as int] as int,
            bounds,
            rules,
        ),
    ensures
        is_built(
            made.push(cell),
            cells,
            structures,
            order,
            bounds.update(order[made.len() as int] as int, cell@.bounds),
            rules,
        ),
{
    let p = made.len() as int;
    let c = order[p] as int;
    let after = bounds.update(c, cell@.bounds);
    assert forall|q: int| 0 <= q < p + 1 implies is_cell_of(
        (#[trigger] made.push(cell)[q])@,
        cells,
        structures,
        order[q] as int,
        after,
        rules,
    ) by {
        let own = order[q] as int;
        let elements = structures[own].elements@;
        assert forall|i: int, t: int|
            0 <= i < elements.len() && #[trigger] uses(cells, elements[i], t) implies bounds[t]
            == after[t] by {
            lemma_uses_depends(cells, structures, own, i, t);
            let r = choose|r: int| 0 <= r < q && #[trigger] order[r] == t;
            assert(order[r] != order[p]);
        }
        lemma_instances_agree(cells, elements, bounds, after, rules);
        if q < p {
            assert(made.push(cell)[q] == made[q]);
        }
    }
}

/// The layout of a file, cell by cell. Fails where a structure is missing, and where a structure
/// contains itself.
pub fn build_gds_layout_bundle<
    C: Fn((i32, i32)) -> Point,
    L: Fn(i32) -> i32,
    E: Fn(Bounds, i32) -> Bounds,
    T: Fn((i32, i32), Option<GdsTransform>) -> LayoutTransform,
    N: Fn((i32, i32), (i32, i32), u16) -> Point,
    R: Fn(Bounds, LayoutTransform, Option<LayoutRepetition>) -> Bounds,
>(structures: &Vec<GdsStructure>, math: &GdsMath<C, L, E, T, N, R>) -> (result: Result<
    LayoutBundle,
    AppError,
>)
    requires
        can_convert(*math),
    ensures
        exists|cells: Seq<SourceCell>|
            #![trigger gds::are_cells_of(cells, structures@)]
            gds::are_cells_of(cells, structures@) && match result {
                Ok(bundle) => {
                    &&& !order::has_cycle(cells)
                    &&& forall|name: Seq<char>| !#[trigger] order::has_missing(cells, name)
                    &&& forall|rules: GdsRules| #[trigger]
                        converts(*math, rules) ==> is_layout_of(bundle, cells, structures@, rules)
                },
                Err(error) => error matches AppError::Parse(detail) && exists|
                    failure: flatten::LoadFailure,
                |
                    #[trigger] order::order_failure(cells, failure) && detail@
                        == flatten::failure_text(failure),
            },
{
    let cells = gds_cells(structures.as_slice());
    let sequence: Vec<usize> = match build_order(cells.as_slice()) {
        Ok(sequence) => sequence,
        Err(error) => {
            assert(order::order_failure(cells@, error@));
            return Err(error.into_app_error());
        },
    };
    let count: usize = structures.len();
    let mut bounds: Vec<Option<Bounds>> = Vec::new();
    while bounds.len() < count
        invariant
            bounds@.len() <= count,
        decreases count - bounds@.len(),
    {
        bounds.push(None);
    }
    let mut made: Vec<Arc<LayoutCell>> = Vec::new();
    let mut p: usize = 0;
    while p < count
        invariant
            p <= count,
            count == structures@.len(),
            count == cells@.len(),
            count == sequence@.len(),
            count == bounds@.len(),
            made@.len() == p,
            can_convert(*math),
            gds::are_cells_of(cells@, structures@),
            order::is_build_order(cells@, sequence@),
            forall|q: int|
                0 <= q < p ==> (#[trigger] made@[q])@.id == id_of(sequence@[q] as int)
                    && bounds@[sequence@[q] as int] == made@[q]@.bounds,
            forall|q: int, k: int|
                0 <= q < p && 0 <= k < made@[q]@.instances.len() ==> (
                #[trigger] made@[q]@.instances[k]).target_cell_id.0 < count,
            forall|rules: GdsRules| #[trigger]
                converts(*math, rules) ==> is_built(
                    made@,
                    cells@,
                    structures@,
                    sequence@,
                    bounds@,
                    rules,
                ),
        decreases count - p,
    {
        let c: usize = sequence[p];
        let shapes = build_shapes(&structures[c].elements, math);
        let instances = build_instances(&cells, &structures[c].elements, &bounds, math);
        let cell = Arc::new(
            LayoutCell::new(
                LayoutCellId::new(c as u64),
                structures[c].name.clone(),
                shapes,
                instances,
            ),
        );
        let ghost before = made@;
        let ghost noted = bounds@;
        let around = cell.local_bounds();
        proof {
            assert forall|rules: GdsRules| #[trigger] converts(*math, rules) implies is_built(
                before.push(cell),
                cells@,
                structures@,
                sequence@,
                noted.update(c as int, cell@.bounds),
                rules,
            ) by {
                assert(is_cell_of(cell@, cells@, structures@, c as int, noted, rules));
                lemma_build_one(before, cell, cells@, structures@, sequence@, noted, rules);
            }
        }
        bounds.set(c, around);
        made.push(cell);
        proof {
            assert forall|q: int| 0 <= q < p + 1 implies (#[trigger] made@[q])@.id == id_of(
                sequence@[q] as int,
            ) && bounds@[sequence@[q] as int] == made@[q]@.bounds by {
                if q < p {
                    assert(made@[q] == before[q]);
                    assert(sequence@[q] != sequence@[p as int]);
                }
            }
            assert forall|q: int, k: int|
                0 <= q < p + 1 && 0 <= k < made@[q]@.instances.len() implies (
            #[trigger] made@[q]@.instances[k]).target_cell_id.0 < count by {
                if q < p {
                    assert(made@[q] == before[q]);
                }
            }
        }
        p += 1;
    }
    let roots = find_root_cells(cells.as_slice());
    let mut views: Vec<LayoutView> = Vec::new();
    let mut k: usize = 0;
    proof {
        lemma_roots_are_cells(cells@);
    }
    while k < roots.len()
        invariant
            k <= roots@.len(),
            count == structures@.len(),
            roots@ == flatten::root_cells(cells@),
            forall|j: int| 0 <= j < roots@.len() ==> (#[trigger] roots@[j]) < count,
            views@.len() == k,
            forall|j: int|
                0 <= j < k ==> (#[trigger] views@[j]).about().root() == id_of(roots@[j] as int)
                    && views@[j].about().name_chars() == structures@[roots@[j] as int].name@,
        decreases roots@.len() - k,
    {
        let root: usize = roots[k];
        views.push(
            LayoutView::new(
                LayoutViewMetadata::new(
                    structures[root].name.clone(),
                    LayoutCellId::new(root as u64),
                ),
            ),
        );
        k += 1;
    }
    proof {
        lemma_all_built(made@, sequence@, count as nat);
        seqs::lemma_least_from(
            0,
            count as int,
            |at: int| layout::repeats_id(made@, at),
            count as int,
        );
        assert forall|at: int| 0 <= at < views@.len() implies layout::has_cell(
            made@,
            (#[trigger] views@[at]).about().root(),
        ) by {
            assert(layout::has_cell(made@, id_of(roots@[at] as int)));
        }
        seqs::lemma_least_from(
            0,
            views@.len() as int,
            |at: int| !layout::has_cell(made@, views@[at].about().root()),
            views@.len() as int,
        );
        order::law_ordered_cells_have_no_cycle(cells@, sequence@);
        assert forall|name: Seq<char>| !#[trigger] order::has_missing(cells@, name) by {
            order::law_ordered_cells_are_complete(cells@, sequence@, name);
        }
    }
    let ghost listed = views@;
    match LayoutBundle::new(made, views) {
        Ok(bundle) => {
            proof {
                assert forall|rules: GdsRules| #[trigger]
                    converts(*math, rules) implies is_layout_of(
                    bundle,
                    cells@,
                    structures@,
                    rules,
                ) by {
                    lemma_is_layout(
                        bundle,
                        made@,
                        cells@,
                        structures@,
                        sequence@,
                        bounds@,
                        rules,
                    );
                }
            }
            Ok(bundle)
        },
        Err(_) => {
            proof {
                let i = choose|i: int|
                    0 <= i < made@.len() && layout::has_dangling(made@, (#[trigger] made@[i])@);
                let k = choose|k: int|
                    0 <= k < made@[i]@.instances.len() && layout::dangles(
                        made@,
                        #[trigger] made@[i]@.instances[k],
                    );
                let target = made@[i]@.instances[k].target_cell_id;
                assert(layout::has_cell(made@, id_of(target.0 as int)));
                assert(false);
            }
            Err(AppError::MissingPath)
        },
    }
}

proof fn lemma_roots_are_cells(cells: Seq<SourceCell>)
    requires
        cells.len() <= usize::MAX,
    ensures
        forall|j: int|
            0 <= j < flatten::root_cells(cells).len() ==> (#[trigger] flatten::root_cells(
                cells,
            )[j]) < cells.len(),
{
    lemma_unreferenced_are_cells(cells, cells.len());
}

proof fn lemma_unreferenced_are_cells(cells: Seq<SourceCell>, count: nat)
    requires
        count <= cells.len() <= usize::MAX,
    ensures
        forall|j: int|
            0 <= j < flatten::unreferenced(cells, count).len() ==> (
            #[trigger] flatten::unreferenced(cells, count)[j]) < count,
    decreases count,
{
    if count > 0 {
        let before = (count - 1) as nat;
        lemma_unreferenced_are_cells(cells, before);
        assert forall|j: int| 0 <= j < flatten::unreferenced(cells, count).len() implies (
        #[trigger] flatten::unreferenced(cells, count)[j]) < count by {
            let rest = flatten::unreferenced(cells, before);
            if j < rest.len() {
                assert(rest[j] < before);
            }
        }
    }
}

/// Cells built in an order of all structures: each has its number, and no two the same.
proof fn lemma_all_built(made: Seq<Arc<LayoutCell>>, order: Seq<usize>, count: nat)
    requires
        made.len() == count,
        order.len() == count,
        count <= usize::MAX,
        order.no_duplicates(),
        forall|c: usize| c < count ==> #[trigger] order.contains(c),
        forall|q: int| 0 <= q < count ==> (#[trigger] made[q])@.id == id_of(order[q] as int),
    ensures
        forall|c: int| 0 <= c < count ==> layout::has_cell(made, #[trigger] id_of(c)),
        forall|at: int| 0 <= at < count ==> !(#[trigger] layout::repeats_id(made, at)),
{
    assert forall|c: int| 0 <= c < count implies layout::has_cell(made, #[trigger] id_of(c)) by {
        assert(order.contains(c as usize));
        let q = choose|q: int| 0 <= q < order.len() && order[q] == c as usize;
        assert(made[q]@.id == id_of(c));
    }
    assert forall|at: int| 0 <= at < count implies !(#[trigger] layout::repeats_id(made, at)) by {
        if layout::repeats_id(made, at) {
            let head = made.take(at);
            let k = layout::cell_index(head, made[at]@.id);
            assert(head[k] == made[k]);
            assert(made[k]@.id == id_of(order[k] as int));
            assert(made[at]@.id == id_of(order[at] as int));
            assert(order[k] != order[at]);
        }
    }
}

proof fn lemma_is_layout(
    bundle: LayoutBundle,
    made: Seq<Arc<LayoutCell>>,
    cells: Seq<SourceCell>,
    structures: Seq<GdsStructure>,
    order: Seq<usize>,
    bounds: Seq<Option<Bounds>>,
    rules: GdsRules,
)
    requires
        bundle.linked(),
        bundle.listed().len() == made.len(),
        forall|cell: Arc<LayoutCell>| #![trigger bundle.listed().contains(cell)]
            bundle.listed().contains(cell) <==> made.contains(cell),
        made.len() == structures.len(),
        order.len() == structures.len(),
        bounds.len() == structures.len(),
        structures.len() <= usize::MAX,
        order.no_duplicates(),
        forall|c: usize| c < structures.len() ==> #[trigger] order.contains(c),
        is_built(made, cells, structures, order, bounds, rules),
        forall|q: int|
            0 <= q < made.len() ==> (#[trigger] made[q])@.id == id_of(order[q] as int)
                && bounds[order[q] as int] == made[q]@.bounds,
        bundle.selection() == 0,
        bundle.view_list().len() == flatten::root_cells(cells).len(),
        forall|k: int|
            0 <= k < flatten::root_cells(cells).len() ==> {
                &&& (#[trigger] bundle.view_list()[k]).about().root() == id_of(
                    flatten::root_cells(cells)[k] as int,
                )
                &&& bundle.view_list()[k].about().name_chars() == structures[flatten::root_cells(
                    cells,
                )[k] as int].name@
            },
    ensures
        is_layout_of(bundle, cells, structures, rules),
{
    let count = structures.len();
    let listed = bundle.listed();
    let rectangles = cell_rectangles(bundle, count);
    assert forall|c: int| 0 <= c < count implies {
        &&& #[trigger] bundle.has(id_of(c))
        &&& is_cell_of(bundle.at(id_of(c)), cells, structures, c, bounds, rules)
        &&& bundle.at(id_of(c)).bounds == bounds[c]
    } by {
        assert(order.contains(c as usize));
        let q = choose|q: int| 0 <= q < order.len() && order[q] == c as usize;
        assert(made.contains(made[q]));
        assert(listed.contains(made[q]));
        let m = choose|m: int| 0 <= m < listed.len() && listed[m] == made[q];
        assert(listed[m]@.id == id_of(c));
        let at = layout::cell_index(listed, id_of(c));
        if at < m {
            assert(listed[at]@.id.0 < listed[m]@.id.0);
        } else if m < at {
            assert(listed[m]@.id.0 < listed[at]@.id.0);
        }
        assert(is_cell_of(made[q]@, cells, structures, order[q] as int, bounds, rules));
    }
    assert(rectangles =~= bounds) by {
        assert forall|c: int| 0 <= c < count implies rectangles[c] == bounds[c] by {
            assert(bundle.has(id_of(c)));
        }
    }
}

} // verus!
