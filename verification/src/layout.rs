//! The hierarchical layout: cells, the instances by which they use each other, and views.

use crate::coords::ONE_KEY;
use crate::layers;
use crate::layers::LayerSet;
use crate::scene;
use crate::scene::{bounds_from_points, copy_points, rectangle_points, share, Bounds, LayerId, Point};
use crate::seqs;
use std::sync::Arc;
use vstd::prelude::*;

verus! {

/// The number of a cell.
#[derive(Debug, Clone, Copy, PartialEq, Eq, Hash, PartialOrd, Ord, Structural)]
pub struct LayoutCellId(pub u64);

impl LayoutCellId {
    /// The cell with this number.
    pub fn new(raw: u64) -> (id: Self)
        ensures
            id.0 == raw,
    {
        LayoutCellId(raw)
    }

    /// The number of the cell.
    pub fn raw(self) -> (raw: u64)
        ensures
            raw == self.0,
    {
        self.0
    }
}

/// A shape of a cell, in the coordinates of the cell.
#[derive(Debug)]
pub struct LayoutShape {
    layer: LayerId,
    bounds: Bounds,
    points: Vec<Point>,
    closed: bool,
    stroke_width: Option<i32>,
}

/// What a shape of a cell is.
pub struct LocalShape {
    pub layer: LayerId,
    pub bounds: Bounds,
    pub points: Seq<Point>,
    pub closed: bool,
    pub stroke_width: Option<i32>,
}

impl View for LayoutShape {
    type V = LocalShape;

    closed spec fn view(&self) -> LocalShape {
        LocalShape {
            layer: self.layer,
            bounds: self.bounds,
            points: self.points@,
            closed: self.closed,
            stroke_width: self.stroke_width,
        }
    }
}

impl LayoutShape {
    /// A shape through these points; `widened` makes room around a rectangle for a line of some
    /// width.
    pub fn from_points<F: Fn(Bounds, i32) -> Bounds>(
        layer: LayerId,
        points: Vec<Point>,
        closed: bool,
        stroke_width: Option<i32>,
        widened: &F,
    ) -> (shape: Self)
        requires
            points@.len() > 0,
            forall|bounds: Bounds, width: i32| #[trigger] widened.requires((bounds, width)),
        ensures
            forall|d: spec_fn(Bounds, i32) -> Bounds| #[trigger]
                scene::widens(*widened, d) ==> shape@ == (LocalShape {
                    layer,
                    bounds: scene::padded_bounds(points@, stroke_width, d),
                    points: points@,
                    closed,
                    stroke_width,
                }),
    {
        let around = match bounds_from_points(points.as_slice()) {
            Some(bounds) => bounds,
            None => Bounds::new(0, 0, 0, 0),
        };
        let bounds = match stroke_width {
            Some(width) => widened(around, width),
            None => around,
        };
        LayoutShape { layer, bounds, points, closed, stroke_width }
    }

    /// A closed shape around these points.
    pub fn polygon(layer: LayerId, points: Vec<Point>) -> (shape: Self)
        requires
            points@.len() > 0,
        ensures
            scene::points_bounds(points@) is Some,
            shape@ == (LocalShape {
                layer,
                bounds: scene::points_bounds(points@)->0,
                points: points@,
                closed: true,
                stroke_width: None,
            }),
    {
        proof {
            let spanned = points@.map_values(|p: Point| scene::point_bounds(p));
            assert(scene::union_of(spanned) is Some);
        }
        let bounds = match bounds_from_points(points.as_slice()) {
            Some(bounds) => bounds,
            None => Bounds::new(0, 0, 0, 0),
        };
        LayoutShape { layer, bounds, points, closed: true, stroke_width: None }
    }

    /// An open line through these points; `bounds` is the rectangle around them, widened by half
    /// the stroke width on every side.
    pub fn path(layer: LayerId, points: Vec<Point>, stroke_width: i32, bounds: Bounds) -> (shape:
        Self)
        requires
            points@.len() > 0,
        ensures
            shape@ == (LocalShape {
                layer,
                bounds,
                points: points@,
                closed: false,
                stroke_width: Some(stroke_width),
            }),
    {
        LayoutShape { layer, bounds, points, closed: false, stroke_width: Some(stroke_width) }
    }

    /// A closed rectangle.
    pub fn rectangle(layer: LayerId, bounds: Bounds) -> (shape: Self)
        ensures
            shape@.layer == layer,
            shape@.points == scene::corners(bounds),
            shape@.closed,
            shape@.stroke_width is None,
            scene::has_numbers(bounds) && bounds.min_x <= bounds.max_x && bounds.min_y
                <= bounds.max_y ==> shape@.bounds == bounds,
            Some(shape@.bounds) == scene::points_bounds(scene::corners(bounds)),
    {
        let points = rectangle_points(bounds);
        proof {
            let spanned = points@.map_values(|p: Point| scene::point_bounds(p));
            reveal_with_fuel(scene::union_of, 5);
            assert(spanned.drop_last().drop_last().drop_last() =~= seq![spanned[0]]);
            assert(spanned.drop_last().drop_last().drop_last().drop_last() =~= Seq::empty());
        }
        LayoutShape::polygon(layer, points)
    }

    /// The layer of the shape.
    pub fn layer(&self) -> (layer: LayerId)
        ensures
            layer == self@.layer,
    {
        self.layer
    }

    /// The rectangle around the shape.
    pub fn bounds(&self) -> (bounds: Bounds)
        ensures
            bounds == self@.bounds,
    {
        self.bounds
    }

    /// The points of the shape.
    pub fn points(&self) -> (points: &[Point])
        ensures
            points@ == self@.points,
    {
        self.points.as_slice()
    }

    /// Whether the points close into an area.
    pub fn closed(&self) -> (closed: bool)
        ensures
            closed == self@.closed,
    {
        self.closed
    }

    /// The width of a line.
    pub fn stroke_width(&self) -> (width: Option<i32>)
        ensures
            width == self@.stroke_width,
    {
        self.stroke_width
    }
}

impl Clone for LayoutShape {
    fn clone(&self) -> (copy: Self)
        ensures
            copy@ == self@,
    {
        LayoutShape {
            layer: self.layer,
            bounds: self.bounds,
            points: copy_points(self.points.as_slice()),
            closed: self.closed,
            stroke_width: self.stroke_width,
        }
    }
}

/// How an instance places its cell: mirrored at the horizontal axis, scaled, turned, moved.
/// Angle and scale are coordinate keys.
#[derive(Debug, Clone, Copy, PartialEq, Eq, Structural)]
pub struct LayoutTransform {
    pub translation: Point,
    pub rotation_degrees: i32,
    pub magnification: i32,
    pub mirrored_x: bool,
}

impl LayoutTransform {
    /// The placement that changes nothing.
    pub fn identity() -> (transform: Self)
        ensures
            transform == (LayoutTransform {
                translation: Point { x: 0, y: 0 },
                rotation_degrees: 0,
                magnification: ONE_KEY,
                mirrored_x: false,
            }),
    {
        LayoutTransform {
            translation: Point { x: 0, y: 0 },
            rotation_degrees: 0,
            magnification: ONE_KEY,
            mirrored_x: false,
        }
    }
}

/// How an instance is repeated.
#[derive(Debug, Clone, Copy, PartialEq, Eq, Structural)]
pub enum LayoutRepetition {
    /// Rows and columns at fixed steps.
    RegularGrid { columns: u32, rows: u32, column_step: Point, row_step: Point },
}

impl LayoutRepetition {
    /// A grid with one column and one row at least.
    pub fn regular_grid(columns: u32, rows: u32, column_step: Point, row_step: Point) -> (grid: Self)
        requires
            columns > 0,
            rows > 0,
        ensures
            grid == (LayoutRepetition::RegularGrid { columns, rows, column_step, row_step }),
    {
        LayoutRepetition::RegularGrid { columns, rows, column_step, row_step }
    }
}

/// One use of a cell by another.
#[derive(Debug, Clone, Copy, PartialEq, Eq, Structural)]
pub struct LayoutInstance {
    pub target_cell_id: LayoutCellId,
    pub local_bounds: Bounds,
    pub transform: LayoutTransform,
    pub repetition: Option<LayoutRepetition>,
}

impl LayoutInstance {
    /// How many columns the instance has.
    pub open spec fn columns(self) -> nat {
        match self.repetition {
            Some(LayoutRepetition::RegularGrid { columns, .. }) => columns as nat,
            None => 1,
        }
    }

    /// How many rows the instance has.
    pub open spec fn rows(self) -> nat {
        match self.repetition {
            Some(LayoutRepetition::RegularGrid { rows, .. }) => rows as nat,
            None => 1,
        }
    }

    /// An instance that neither moves nor repeats its cell.
    pub fn new(target_cell_id: LayoutCellId, local_bounds: Bounds) -> (instance: Self)
        ensures
            instance.target_cell_id == target_cell_id,
            instance.local_bounds == local_bounds,
            instance.transform == (LayoutTransform {
                translation: Point { x: 0, y: 0 },
                rotation_degrees: 0,
                magnification: ONE_KEY,
                mirrored_x: false,
            }),
            instance.repetition is None,
    {
        LayoutInstance {
            target_cell_id,
            local_bounds,
            transform: LayoutTransform::identity(),
            repetition: None,
        }
    }

    /// An instance that places its cell once.
    pub fn with_transform(
        target_cell_id: LayoutCellId,
        local_bounds: Bounds,
        transform: LayoutTransform,
    ) -> (instance: Self)
        ensures
            instance == (LayoutInstance {
                target_cell_id,
                local_bounds,
                transform,
                repetition: None,
            }),
    {
        LayoutInstance { target_cell_id, local_bounds, transform, repetition: None }
    }

    /// The instance with a repetition.
    pub fn with_repetition(self, repetition: LayoutRepetition) -> (instance: Self)
        ensures
            instance == (LayoutInstance { repetition: Some(repetition), ..self }),
    {
        LayoutInstance {
            target_cell_id: self.target_cell_id,
            local_bounds: self.local_bounds,
            transform: self.transform,
            repetition: Some(repetition),
        }
    }

    /// The cell that is used.
    pub fn target_cell_id(&self) -> (id: LayoutCellId)
        ensures
            id == self.target_cell_id,
    {
        self.target_cell_id
    }

    /// The rectangle around the instance.
    pub fn local_bounds(&self) -> (bounds: Bounds)
        ensures
            bounds == self.local_bounds,
    {
        self.local_bounds
    }

    /// How the cell is placed.
    pub fn transform(&self) -> (transform: LayoutTransform)
        ensures
            transform == self.transform,
    {
        self.transform
    }

    /// How the instance is repeated.
    pub fn repetition(&self) -> (repetition: Option<LayoutRepetition>)
        ensures
            repetition == self.repetition,
    {
        self.repetition
    }
}

/// What the shapes of a list are.
pub open spec fn local_shapes_of(shapes: Seq<LayoutShape>) -> Seq<LocalShape> {
    shapes.map_values(|shape: LayoutShape| shape@)
}

/// The layers of the shapes, one by one.
pub open spec fn local_shape_layers(shapes: Seq<LocalShape>) -> Seq<LayerId> {
    shapes.map_values(|shape: LocalShape| shape.layer)
}

/// The rectangles around the shapes, then those around the instances.
pub open spec fn part_bounds(
    shapes: Seq<LocalShape>,
    instances: Seq<LayoutInstance>,
) -> Seq<Bounds> {
    shapes.map_values(|shape: LocalShape| shape.bounds) + instances.map_values(
        |instance: LayoutInstance| instance.local_bounds,
    )
}

/// The layers of the shapes, in ascending order.
pub fn collect_local_layers(local_shapes: &[LayoutShape]) -> (ids: Vec<LayerId>)
    ensures
        layers::layers_ascend(ids@),
        ids@.to_set() == local_shape_layers(local_shapes_of(local_shapes@)).to_set(),
{
    let ghost all = local_shape_layers(local_shapes_of(local_shapes@));
    let mut occurring: Vec<LayerId> = Vec::new();
    let mut i: usize = 0;
    while i < local_shapes.len()
        invariant
            i <= local_shapes@.len(),
            all == local_shape_layers(local_shapes_of(local_shapes@)),
            occurring@ == all.take(i as int),
        decreases local_shapes@.len() - i,
    {
        occurring.push(local_shapes[i].layer());
        assert(occurring@ =~= all.take(i + 1));
        i += 1;
    }
    assert(occurring@ =~= all);
    LayerSet::from_layers(occurring.as_slice()).into_ids()
}

/// The smallest rectangle around the shapes and the instances.
pub fn collect_cell_bounds(local_shapes: &[LayoutShape], instances: &[LayoutInstance]) -> (bounds:
    Option<Bounds>)
    ensures
        bounds == scene::union_of(part_bounds(local_shapes_of(local_shapes@), instances@)),
{
    let ghost shapes = local_shapes_of(local_shapes@);
    let ghost all = part_bounds(shapes, instances@);
    let mut bounds: Option<Bounds> = None;
    let mut i: usize = 0;
    assert(all.take(0) =~= Seq::empty());
    while i < local_shapes.len()
        invariant
            i <= local_shapes@.len(),
            shapes == local_shapes_of(local_shapes@),
            all == part_bounds(shapes, instances@),
            bounds == scene::union_of(all.take(i as int)),
        decreases local_shapes@.len() - i,
    {
        let own = local_shapes[i].bounds();
        proof {
            assert(all.take(i + 1).drop_last() =~= all.take(i as int));
            assert(all.take(i + 1).last() == own);
        }
        bounds = match bounds {
            Some(current) => Some(current.union(own)),
            None => Some(own),
        };
        i += 1;
    }
    let mut j: usize = 0;
    while j < instances.len()
        invariant
            j <= instances@.len(),
            shapes == local_shapes_of(local_shapes@),
            all == part_bounds(shapes, instances@),
            bounds == scene::union_of(all.take(local_shapes@.len() + j)),
        decreases instances@.len() - j,
    {
        let own = instances[j].local_bounds();
        proof {
            let k = local_shapes@.len() + j;
            assert(all.take(k + 1).drop_last() =~= all.take(k));
            assert(all.take(k + 1).last() == own);
        }
        bounds = match bounds {
            Some(current) => Some(current.union(own)),
            None => Some(own),
        };
        j += 1;
    }
    assert(all.take(local_shapes@.len() + j) =~= all);
    bounds
}

/// A cell: its own shapes, and its uses of other cells.
#[derive(Debug)]
pub struct LayoutCell {
    id: LayoutCellId,
    name: String,
    local_shapes: Arc<Vec<LayoutShape>>,
    instances: Vec<LayoutInstance>,
    local_bounds: Option<Bounds>,
    local_layers: Vec<LayerId>,
}

/// What a cell is.
pub struct CellModel {
    pub id: LayoutCellId,
    pub name: Seq<char>,
    pub shapes: Seq<LocalShape>,
    pub instances: Seq<LayoutInstance>,
    pub bounds: Option<Bounds>,
    pub layers: Seq<LayerId>,
}

impl CellModel {
    /// Whether rectangle and layers are those of the shapes and instances.
    pub open spec fn consistent(self) -> bool {
        &&& self.bounds == scene::union_of(part_bounds(self.shapes, self.instances))
        &&& layers::layers_ascend(self.layers)
        &&& self.layers.to_set() == local_shape_layers(self.shapes).to_set()
    }
}

impl View for LayoutCell {
    type V = CellModel;

    closed spec fn view(&self) -> CellModel {
        CellModel {
            id: self.id,
            name: self.name@,
            shapes: local_shapes_of(self.local_shapes@),
            instances: self.instances@,
            bounds: self.local_bounds,
            layers: self.local_layers@,
        }
    }
}

impl LayoutCell {
    #[verifier::type_invariant]
    spec fn well_formed(self) -> bool {
        self@.consistent()
    }

    /// The cell of these shapes and instances.
    pub fn new(
        id: LayoutCellId,
        name: String,
        local_shapes: Vec<LayoutShape>,
        instances: Vec<LayoutInstance>,
    ) -> (cell: Self)
        ensures
            cell@.id == id,
            cell@.name == name@,
            cell@.shapes == local_shapes_of(local_shapes@),
            cell@.instances == instances@,
            cell@.consistent(),
    {
        let local_bounds = collect_cell_bounds(local_shapes.as_slice(), instances.as_slice());
        let local_layers = collect_local_layers(local_shapes.as_slice());
        LayoutCell {
            id,
            name,
            local_shapes: Arc::new(local_shapes),
            instances,
            local_bounds,
            local_layers,
        }
    }

    /// The number of the cell.
    pub fn id(&self) -> (id: LayoutCellId)
        ensures
            id == self@.id,
    {
        self.id
    }

    /// The name of the cell.
    pub fn name(&self) -> (name: &str)
        ensures
            name@ == self@.name,
    {
        self.name.as_str()
    }

    /// The shapes of the cell itself.
    pub fn local_shapes(&self) -> (shapes: &[LayoutShape])
        ensures
            local_shapes_of(shapes@) == self@.shapes,
            shapes@.len() == self@.shapes.len(),
            forall|i: int| 0 <= i < shapes@.len() ==> (#[trigger] shapes@[i])@ == self@.shapes[i],
    {
        self.local_shapes.as_slice()
    }

    /// A handle to the shapes of the cell itself.
    pub fn local_shapes_handle(&self) -> (shapes: Arc<Vec<LayoutShape>>)
        ensures
            local_shapes_of(shapes@) == self@.shapes,
    {
        share(&self.local_shapes)
    }

    /// The uses of other cells.
    pub fn instances(&self) -> (instances: &[LayoutInstance])
        ensures
            instances@ == self@.instances,
    {
        self.instances.as_slice()
    }

    /// How many shapes the cell itself has.
    pub fn local_shape_count(&self) -> (count: usize)
        ensures
            count == self@.shapes.len(),
    {
        self.local_shapes.len()
    }

    /// How many instances the cell has.
    pub fn local_instance_count(&self) -> (count: usize)
        ensures
            count == self@.instances.len(),
    {
        self.instances.len()
    }

    /// The rectangle around the cell.
    pub fn local_bounds(&self) -> (bounds: Option<Bounds>)
        ensures
            bounds == self@.bounds,
            self@.consistent(),
    {
        proof {
            use_type_invariant(self);
        }
        self.local_bounds
    }

    /// The layers of the cell's own shapes, in ascending order.
    pub fn local_layers(&self) -> (ids: &[LayerId])
        ensures
            ids@ == self@.layers,
            self@.consistent(),
    {
        proof {
            use_type_invariant(self);
        }
        self.local_layers.as_slice()
    }
}

/// The name of a view and the cell it starts from.
#[derive(Debug, PartialEq, Eq)]
pub struct LayoutViewMetadata {
    name: String,
    root_cell_id: LayoutCellId,
}

impl LayoutViewMetadata {
    /// The name of the view.
    pub closed spec fn name_chars(self) -> Seq<char> {
        self.name@
    }

    /// The cell that the view starts from.
    pub closed spec fn root(self) -> LayoutCellId {
        self.root_cell_id
    }

    /// The view under this name that starts from this cell.
    pub fn new(name: String, root_cell_id: LayoutCellId) -> (metadata: Self)
        ensures
            metadata.name_chars() == name@,
            metadata.root() == root_cell_id,
    {
        LayoutViewMetadata { name, root_cell_id }
    }

    /// The name of the view.
    pub fn name(&self) -> (name: &str)
        ensures
            name@ == self.name_chars(),
    {
        self.name.as_str()
    }

    /// The cell that the view starts from.
    pub fn root_cell_id(&self) -> (id: LayoutCellId)
        ensures
            id == self.root(),
    {
        self.root_cell_id
    }
}

/// A view onto the layout.
#[derive(Debug, PartialEq, Eq)]
pub struct LayoutView {
    metadata: LayoutViewMetadata,
}

impl LayoutView {
    /// Name and start of the view.
    pub closed spec fn about(self) -> LayoutViewMetadata {
        self.metadata
    }

    /// The view with this name and start.
    pub fn new(metadata: LayoutViewMetadata) -> (view: Self)
        ensures
            view.about() == metadata,
    {
        LayoutView { metadata }
    }

    /// Name and start of the view.
    pub fn metadata(&self) -> (metadata: &LayoutViewMetadata)
        ensures
            *metadata == self.about(),
    {
        &self.metadata
    }
}

/// Why cells and views make no layout.
#[derive(Debug, Clone, Copy, PartialEq, Eq, Structural)]
pub enum LayoutBundleError {
    /// Two cells have the same number.
    DuplicateCellId(LayoutCellId),
    /// A view starts from a cell that is not there.
    MissingRootCell(LayoutCellId),
    /// An instance uses a cell that is not there.
    DanglingInstanceTarget { owner_cell_id: LayoutCellId, target_cell_id: LayoutCellId },
}

/// A layout: its cells by ascending number, its views, and the selected view.
#[derive(Debug)]
pub struct LayoutBundle {
    cells: Vec<Arc<LayoutCell>>,
    views: Vec<LayoutView>,
    selected: usize,
}

/// Whether the list has a cell with the number.
pub open spec fn has_cell(cells: Seq<Arc<LayoutCell>>, id: LayoutCellId) -> bool {
    exists|i: int| 0 <= i < cells.len() && (#[trigger] cells[i])@.id == id
}

/// The place of a cell with the number.
pub open spec fn cell_index(cells: Seq<Arc<LayoutCell>>, id: LayoutCellId) -> int {
    choose|i: int| 0 <= i < cells.len() && (#[trigger] cells[i])@.id == id
}

/// Whether the numbers of the cells ascend, each of them once.
pub open spec fn cells_ascend(cells: Seq<Arc<LayoutCell>>) -> bool {
    forall|i: int, j: int|
        0 <= i < j < cells.len() ==> (#[trigger] cells[i])@.id.0 < (#[trigger] cells[j])@.id.0
}

/// Whether the cell at this place repeats the number of an earlier one.
pub open spec fn repeats_id(cells: Seq<Arc<LayoutCell>>, at: int) -> bool {
    has_cell(cells.take(at), cells[at]@.id)
}

/// Whether the instance uses a cell that is not in the list.
pub open spec fn dangles(cells: Seq<Arc<LayoutCell>>, instance: LayoutInstance) -> bool {
    !has_cell(cells, instance.target_cell_id)
}

/// Whether some instance of the cell uses a cell that is not in the list.
pub open spec fn has_dangling(cells: Seq<Arc<LayoutCell>>, cell: CellModel) -> bool {
    exists|k: int| 0 <= k < cell.instances.len() && dangles(cells, #[trigger] cell.instances[k])
}

/// The place of the first cell that repeats a number.
pub open spec fn first_repeat(cells: Seq<Arc<LayoutCell>>) -> int {
    seqs::least_from(0, cells.len() as int, |at: int| repeats_id(cells, at))
}

/// The place of the first view whose start is not in the list of cells.
pub open spec fn first_rootless(cells: Seq<Arc<LayoutCell>>, views: Seq<LayoutView>) -> int {
    seqs::least_from(
        0,
        views.len() as int,
        |at: int| !has_cell(cells, views[at].about().root()),
    )
}

/// The place of the first instance of a cell that dangles.
pub open spec fn first_dangling(cells: Seq<Arc<LayoutCell>>, cell: CellModel) -> int {
    seqs::least_from(
        0,
        cell.instances.len() as int,
        |at: int| dangles(cells, cell.instances[at]),
    )
}

/// The shapes of a cell can be counted.
pub proof fn lemma_shape_count(bundle: LayoutBundle, id: LayoutCellId)
    requires
        bundle.has(id),
    ensures
        bundle.at(id).shapes.len() <= u64::MAX,
{
    let cell = bundle.listed()[cell_index(bundle.listed(), id)];
    assert(cell.local_shapes@.len() == cell.local_shapes.len());
}

/// The place at which the number stands or would stand.
fn cell_position(cells: &Vec<Arc<LayoutCell>>, id: LayoutCellId) -> (at: usize)
    requires
        cells_ascend(cells@),
    ensures
        at <= cells@.len(),
        forall|k: int| 0 <= k < at ==> (#[trigger] cells@[k])@.id.0 < id.0,
        forall|k: int| at <= k < cells@.len() ==> (#[trigger] cells@[k])@.id.0 >= id.0,
{
    let mut low: usize = 0;
    let mut high: usize = cells.len();
    while low < high
        invariant
            cells_ascend(cells@),
            low <= high <= cells@.len(),
            forall|k: int| 0 <= k < low ==> (#[trigger] cells@[k])@.id.0 < id.0,
            forall|k: int| high <= k < cells@.len() ==> (#[trigger] cells@[k])@.id.0 >= id.0,
        decreases high - low,
    {
        let mid: usize = low + (high - low) / 2;
        if cells[mid].id().raw() < id.raw() {
            assert forall|k: int| 0 <= k < mid + 1 implies (#[trigger] cells@[k])@.id.0 < id.0 by {
                if k < mid {
                    assert(cells@[k]@.id.0 < cells@[mid as int]@.id.0);
                }
            }
            low = mid + 1;
        } else {
            assert forall|k: int| mid <= k < cells@.len() implies (#[trigger] cells@[k])@.id.0
                >= id.0 by {
                if k > mid {
                    assert(cells@[mid as int]@.id.0 < cells@[k]@.id.0);
                }
            }
            high = mid;
        }
    }
    low
}

/// Whether a cell with the number is in the list.
fn holds_cell(cells: &Vec<Arc<LayoutCell>>, id: LayoutCellId) -> (found: bool)
    requires
        cells_ascend(cells@),
    ensures
        found == has_cell(cells@, id),
{
    let at: usize = cell_position(cells, id);
    let found = at < cells.len() && cells[at].id() == id;
    proof {
        if !found && has_cell(cells@, id) {
            let k = cell_index(cells@, id);
            if at < k {
                assert(cells@[at as int]@.id.0 < cells@[k]@.id.0);
                assert(cells@[at as int]@.id.0 >= id.0);
            }
        }
    }
    found
}

impl LayoutBundle {
    /// The cells by ascending number.
    pub closed spec fn listed(self) -> Seq<Arc<LayoutCell>> {
        self.cells@
    }

    /// The views in order.
    pub closed spec fn view_list(self) -> Seq<LayoutView> {
        self.views@
    }

    /// The place of the selected view.
    pub closed spec fn selection(self) -> usize {
        self.selected
    }

    /// Whether the layout has a cell with the number.
    pub open spec fn has(self, id: LayoutCellId) -> bool {
        has_cell(self.listed(), id)
    }

    /// The cell with the number.
    pub open spec fn at(self, id: LayoutCellId) -> CellModel {
        self.listed()[cell_index(self.listed(), id)]@
    }

    /// Whether every view starts from a cell of the layout, and every instance uses one.
    pub open spec fn linked(self) -> bool {
        &&& cells_ascend(self.listed())
        &&& forall|i: int|
            0 <= i < self.view_list().len() ==> self.has(
                (#[trigger] self.view_list()[i]).about().root(),
            )
        &&& forall|i: int|
            0 <= i < self.listed().len() ==> !has_dangling(
                self.listed(),
                (#[trigger] self.listed()[i])@,
            )
    }

    #[verifier::type_invariant]
    spec fn well_formed(self) -> bool {
        self.linked()
    }

    /// The layout without cells and views.
    pub fn empty() -> (bundle: Self)
        ensures
            bundle.listed().len() == 0,
            bundle.view_list().len() == 0,
            bundle.selection() == 0,
            bundle.linked(),
    {
        LayoutBundle { cells: Vec::new(), views: Vec::new(), selected: 0 }
    }

    /// The layout of these cells and views, the first view selected.
    ///
    /// Numbers that occur twice are reported first, then views without a start, then instances
    /// that use no cell of the layout, by ascending number of the cell that holds them.
    pub fn new(cells: Vec<Arc<LayoutCell>>, views: Vec<LayoutView>) -> (result: Result<
        Self,
        LayoutBundleError,
    >)
        ensures
            first_repeat(cells@) < cells@.len() ==> result == Err::<Self, LayoutBundleError>(
                LayoutBundleError::DuplicateCellId(cells@[first_repeat(cells@)]@.id),
            ),
            first_repeat(cells@) == cells@.len() && first_rootless(cells@, views@) < views@.len()
                ==> result == Err::<Self, LayoutBundleError>(
                LayoutBundleError::MissingRootCell(
                    views@[first_rootless(cells@, views@)].about().root(),
                ),
            ),
            first_repeat(cells@) == cells@.len() && first_rootless(cells@, views@) == views@.len()
                ==> match result {
                Ok(bundle) => {
                    &&& bundle.linked()
                    &&& bundle.view_list() == views@
                    &&& bundle.selection() == 0
                    &&& bundle.listed().len() == cells@.len()
                    &&& forall|cell: Arc<LayoutCell>| #![trigger bundle.listed().contains(cell)]
                        bundle.listed().contains(cell) <==> cells@.contains(cell)
                },
                Err(error) => exists|i: int|
                    {
                        &&& 0 <= i < cells@.len()
                        &&& has_dangling(cells@, (#[trigger] cells@[i])@)
                        &&& forall|k: int|
                            0 <= k < cells@.len() && has_dangling(cells@, (#[trigger] cells@[k])@)
                                ==> cells@[i]@.id.0 <= cells@[k]@.id.0
                        &&& error == (LayoutBundleError::DanglingInstanceTarget {
                            owner_cell_id: cells@[i]@.id,
                            target_cell_id: cells@[i]@.instances[first_dangling(
                                cells@,
                                cells@[i]@,
                            )].target_cell_id,
                        })
                    },
            },
    {
        let mut sorted: Vec<Arc<LayoutCell>> = Vec::new();
        let mut i: usize = 0;
        while i < cells.len()
            invariant
                i <= cells@.len(),
                cells_ascend(sorted@),
                sorted@.len() == i,
                forall|cell: Arc<LayoutCell>| #![trigger sorted@.contains(cell)]
                    sorted@.contains(cell) <==> cells@.take(i as int).contains(cell),
                forall|k: int| 0 <= k < i ==> !repeats_id(cells@, k),
            decreases cells@.len() - i,
        {
            let id = cells[i].id();
            let at: usize = cell_position(&sorted, id);
            let ghost upto = cells@.take(i as int);
            proof {
                lemma_same_cells(sorted@, upto, id);
            }
            if holds_cell(&sorted, id) {
                proof {
                    seqs::lemma_least_from(
                        0,
                        cells@.len() as int,
                        |k: int| repeats_id(cells@, k),
                        i as int,
                    );
                }
                return Err(LayoutBundleError::DuplicateCellId(id));
            }
            let ghost before = sorted@;
            let cell = share(&cells[i]);
            sorted.insert(at, cell);
            proof {
                lemma_insert_cell(before, at as int, cell);
                assert(cells@.take(i + 1) =~= upto.push(cell));
                assert forall|c: Arc<LayoutCell>| #![trigger sorted@.contains(c)]
                    sorted@.contains(c) <==> cells@.take(i + 1).contains(c) by {
                    seqs::lemma_push_contains(upto, cell, c);
                    assert(before.contains(c) <==> upto.contains(c));
                }
            }
            i += 1;
        }
        proof {
            assert(cells@.take(i as int) =~= cells@);
            seqs::lemma_least_from(
                0,
                cells@.len() as int,
                |k: int| repeats_id(cells@, k),
                cells@.len() as int,
            );
        }
        let mut v: usize = 0;
        while v < views.len()
            invariant
                v <= views@.len(),
                cells_ascend(sorted@),
                forall|cell: Arc<LayoutCell>| #![trigger sorted@.contains(cell)]
                    sorted@.contains(cell) <==> cells@.contains(cell),
                first_repeat(cells@) == cells@.len(),
                forall|k: int| 0 <= k < v ==> has_cell(cells@, (#[trigger] views@[k]).about().root()),
            decreases views@.len() - v,
        {
            let root = views[v].metadata().root_cell_id();
            proof {
                lemma_same_cells(sorted@, cells@, root);
            }
            if !holds_cell(&sorted, root) {
                proof {
                    seqs::lemma_least_from(
                        0,
                        views@.len() as int,
                        |k: int| !has_cell(cells@, views@[k].about().root()),
                        v as int,
                    );
                }
                return Err(LayoutBundleError::MissingRootCell(root));
            }
            v += 1;
        }
        proof {
            seqs::lemma_least_from(
                0,
                views@.len() as int,
                |k: int| !has_cell(cells@, views@[k].about().root()),
                views@.len() as int,
            );
        }
        let mut c: usize = 0;
        while c < sorted.len()
            invariant
                c <= sorted@.len(),
                cells_ascend(sorted@),
                sorted@.len() == cells@.len(),
                forall|cell: Arc<LayoutCell>| #![trigger sorted@.contains(cell)]
                    sorted@.contains(cell) <==> cells@.contains(cell),
                first_repeat(cells@) == cells@.len(),
                first_rootless(cells@, views@) == views@.len(),
                forall|k: int| 0 <= k < c ==> !has_dangling(cells@, (#[trigger] sorted@[k])@),
            decreases sorted@.len() - c,
        {
            let ghost model = sorted@[c as int]@;
            let instances = sorted[c].instances();
            let mut k: usize = 0;
            while k < instances.len()
                invariant
                    k <= instances@.len(),
                    c < sorted@.len(),
                    cells_ascend(sorted@),
                    model == sorted@[c as int]@,
                    instances@ == model.instances,
                    forall|cell: Arc<LayoutCell>| #![trigger sorted@.contains(cell)]
                        sorted@.contains(cell) <==> cells@.contains(cell),
                    first_repeat(cells@) == cells@.len(),
                    first_rootless(cells@, views@) == views@.len(),
                    forall|m: int| 0 <= m < c ==> !has_dangling(cells@, (#[trigger] sorted@[m])@),
                    forall|m: int| 0 <= m < k ==> !dangles(cells@, #[trigger] instances@[m]),
                decreases instances@.len() - k,
            {
                let target = instances[k].target_cell_id();
                proof {
                    lemma_same_cells(sorted@, cells@, target);
                }
                if !holds_cell(&sorted, target) {
                    proof {
                        seqs::lemma_least_from(
                            0,
                            model.instances.len() as int,
                            |m: int| dangles(cells@, model.instances[m]),
                            k as int,
                        );
                        assert(dangles(cells@, model.instances[k as int]));
                        assert(has_dangling(cells@, model));
                        assert(sorted@.contains(sorted@[c as int]));
                        let at = choose|at: int|
                            0 <= at < cells@.len() && cells@[at] == sorted@[c as int];
                        assert(cells@[at]@ == model);
                        assert forall|m: int|
                            0 <= m < cells@.len() && has_dangling(
                                cells@,
                                (#[trigger] cells@[m])@,
                            ) implies cells@[at]@.id.0 <= cells@[m]@.id.0 by {
                            assert(cells@.contains(cells@[m]));
                            assert(sorted@.contains(cells@[m]));
                            let s = choose|s: int|
                                0 <= s < sorted@.len() && sorted@[s] == cells@[m];
                            assert(s >= c);
                            if s > c {
                                assert(sorted@[c as int]@.id.0 < sorted@[s]@.id.0);
                            }
                        }
                    }
                    return Err(
                        LayoutBundleError::DanglingInstanceTarget {
                            owner_cell_id: sorted[c].id(),
                            target_cell_id: target,
                        },
                    );
                }
                k += 1;
            }
            c += 1;
        }
        proof {
            assert forall|id: LayoutCellId| #[trigger] has_cell(sorted@, id) == has_cell(cells@, id) by {
                lemma_same_cells(sorted@, cells@, id);
            }
            assert forall|i: int| 0 <= i < views@.len() implies has_cell(
                sorted@,
                (#[trigger] views@[i]).about().root(),
            ) by {
                seqs::lemma_least_from_none(
                    0,
                    views@.len() as int,
                    |k: int| !has_cell(cells@, views@[k].about().root()),
                    i,
                );
            }
            assert forall|i: int| 0 <= i < sorted@.len() implies !has_dangling(
                sorted@,
                (#[trigger] sorted@[i])@,
            ) by {
                assert(!has_dangling(cells@, sorted@[i]@));
                let model = sorted@[i]@;
                assert forall|k: int| 0 <= k < model.instances.len() implies !dangles(
                    sorted@,
                    #[trigger] model.instances[k],
                ) by {
                    assert(!dangles(cells@, model.instances[k]));
                }
            }
        }
        Ok(LayoutBundle { cells: sorted, views, selected: 0 })
    }

    /// The cells by ascending number.
    pub fn cells(&self) -> (cells: &[Arc<LayoutCell>])
        ensures
            cells@ == self.listed(),
            self.linked(),
    {
        proof {
            use_type_invariant(self);
        }
        self.cells.as_slice()
    }

    /// The cell with the number, where there is one.
    pub fn cell(&self, id: LayoutCellId) -> (cell: Option<&LayoutCell>)
        ensures
            cell is Some <==> self.has(id),
            cell matches Some(c) ==> c@ == self.at(id) && c@.id == id,
    {
        proof {
            use_type_invariant(self);
        }
        if holds_cell(&self.cells, id) {
            let at: usize = cell_position(&self.cells, id);
            proof {
                let k = cell_index(self.cells@, id);
                if at < k {
                    assert(self.cells@[at as int]@.id.0 < self.cells@[k]@.id.0);
                    assert(self.cells@[at as int]@.id.0 >= id.0);
                }
                assert(at == k);
            }
            Some(&*self.cells[at])
        } else {
            None
        }
    }

    /// The views in order.
    pub fn views(&self) -> (views: &[LayoutView])
        ensures
            views@ == self.view_list(),
    {
        self.views.as_slice()
    }

    /// The place of the selected view.
    pub fn selected_index(&self) -> (index: usize)
        ensures
            index == self.selection(),
    {
        self.selected
    }

    /// The selected view, where there is one.
    pub fn selected_view(&self) -> (view: Option<&LayoutView>)
        ensures
            view is Some <==> self.selection() < self.view_list().len(),
            view matches Some(v) ==> *v == self.view_list()[self.selection() as int],
    {
        if self.selected < self.views.len() {
            Some(&self.views[self.selected])
        } else {
            None
        }
    }

    /// Name and start of the selected view.
    pub fn selected_root_metadata(&self) -> (metadata: Option<&LayoutViewMetadata>)
        ensures
            metadata is Some <==> self.selection() < self.view_list().len(),
            metadata matches Some(m) ==> *m == self.view_list()[self.selection() as int].about(),
    {
        if self.selected < self.views.len() {
            Some(self.views[self.selected].metadata())
        } else {
            None
        }
    }

    /// The cell from which the selected view starts.
    pub fn selected_root_cell(&self) -> (cell: Option<&LayoutCell>)
        ensures
            cell is Some <==> self.selection() < self.view_list().len(),
            cell matches Some(c) ==> c@ == self.at(
                self.view_list()[self.selection() as int].about().root(),
            ),
    {
        proof {
            use_type_invariant(self);
        }
        match self.selected_root_metadata() {
            Some(metadata) => self.cell(metadata.root_cell_id()),
            None => None,
        }
    }

    /// Selects a view; tells whether the selection has changed.
    pub fn select(&mut self, index: usize) -> (changed: bool)
        ensures
            changed == (index < old(self).view_list().len() && index != old(self).selection()),
            final(self).listed() == old(self).listed(),
            final(self).view_list() == old(self).view_list(),
            final(self).selection() == (if changed {
                index
            } else {
                old(self).selection()
            }),
    {
        proof {
            use_type_invariant(&*self);
        }
        if index >= self.views.len() || index == self.selected {
            return false;
        }
        self.selected = index;
        true
    }
}

proof fn lemma_same_cells(a: Seq<Arc<LayoutCell>>, b: Seq<Arc<LayoutCell>>, id: LayoutCellId)
    requires
        forall|cell: Arc<LayoutCell>| #![trigger a.contains(cell)]
            a.contains(cell) <==> b.contains(cell),
    ensures
        has_cell(a, id) == has_cell(b, id),
{
    if has_cell(a, id) {
        let k = cell_index(a, id);
        assert(a.contains(a[k]));
        let m = choose|m: int| 0 <= m < b.len() && b[m] == a[k];
        assert(b[m]@.id == id);
    }
    if has_cell(b, id) {
        let k = cell_index(b, id);
        assert(b.contains(b[k]));
        assert(a.contains(b[k]));
        let m = choose|m: int| 0 <= m < a.len() && a[m] == b[k];
        assert(a[m]@.id == id);
    }
}

proof fn lemma_insert_cell(before: Seq<Arc<LayoutCell>>, at: int, cell: Arc<LayoutCell>)
    requires
        cells_ascend(before),
        0 <= at <= before.len(),
        !has_cell(before, cell@.id),
        forall|k: int| 0 <= k < at ==> (#[trigger] before[k])@.id.0 < cell@.id.0,
        forall|k: int| at <= k < before.len() ==> (#[trigger] before[k])@.id.0 >= cell@.id.0,
    ensures
        cells_ascend(before.insert(at, cell)),
        forall|c: Arc<LayoutCell>| #![trigger before.insert(at, cell).contains(c)]
            before.insert(at, cell).contains(c) <==> before.contains(c) || c == cell,
{
    let after = before.insert(at, cell);
    assert forall|i: int, j: int| 0 <= i < j < after.len() implies (#[trigger] after[i])@.id.0
        < (#[trigger] after[j])@.id.0 by {
        if j < at {
            assert(before[i]@.id.0 < before[j]@.id.0);
        } else if j == at {
            assert(before[i]@.id.0 < cell@.id.0);
        } else if i == at {
            assert(before[j - 1]@.id.0 >= cell@.id.0);
            assert(before[j - 1]@.id != cell@.id);
        } else if i < at {
            assert(before[i]@.id.0 < before[j - 1]@.id.0);
        } else {
            assert(before[i - 1]@.id.0 < before[j - 1]@.id.0);
        }
    }
    assert forall|c: Arc<LayoutCell>| #![trigger after.contains(c)]
        after.contains(c) <==> before.contains(c) || c == cell by {
        if after.contains(c) {
            let k = choose|k: int| 0 <= k < after.len() && after[k] == c;
            if k < at {
                assert(before[k] == c);
            } else if k > at {
                assert(before[k - 1] == c);
            }
        }
        if before.contains(c) {
            let k = choose|k: int| 0 <= k < before.len() && before[k] == c;
            if k < at {
                assert(after[k] == c);
            } else {
                assert(after[k + 1] == c);
            }
        }
        assert(after[at] == cell);
    }
}

impl Clone for LayoutViewMetadata {
    fn clone(&self) -> (copy: Self)
        ensures
            copy.name_chars() == self.name_chars(),
            copy.root() == self.root(),
    {
        LayoutViewMetadata { name: self.name.clone(), root_cell_id: self.root_cell_id }
    }
}

impl Clone for LayoutView {
    fn clone(&self) -> (copy: Self)
        ensures
            copy.about().name_chars() == self.about().name_chars(),
            copy.about().root() == self.about().root(),
    {
        LayoutView { metadata: self.metadata.clone() }
    }
}

impl Clone for LayoutBundle {
    /// A layout with the same cells and views, and the same view selected.
    fn clone(&self) -> (copy: Self)
        ensures
            copy.listed() == self.listed(),
            copy.view_list().len() == self.view_list().len(),
            forall|i: int|
                0 <= i < copy.view_list().len() ==> (#[trigger] copy.view_list()[i]).about().name_chars()
                    == self.view_list()[i].about().name_chars()
                    && copy.view_list()[i].about().root() == self.view_list()[i].about().root(),
            copy.selection() == self.selection(),
    {
        proof {
            use_type_invariant(self);
        }
        let mut cells: Vec<Arc<LayoutCell>> = Vec::new();
        let mut i: usize = 0;
        while i < self.cells.len()
            invariant
                i <= self.cells@.len(),
                cells@ == self.cells@.take(i as int),
            decreases self.cells@.len() - i,
        {
            cells.push(share(&self.cells[i]));
            assert(cells@ =~= self.cells@.take(i + 1));
            i += 1;
        }
        assert(cells@ =~= self.cells@);
        let mut views: Vec<LayoutView> = Vec::new();
        let mut j: usize = 0;
        while j < self.views.len()
            invariant
                j <= self.views@.len(),
                views@.len() == j,
                forall|k: int|
                    0 <= k < j ==> (#[trigger] views@[k]).about().name_chars()
                        == self.views@[k].about().name_chars() && views@[k].about().root()
                        == self.views@[k].about().root(),
            decreases self.views@.len() - j,
        {
            views.push(self.views[j].clone());
            j += 1;
        }
        proof {
            assert forall|k: int| 0 <= k < views@.len() implies has_cell(
                cells@,
                (#[trigger] views@[k]).about().root(),
            ) by {
                assert(self.has(self.view_list()[k].about().root()));
            }
        }
        LayoutBundle { cells, views, selected: self.selected }
    }
}

} // verus!
