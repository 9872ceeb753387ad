//! The cells of an OASIS file.

use crate::error::AppError;
use crate::io::flatten;
use crate::io::flatten::{
    build_scene_bundle, FlatModel, FlatShape, ItemModel, LoadError, SourceCell, SourceItem,
};
use crate::scene::{LayerId, PlacedModel, PlacedOutline, SceneBundle};
use vstd::prelude::*;

verus! {

/// How something is repeated.
#[derive(Debug)]
pub enum OasisRepetition {
    /// As the thing before was.
    ReusePrevious,
    /// In rows and columns.
    Matrix { x_count: u32, y_count: u32, x_space: u64, y_space: u64 },
    /// At places that are listed.
    Arbitrary { x_displacements: Vec<i64>, y_displacements: Vec<i64> },
    /// In one row.
    Grid { count: u32, grid_space: u64 },
}

/// A rectangle.
#[derive(Debug)]
pub struct OasisRectangle {
    pub layer: u32,
    pub datatype: u32,
    pub x: i64,
    pub y: i64,
    pub width: u64,
    pub height: u64,
    pub repetition: Option<OasisRepetition>,
}

/// A closed outline; the points are relative to `x` and `y`.
#[derive(Debug)]
pub struct OasisPolygon {
    pub layer: u32,
    pub datatype: u32,
    pub x: i64,
    pub y: i64,
    pub points: Vec<(i64, i64)>,
    pub repetition: Option<OasisRepetition>,
}

/// A line with a width; the points are relative to `x` and `y`.
#[derive(Debug)]
pub struct OasisPath {
    pub layer: u32,
    pub datatype: u32,
    pub x: i64,
    pub y: i64,
    pub half_width: u64,
    pub points: Vec<(i64, i64)>,
    pub repetition: Option<OasisRepetition>,
}

/// A cell placed in another; scale and angle are the bits of double-precision numbers.
#[derive(Debug)]
pub struct OasisPlacement {
    pub cell_name: String,
    pub x: i64,
    pub y: i64,
    pub magnification: Option<u64>,
    pub angle: Option<u64>,
    pub mirror: bool,
    pub repetition: Option<OasisRepetition>,
}

/// One thing that a cell holds.
#[derive(Debug)]
pub enum OasisElement {
    Rectangle(OasisRectangle),
    Polygon(OasisPolygon),
    Path(OasisPath),
    Placement(OasisPlacement),
    /// Something that is not drawn.
    Other,
}

/// A cell of a file.
#[derive(Debug)]
pub struct OasisCell {
    pub name: String,
    pub elements: Vec<OasisElement>,
}

/// The displacement of one copy: so many steps in either direction.
#[derive(Debug, Clone, Copy, PartialEq, Eq, Structural)]
pub struct CopyOffset {
    pub col: u32,
    pub x_step: i128,
    pub row: u32,
    pub y_step: i128,
}

/// The number, or one where it is nought.
pub open spec fn at_least_one(n: u32) -> u32 {
    if n == 0 {
        1
    } else {
        n
    }
}

fn one_or_more(n: u32) -> (raised: u32)
    ensures
        raised == at_least_one(n),
        raised >= 1,
{
    if n == 0 {
        1
    } else {
        n
    }
}

/// The greater of two numbers, one at least.
pub open spec fn longest(a: nat, b: nat) -> nat {
    if a == 0 && b == 0 {
        1
    } else if a >= b {
        a
    } else {
        b
    }
}

/// The entry of a list, or nought beyond its end.
pub open spec fn entry(list: Seq<i64>, k: int) -> i64 {
    if k < list.len() {
        list[k]
    } else {
        0
    }
}

/// How many copies there are, the thing itself counted; none where that is not known.
pub open spec fn copy_count(repetition: Option<OasisRepetition>) -> Option<u64> {
    match repetition {
        None => Some(1),
        Some(OasisRepetition::ReusePrevious) => None,
        Some(OasisRepetition::Matrix { x_count, y_count, .. }) => Some(
            (at_least_one(x_count) * at_least_one(y_count)) as u64,
        ),
        Some(OasisRepetition::Arbitrary { x_displacements, y_displacements }) => Some(
            longest(x_displacements@.len(), y_displacements@.len()) as u64,
        ),
        Some(OasisRepetition::Grid { count, .. }) => Some(at_least_one(count) as u64),
    }
}

/// The displacement of a copy. A matrix goes row by row, a grid along the first axis.
pub open spec fn copy_offset(repetition: Option<OasisRepetition>, k: int) -> CopyOffset {
    match repetition {
        Some(OasisRepetition::Matrix { x_count, x_space, y_space, .. }) => CopyOffset {
            col: (k % (at_least_one(x_count) as int)) as u32,
            x_step: x_space as i128,
            row: (k / (at_least_one(x_count) as int)) as u32,
            y_step: y_space as i128,
        },
        Some(OasisRepetition::Arbitrary { x_displacements, y_displacements }) => CopyOffset {
            col: 1,
            x_step: entry(x_displacements@, k) as i128,
            row: 1,
            y_step: entry(y_displacements@, k) as i128,
        },
        Some(OasisRepetition::Grid { grid_space, .. }) => CopyOffset {
            col: k as u32,
            x_step: grid_space as i128,
            row: 0,
            y_step: 0,
        },
        _ => CopyOffset { col: 0, x_step: 0, row: 0, y_step: 0 },
    }
}

/// How many copies there are, the thing itself counted; none where that is not known.
pub fn count_copies(repetition: &Option<OasisRepetition>) -> (count: Option<u64>)
    ensures
        count == copy_count(*repetition),
{
    match repetition {
        None => Some(1),
        Some(OasisRepetition::ReusePrevious) => None,
        Some(OasisRepetition::Matrix { x_count, y_count, .. }) => {
            let cols: u32 = one_or_more(*x_count);
            let rows: u32 = one_or_more(*y_count);
            assert(cols * rows <= 0xffff_ffff * 0xffff_ffff) by (nonlinear_arith)
                requires
                    cols <= 0xffff_ffff,
                    rows <= 0xffff_ffff,
            ;
            Some((cols as u64) * (rows as u64))
        },
        Some(OasisRepetition::Arbitrary { x_displacements, y_displacements }) => {
            let a: usize = x_displacements.len();
            let b: usize = y_displacements.len();
            if a == 0 && b == 0 {
                Some(1)
            } else if a >= b {
                Some(a as u64)
            } else {
                Some(b as u64)
            }
        },
        Some(OasisRepetition::Grid { count, .. }) => Some(one_or_more(*count) as u64),
    }
}

/// The displacement of one of the copies.
pub fn offset_of_copy(repetition: &Option<OasisRepetition>, copy: u64) -> (offset: CopyOffset)
    requires
        copy_count(*repetition) matches Some(count) && copy < count,
    ensures
        offset == copy_offset(*repetition, copy as int),
{
    match repetition {
        Some(OasisRepetition::Matrix { x_count, y_count, x_space, y_space }) => {
            let cols: u32 = one_or_more(*x_count);
            let rows: u32 = one_or_more(*y_count);
            assert(cols * rows <= 0xffff_ffff * 0xffff_ffff) by (nonlinear_arith)
                requires
                    cols <= 0xffff_ffff,
                    rows <= 0xffff_ffff,
            ;
            assert(copy / cols as u64 <= 0xffff_ffff) by (nonlinear_arith)
                requires
                    copy < cols * rows,
                    cols >= 1,
                    rows <= 0xffff_ffff,
            ;
            CopyOffset {
                col: (copy % cols as u64) as u32,
                x_step: *x_space as i128,
                row: (copy / cols as u64) as u32,
                y_step: *y_space as i128,
            }
        },
        Some(OasisRepetition::Arbitrary { x_displacements, y_displacements }) => {
            let at: usize = copy as usize;
            CopyOffset {
                col: 1,
                x_step: if at < x_displacements.len() {
                    x_displacements[at] as i128
                } else {
                    0
                },
                row: 1,
                y_step: if at < y_displacements.len() {
                    y_displacements[at] as i128
                } else {
                    0
                },
            }
        },
        Some(OasisRepetition::Grid { count, grid_space }) => CopyOffset {
            col: copy as u32,
            x_step: *grid_space as i128,
            row: 0,
            y_step: 0,
        },
        _ => CopyOffset { col: 0, x_step: 0, row: 0, y_step: 0 },
    }
}

/// The displacements of all copies, the thing itself first; fails where the way of repeating is
/// not known.
pub fn repetition_offsets(repetition: &Option<OasisRepetition>) -> (result: Result<
    Vec<CopyOffset>,
    LoadError,
>)
    ensures
        match copy_count(*repetition) {
            Some(count) => result matches Ok(offsets) && offsets@ == Seq::new(
                count as nat,
                |k: int| copy_offset(*repetition, k),
            ),
            None => result matches Err(error) && error is UnsupportedRepetition,
        },
{
    match count_copies(repetition) {
        None => Err(LoadError::UnsupportedRepetition),
        Some(count) => {
            let ghost all = Seq::new(count as nat, |k: int| copy_offset(*repetition, k));
            let mut offsets: Vec<CopyOffset> = Vec::new();
            let mut k: u64 = 0;
            while k < count
                invariant
                    k <= count,
                    copy_count(*repetition) == Some(count),
                    all == Seq::new(count as nat, |k: int| copy_offset(*repetition, k)),
                    offsets@ == all.take(k as int),
                decreases count - k,
            {
                offsets.push(offset_of_copy(repetition, k));
                assert(offsets@ =~= all.take(k + 1));
                k += 1;
            }
            assert(offsets@ =~= all);
            Ok(offsets)
        },
    }
}

/// What an element is to the view. Rectangles and polygons are closed, lines are open.
pub open spec fn item_of(element: OasisElement) -> ItemModel {
    match element {
        OasisElement::Rectangle(rectangle) => ItemModel::Shape {
            layer: LayerId { layer: rectangle.layer, datatype: rectangle.datatype },
            closed: true,
            has_points: true,
            copies: copy_count(rectangle.repetition),
        },
        OasisElement::Polygon(polygon) => ItemModel::Shape {
            layer: LayerId { layer: polygon.layer, datatype: polygon.datatype },
            closed: true,
            has_points: polygon.points@.len() > 0,
            copies: copy_count(polygon.repetition),
        },
        OasisElement::Path(path) => ItemModel::Shape {
            layer: LayerId { layer: path.layer, datatype: path.datatype },
            closed: false,
            has_points: path.points@.len() > 0,
            copies: copy_count(path.repetition),
        },
        OasisElement::Placement(placement) => ItemModel::Reference {
            target: placement.cell_name@,
            copies: copy_count(placement.repetition),
        },
        OasisElement::Other => ItemModel::Other,
    }
}

/// What an element is to the view.
fn source_item(element: &OasisElement) -> (item: SourceItem)
    ensures
        item@ == item_of(*element),
{
    match element {
        OasisElement::Rectangle(rectangle) => SourceItem::Shape {
            layer: LayerId { layer: rectangle.layer, datatype: rectangle.datatype },
            closed: true,
            has_points: true,
            copies: count_copies(&rectangle.repetition),
        },
        OasisElement::Polygon(polygon) => SourceItem::Shape {
            layer: LayerId { layer: polygon.layer, datatype: polygon.datatype },
            closed: true,
            has_points: polygon.points.len() > 0,
            copies: count_copies(&polygon.repetition),
        },
        OasisElement::Path(path) => SourceItem::Shape {
            layer: LayerId { layer: path.layer, datatype: path.datatype },
            closed: false,
            has_points: path.points.len() > 0,
            copies: count_copies(&path.repetition),
        },
        OasisElement::Placement(placement) => SourceItem::Reference {
            target: placement.cell_name.clone(),
            copies: count_copies(&placement.repetition),
        },
        OasisElement::Other => SourceItem::Other,
    }
}

/// Whether these are the cells of a file with these cells.
pub open spec fn are_cells_of(cells: Seq<SourceCell>, sources: Seq<OasisCell>) -> bool {
    &&& cells.len() == sources.len()
    &&& forall|c: int|
        0 <= c < cells.len() ==> {
            &&& (#[trigger] cells[c]).name@ == sources[c].name@
            &&& cells[c].items@.len() == sources[c].elements@.len()
            &&& forall|i: int|
                0 <= i < cells[c].items@.len() ==> (#[trigger] cells[c].items@[i])@ == item_of(
                    sources[c].elements@[i],
                )
        }
}

/// The cells of a file, as far as the view is concerned.
pub fn oasis_cells(sources: &[OasisCell]) -> (cells: Vec<SourceCell>)
    ensures
        are_cells_of(cells@, sources@),
{
    let mut cells: Vec<SourceCell> = Vec::new();
    let mut c: usize = 0;
    while c < sources.len()
        invariant
            c <= sources@.len(),
            are_cells_of(cells@, sources@.take(c as int)),
        decreases sources@.len() - c,
    {
        let elements = &sources[c].elements;
        let mut items: Vec<SourceItem> = Vec::new();
        let mut i: usize = 0;
        while i < elements.len()
            invariant
                i <= elements@.len(),
                items@.len() == i,
                forall|k: int| 0 <= k < i ==> (#[trigger] items@[k])@ == item_of(elements@[k]),
            decreases elements@.len() - i,
        {
            items.push(source_item(&elements[i]));
            i += 1;
        }
        let ghost before = cells@;
        cells.push(SourceCell { name: sources[c].name.clone(), items });
        proof {
            let head = sources@.take(c + 1);
            assert forall|k: int| 0 <= k < cells@.len() implies {
                &&& (#[trigger] cells@[k]).name@ == head[k].name@
                &&& cells@[k].items@.len() == head[k].elements@.len()
                &&& forall|i: int|
                    0 <= i < cells@[k].items@.len() ==> (#[trigger] cells@[k].items@[i])@ == item_of(
                        head[k].elements@[i],
                    )
            } by {
                if k < c {
                    assert(cells@[k] == before[k]);
                    assert(head[k] == sources@.take(c as int)[k]);
                }
            }
        }
        c += 1;
    }
    assert(sources@.take(c as int) =~= sources@);
    cells
}

/// The scenes of a file, one for each cell that no other refers to, or for all where there is no
/// such cell. `outline` puts a shape where the path of references leads.
pub fn build_oasis_scene_bundle<F: Fn(&FlatShape) -> PlacedOutline>(
    sources: &[OasisCell],
    outline: &F,
) -> (result: Result<SceneBundle, AppError>)
    requires
        sources@.len() <= u32::MAX,
        forall|shape: &FlatShape| #[trigger] outline.requires((shape,)),
    ensures
        exists|cells: Seq<SourceCell>|
            #![trigger are_cells_of(cells, sources@)]
            are_cells_of(cells, sources@) && match result {
                Ok(bundle) => {
                    &&& bundle.selection() == 0
                    &&& forall|k: int|
                        0 <= k < flatten::root_cells(cells).len() ==> flatten::view_of(
                            cells,
                            #[trigger] flatten::root_cells(cells)[k] as int,
                        ) is Ok
                    &&& forall|put: spec_fn(FlatModel) -> PlacedModel| #[trigger]
                        flatten::decides_outline(outline, put) ==> flatten::bundle_of(
                            bundle,
                            cells,
                            put,
                        )
                },
                Err(error) => error matches AppError::Parse(detail) && exists|
                    failure: flatten::LoadFailure,
                |
                    #[trigger] flatten::first_failure(cells, failure) && detail@
                        == flatten::failure_text(failure),
            },
{
    let cells = oasis_cells(sources);
    build_scene_bundle(&cells, outline)
}

} // verus!
