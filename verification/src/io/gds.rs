//! The structures of a GDSII file.

use crate::error::AppError;
use crate::io::flatten;
use crate::io::flatten::{
    build_scene_bundle, FlatModel, FlatShape, ItemModel, SourceCell, SourceItem,
};
use crate::scene::{LayerId, PlacedModel, PlacedOutline, SceneBundle};
use vstd::prelude::*;

verus! {

/// A closed outline.
#[derive(Debug)]
pub struct GdsOutline {
    pub layer: i16,
    pub datatype: i16,
    pub xy: Vec<(i32, i32)>,
}

/// A line with a width.
#[derive(Debug)]
pub struct GdsPath {
    pub layer: i16,
    pub datatype: i16,
    pub width: Option<i32>,
    pub xy: Vec<(i32, i32)>,
}

/// How a structure is turned and scaled; scale and angle are the bits of double-precision numbers.
#[derive(Debug, Clone, Copy, PartialEq, Eq, Structural)]
pub struct GdsTransform {
    pub reflection: bool,
    pub magnification: Option<u64>,
    pub angle: Option<u64>,
}

/// A structure placed once.
#[derive(Debug)]
pub struct GdsStructRef {
    pub sname: String,
    pub xy: (i32, i32),
    pub strans: Option<GdsTransform>,
}

/// A structure placed in rows and columns.
#[derive(Debug)]
pub struct GdsArrayRef {
    pub sname: String,
    pub columns: u16,
    pub rows: u16,
    /// The first place, the end of the columns and the end of the rows.
    pub xy: Vec<(i32, i32)>,
    pub strans: Option<GdsTransform>,
}

/// One thing that a structure holds.
#[derive(Debug)]
pub enum GdsElement {
    Boundary(GdsOutline),
    Box(GdsOutline),
    Path(GdsPath),
    StructRef(GdsStructRef),
    ArrayRef(GdsArrayRef),
    /// Something that is not drawn.
    Other,
}

/// A structure of a file.
#[derive(Debug)]
pub struct GdsStructure {
    pub name: String,
    pub elements: Vec<GdsElement>,
}

/// The number, or one where it is nought.
pub open spec fn at_least_one(n: u16) -> u16 {
    if n == 0 {
        1
    } else {
        n
    }
}

fn one_or_more(n: u16) -> (raised: u16)
    ensures
        raised == at_least_one(n),
        raised >= 1,
{
    if n == 0 {
        1
    } else {
        n
    }
}

/// How many copies an array makes.
pub open spec fn array_copies(columns: u16, rows: u16) -> u64 {
    (at_least_one(columns) * at_least_one(rows)) as u64
}

/// What an element is to the view. A line of any width is open, boundaries and boxes are closed.
pub open spec fn item_of(element: GdsElement) -> ItemModel {
    match element {
        GdsElement::Boundary(outline) => ItemModel::Shape {
            layer: LayerId { layer: outline.layer as u32, datatype: outline.datatype as u32 },
            closed: true,
            has_points: outline.xy@.len() > 0,
            copies: Some(1),
        },
        GdsElement::Box(outline) => ItemModel::Shape {
            layer: LayerId { layer: outline.layer as u32, datatype: outline.datatype as u32 },
            closed: true,
            has_points: outline.xy@.len() > 0,
            copies: Some(1),
        },
        GdsElement::Path(path) => ItemModel::Shape {
            layer: LayerId { layer: path.layer as u32, datatype: path.datatype as u32 },
            closed: false,
            has_points: path.xy@.len() > 0,
            copies: Some(1),
        },
        GdsElement::StructRef(sref) => ItemModel::Reference {
            target: sref.sname@,
            copies: Some(1),
        },
        GdsElement::ArrayRef(aref) => ItemModel::Reference {
            target: aref.sname@,
            copies: Some(array_copies(aref.columns, aref.rows)),
        },
        GdsElement::Other => ItemModel::Other,
    }
}

/// What an element is to the view.
fn source_item(element: &GdsElement) -> (item: SourceItem)
    ensures
        item@ == item_of(*element),
{
    match element {
        GdsElement::Boundary(outline) => SourceItem::Shape {
            layer: LayerId { layer: outline.layer as u32, datatype: outline.datatype as u32 },
            closed: true,
            has_points: outline.xy.len() > 0,
            copies: Some(1),
        },
        GdsElement::Box(outline) => SourceItem::Shape {
            layer: LayerId { layer: outline.layer as u32, datatype: outline.datatype as u32 },
            closed: true,
            has_points: outline.xy.len() > 0,
            copies: Some(1),
        },
        GdsElement::Path(path) => SourceItem::Shape {
            layer: LayerId { layer: path.layer as u32, datatype: path.datatype as u32 },
            closed: false,
            has_points: path.xy.len() > 0,
            copies: Some(1),
        },
        GdsElement::StructRef(sref) => SourceItem::Reference {
            target: sref.sname.clone(),
            copies: Some(1),
        },
        GdsElement::ArrayRef(aref) => {
            let columns: u16 = one_or_more(aref.columns);
            let rows: u16 = one_or_more(aref.rows);
            assert(columns * rows <= 0xffff * 0xffff) by (nonlinear_arith)
                requires
                    columns <= 0xffff,
                    rows <= 0xffff,
            ;
            SourceItem::Reference {
                target: aref.sname.clone(),
                copies: Some((columns as u64) * (rows as u64)),
            }
        },
        GdsElement::Other => SourceItem::Other,
    }
}

/// Whether these are the cells of a file with these structures.
pub open spec fn are_cells_of(cells: Seq<SourceCell>, structures: Seq<GdsStructure>) -> bool {
    &&& cells.len() == structures.len()
    &&& forall|c: int|
        0 <= c < cells.len() ==> {
            &&& (#[trigger] cells[c]).name@ == structures[c].name@
            &&& cells[c].items@.len() == structures[c].elements@.len()
            &&& forall|i: int|
                0 <= i < cells[c].items@.len() ==> (#[trigger] cells[c].items@[i])@ == item_of(
                    structures[c].elements@[i],
                )
        }
}

/// The cells of a file with these structures.
pub fn gds_cells(structures: &[GdsStructure]) -> (cells: Vec<SourceCell>)
    ensures
        are_cells_of(cells@, structures@),
{
    let mut cells: Vec<SourceCell> = Vec::new();
    let mut c: usize = 0;
    while c < structures.len()
        invariant
            c <= structures@.len(),
            are_cells_of(cells@, structures@.take(c as int)),
        decreases structures@.len() - c,
    {
        let elements = &structures[c].elements;
        let mut items: Vec<SourceItem> = Vec::new();
        let mut i: usize = 0;
        while i < elements.len()
            invariant
                i <= elements@.len(),
                items@.len() == i,
                forall|k: int| 0 <= k < i ==> (#[trigger] items@[k])@ == item_of(elements@[k]),
            decreases elements@.len() - i,
        {
            items.push(source_item(&elements[i]));
            i += 1;
        }
        let ghost before = cells@;
        cells.push(SourceCell { name: structures[c].name.clone(), items });
        proof {
            let head = structures@.take(c + 1);
            assert forall|k: int| 0 <= k < cells@.len() implies {
                &&& (#[trigger] cells@[k]).name@ == head[k].name@
                &&& cells@[k].items@.len() == head[k].elements@.len()
                &&& forall|i: int|
                    0 <= i < cells@[k].items@.len() ==> (#[trigger] cells@[k].items@[i])@ == item_of(
                        head[k].elements@[i],
                    )
            } by {
                if k < c {
                    assert(cells@[k] == before[k]);
                    assert(head[k] == structures@.take(c as int)[k]);
                }
            }
        }
        c += 1;
    }
    assert(structures@.take(c as int) =~= structures@);
    cells
}

/// The scenes of a file, one for each structure that no other refers to, or for all where there is
/// no such structure. `outline` puts a shape where the path of references leads.
pub fn build_gds_scene_bundle<F: Fn(&FlatShape) -> PlacedOutline>(
    structures: &[GdsStructure],
    outline: &F,
) -> (result: Result<SceneBundle, AppError>)
    requires
        structures@.len() <= u32::MAX,
        forall|shape: &FlatShape| #[trigger] outline.requires((shape,)),
    ensures
        exists|cells: Seq<SourceCell>|
            #![trigger are_cells_of(cells, structures@)]
            are_cells_of(cells, structures@) && match result {
                Ok(bundle) => {
                    &&& bundle.selection() == 0
                    &&& forall|k: int|
                        0 <= k < flatten::root_cells(cells).len() ==> flatten::view_of(
                            cells,
                            #[trigger] flatten::root_cells(cells)[k] as int,
                        ) is Ok
                    &&& forall|put: spec_fn(FlatModel) -> PlacedModel| #[trigger]
                        flatten::decides_outline(outline, put) ==> flatten::bundle_of(
                            bundle,
                            cells,
                            put,
                        )
                },
                Err(error) => error matches AppError::Parse(detail) && exists|
                    failure: flatten::LoadFailure,
                |
                    #[trigger] flatten::first_failure(cells, failure) && detail@
                        == flatten::failure_text(failure),
            },
{
    let cells = gds_cells(structures);
    build_scene_bundle(&cells, outline)
}

/// The width of a line before it is placed, never negative.
pub fn path_base_width(path: &GdsPath) -> (width: i32)
    ensures
        width == (match path.width {
            Some(width) => if width < 0 {
                0
            } else {
                width
            },
            None => 0,
        }),
{
    match path.width {
        Some(width) => if width < 0 {
            0
        } else {
            width
        },
        None => 0,
    }
}

/// Which copy of an array: its column and its row.
#[derive(Debug, Clone, Copy, PartialEq, Eq, Structural)]
pub struct ArrayOffset {
    pub col: u16,
    pub row: u16,
}

/// The copies of an array, row by row.
pub open spec fn array_offsets(columns: u16, rows: u16) -> Seq<ArrayOffset> {
    let cols = at_least_one(columns) as int;
    Seq::new(
        array_copies(columns, rows) as nat,
        |k: int| ArrayOffset { col: (k % cols) as u16, row: (k / cols) as u16 },
    )
}

/// The copies of an array, row by row; one at least.
pub fn array_ref_offsets(columns: u16, rows: u16) -> (offsets: Vec<ArrayOffset>)
    ensures
        offsets@ == array_offsets(columns, rows),
{
    let cols: u16 = one_or_more(columns);
    let row_count: u16 = one_or_more(rows);
    let ghost all = array_offsets(columns, rows);
    proof {
        assert(cols * row_count <= 0xffff * 0xffff) by (nonlinear_arith)
            requires
                cols <= 0xffff,
                row_count <= 0xffff,
        ;
        assert(0 * cols == 0) by (nonlinear_arith);
    }
    let mut offsets: Vec<ArrayOffset> = Vec::new();
    let mut row: u16 = 0;
    while row < row_count
        invariant
            row <= row_count,
            cols >= 1,
            cols == at_least_one(columns),
            row_count == at_least_one(rows),
            all == array_offsets(columns, rows),
            all.len() == cols * row_count,
            offsets@.len() == row * cols,
            offsets@ == all.take(row * cols),
        decreases row_count - row,
    {
        proof {
            assert((row + 1) * cols == row * cols + cols && (row + 1) * cols <= row_count * cols)
                by (nonlinear_arith)
                requires
                    row < row_count,
                    cols >= 1,
            ;
            assert(row_count * cols == cols * row_count) by (nonlinear_arith);
        }
        let mut col: u16 = 0;
        while col < cols
            invariant
                col <= cols,
                row < row_count,
                cols >= 1,
                cols == at_least_one(columns),
                row_count == at_least_one(rows),
                all == array_offsets(columns, rows),
                all.len() == cols * row_count,
                row * cols + cols <= cols * row_count,
                offsets@.len() == row * cols + col,
                offsets@ == all.take(row * cols + col),
            decreases cols - col,
        {
            let ghost k = row * cols + col;
            proof {
                vstd::arithmetic::div_mod::lemma_fundamental_div_mod_converse(
                    k,
                    cols as int,
                    row as int,
                    col as int,
                );
                assert(all[k] == (ArrayOffset { col, row }));
            }
            offsets.push(ArrayOffset { col, row });
            assert(offsets@ =~= all.take(row * cols + col + 1));
            col += 1;
        }
        row += 1;
    }
    proof {
        assert(row_count * cols == cols * row_count) by (nonlinear_arith);
        assert(all.take(cols * row_count) =~= all);
    }
    offsets
}

/// One copy of an array.
pub fn array_offset_of_copy(columns: u16, rows: u16, copy: u64) -> (offset: ArrayOffset)
    requires
        copy < array_copies(columns, rows),
    ensures
        offset == array_offsets(columns, rows)[copy as int],
{
    let cols: u64 = one_or_more(columns) as u64;
    proof {
        let rows = at_least_one(rows) as int;
        assert(cols * rows <= 0xffff * 0xffff) by (nonlinear_arith)
            requires
                cols <= 0xffff,
                0 <= rows <= 0xffff,
        ;
        assert(copy / cols < 0x1_0000) by (nonlinear_arith)
            requires
                copy < cols * rows,
                0 < cols,
                rows <= 0xffff,
        ;
        assert(copy % cols < cols);
    }
    ArrayOffset { col: (copy % cols) as u16, row: (copy / cols) as u16 }
}

/// Where an array starts and how far it reaches: the ends of its columns and of its rows, each
/// with the number of steps that it is divided into. There is no end where there is no step.
#[derive(Debug, Clone, Copy, PartialEq, Eq)]
pub struct ArrayReach {
    pub origin: (i32, i32),
    pub columns: Option<((i32, i32), u16)>,
    pub rows: Option<((i32, i32), u16)>,
}

/// Where an array starts and how far it reaches.
pub open spec fn reach_of(xy: Seq<(i32, i32)>, columns: u16, rows: u16) -> ArrayReach {
    ArrayReach {
        origin: if xy.len() > 0 {
            xy[0]
        } else {
            (0, 0)
        },
        columns: if xy.len() >= 2 && columns > 1 {
            Some((xy[1], columns))
        } else {
            None
        },
        rows: if xy.len() >= 3 && rows > 1 {
            Some((xy[2], rows))
        } else {
            None
        },
    }
}

/// Where an array starts and how far it reaches.
pub fn array_reach(aref: &GdsArrayRef) -> (reach: ArrayReach)
    ensures
        reach == reach_of(aref.xy@, aref.columns, aref.rows),
{
    ArrayReach {
        origin: if aref.xy.len() > 0 {
            aref.xy[0]
        } else {
            (0, 0)
        },
        columns: if aref.xy.len() >= 2 && aref.columns > 1 {
            Some((aref.xy[1], aref.columns))
        } else {
            None
        },
        rows: if aref.xy.len() >= 3 && aref.rows > 1 {
            Some((aref.xy[2], aref.rows))
        } else {
            None
        },
    }
}

} // verus!
