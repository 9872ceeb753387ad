//! What holds of the elements of files: where they end up, and how often.

use crate::io::flatten;
use crate::io::flatten::{CopyStep, FlatModel, SourceCell, SourceItem};
use crate::io::gds;
use crate::io::gds::{ArrayOffset, GdsElement, GdsPath, GdsStructure};
use crate::io::oasis;
use crate::io::oasis::{CopyOffset, OasisCell, OasisElement, OasisRepetition};
use crate::io::view_laws;
use crate::scene::{LayerId, PlacedModel, SceneBundle};
use vstd::prelude::*;

verus! {

/// How far a copy is from the thing itself, along both axes.
pub open spec fn displacement(offset: CopyOffset) -> (int, int) {
    (offset.col * offset.x_step, offset.row * offset.y_step)
}

/// A number of places, one at least.
pub open spec fn places(n: int) -> int {
    if n < 1 {
        1
    } else {
        n
    }
}

/// A place in rows and columns is that of one number, counting row by row, and of no other.
proof fn lemma_row_by_row(cols: int, rows: int, k: int, col: int, row: int)
    requires
        cols >= 1,
        rows >= 1,
    ensures
        0 <= k < cols * rows ==> 0 <= k % cols < cols && 0 <= k / cols < rows && k == (k / cols)
            * cols + k % cols,
        0 <= col < cols && 0 <= row < rows ==> 0 <= row * cols + col < cols * rows && (row * cols
            + col) % cols == col && (row * cols + col) / cols == row,
{
    if 0 <= k < cols * rows {
        vstd::arithmetic::div_mod::lemma_fundamental_div_mod(k, cols);
        let q = k / cols;
        let m = k % cols;
        assert(q * cols == cols * q) by (nonlinear_arith);
        assert(0 <= q < rows) by (nonlinear_arith)
            requires
                k == cols * q + m,
                0 <= m < cols,
                0 <= k < cols * rows,
                cols >= 1,
        ;
    }
    if 0 <= col < cols && 0 <= row < rows {
        let x = row * cols + col;
        vstd::arithmetic::div_mod::lemma_fundamental_div_mod_converse(x, cols, row, col);
        assert(0 <= x < cols * rows) by (nonlinear_arith)
            requires
                x == row * cols + col,
                0 <= col < cols,
                0 <= row < rows,
        ;
    }
}

/// The copies of a matrix cover it: there is one copy for each column and each row, counted row by
/// row, and it is as many steps away.
pub proof fn law_matrix_is_covered(
    repetition: Option<OasisRepetition>,
    x_count: u32,
    y_count: u32,
    x_space: u64,
    y_space: u64,
    j: int,
    k: int,
    col: int,
    row: int,
)
    requires
        repetition == Some(OasisRepetition::Matrix { x_count, y_count, x_space, y_space }),
    ensures
        ({
            let cols = places(x_count as int);
            let rows = places(y_count as int);
            let at = row * cols + col;
            let a = oasis::copy_offset(repetition, j);
            let b = oasis::copy_offset(repetition, k);
            &&& oasis::copy_count(repetition) is Some
            &&& oasis::copy_count(repetition)->0 == cols * rows
            &&& 0 <= col < cols && 0 <= row < rows ==> {
                &&& 0 <= at < cols * rows
                &&& oasis::copy_offset(repetition, at).col == col
                &&& oasis::copy_offset(repetition, at).row == row
                &&& displacement(oasis::copy_offset(repetition, at)) == (
                    col * x_space,
                    row * y_space,
                )
            }
            &&& 0 <= k < cols * rows ==> b.col < cols && b.row < rows && displacement(b) == (
                b.col * x_space,
                b.row * y_space,
            )
            &&& 0 <= j < k < cols * rows ==> a.row < b.row || (a.row == b.row && a.col < b.col)
        }),
{
    let cols = places(x_count as int);
    let rows = places(y_count as int);
    assert(0 <= cols * rows <= 0xffff_ffff * 0xffff_ffff) by (nonlinear_arith)
        requires
            1 <= cols <= 0xffff_ffff,
            1 <= rows <= 0xffff_ffff,
    ;
    lemma_row_by_row(cols, rows, k, col, row);
    lemma_row_by_row(cols, rows, j, 0, 0);
    if 0 <= j < k < cols * rows {
        let x = j / cols;
        let y = k / cols;
        assert(x <= y) by (nonlinear_arith)
            requires
                j == x * cols + j % cols,
                k == y * cols + k % cols,
                0 <= j % cols < cols,
                0 <= k % cols < cols,
                j < k,
        ;
    }
}

/// The copies of a grid stand in one row, one step apart, beginning with the thing itself.
pub proof fn law_grid_goes_along_one_axis(
    repetition: Option<OasisRepetition>,
    count: u32,
    grid_space: u64,
    k: int,
)
    requires
        repetition == Some(OasisRepetition::Grid { count, grid_space }),
        0 <= k < places(count as int),
    ensures
        oasis::copy_count(repetition) matches Some(n) && n == places(count as int),
        displacement(oasis::copy_offset(repetition, k)) == (k * grid_space, 0int),
{
}

/// The copies at listed places stand there, one for each entry of the longer list; where the
/// shorter list has ended, the copy is not moved along that axis.
pub proof fn law_listed_places_are_taken(
    repetition: Option<OasisRepetition>,
    x_displacements: Vec<i64>,
    y_displacements: Vec<i64>,
    k: int,
)
    requires
        repetition == Some(OasisRepetition::Arbitrary { x_displacements, y_displacements }),
        x_displacements@.len() <= u64::MAX,
        y_displacements@.len() <= u64::MAX,
        0 <= k,
    ensures
        ({
            let xs = x_displacements@;
            let ys = y_displacements@;
            let (dx, dy) = displacement(oasis::copy_offset(repetition, k));
            &&& oasis::copy_count(repetition) matches Some(n) && n >= 1 && n >= xs.len() && n
                >= ys.len() && (n == 1 || n == xs.len() || n == ys.len())
            &&& k < xs.len() ==> dx == xs[k]
            &&& k >= xs.len() ==> dx == 0
            &&& k < ys.len() ==> dy == ys[k]
            &&& k >= ys.len() ==> dy == 0
        }),
{
}

/// A thing that is not repeated is there once, where it is; one that is repeated as the thing
/// before cannot be told.
pub proof fn law_single_things_are_there_once(k: int)
    ensures
        oasis::copy_count(None) == Some(1u64),
        displacement(oasis::copy_offset(None, k)) == (0int, 0int),
        oasis::copy_count(Some(OasisRepetition::ReusePrevious)) is None,
{
}

/// The copies of an array cover it: there is one for each column and each row, counted row by row.
pub proof fn law_array_is_covered(columns: u16, rows: u16, j: int, k: int, col: int, row: int)
    ensures
        ({
            let offsets = gds::array_offsets(columns, rows);
            let c = places(columns as int);
            let r = places(rows as int);
            &&& offsets.len() == c * r
            &&& gds::array_copies(columns, rows) == c * r
            &&& 0 <= col < c && 0 <= row < r ==> 0 <= row * c + col < c * r && offsets[row * c
                + col] == (ArrayOffset { col: col as u16, row: row as u16 })
            &&& 0 <= k < c * r ==> offsets[k].col < c && offsets[k].row < r
            &&& 0 <= j < k < c * r ==> offsets[j].row < offsets[k].row || (offsets[j].row
                == offsets[k].row && offsets[j].col < offsets[k].col)
        }),
{
    let c = places(columns as int);
    let r = places(rows as int);
    assert(0 <= c * r <= 0xffff * 0xffff) by (nonlinear_arith)
        requires
            1 <= c <= 0xffff,
            1 <= r <= 0xffff,
    ;
    lemma_row_by_row(c, r, k, col, row);
    lemma_row_by_row(c, r, j, 0, 0);
    if 0 <= j < k < c * r {
        let x = j / c;
        let y = k / c;
        assert(x <= y) by (nonlinear_arith)
            requires
                j == x * c + j % c,
                k == y * c + k % c,
                0 <= j % c < c,
                0 <= k % c < c,
                j < k,
        ;
    }
}

/// An array starts at its first point; it reaches along its columns to the second point, and along
/// its rows to the third, where it has more than one of them.
pub proof fn law_array_reaches_to_its_points(xy: Seq<(i32, i32)>, columns: u16, rows: u16)
    ensures
        ({
            let reach = gds::reach_of(xy, columns, rows);
            &&& reach.origin == (if xy.len() == 0 {
                (0i32, 0i32)
            } else {
                xy[0]
            })
            &&& reach.columns is Some <==> xy.len() >= 2 && columns >= 2
            &&& reach.rows is Some <==> xy.len() >= 3 && rows >= 2
            &&& reach.columns matches Some((end, count)) ==> end == xy[1] && count == columns
            &&& reach.rows matches Some((end, count)) ==> end == xy[2] && count == rows
        }),
{
}

/// How often something is there, by how it is repeated; none where that cannot be told.
pub open spec fn times(repetition: Option<OasisRepetition>) -> Option<int> {
    match repetition {
        None => Some(1),
        Some(OasisRepetition::ReusePrevious) => None,
        Some(OasisRepetition::Matrix { x_count, y_count, .. }) => Some(
            places(x_count as int) * places(y_count as int),
        ),
        Some(OasisRepetition::Arbitrary { x_displacements, y_displacements }) => Some(
            places(
                if x_displacements@.len() < y_displacements@.len() {
                    y_displacements@.len() as int
                } else {
                    x_displacements@.len() as int
                },
            ),
        ),
        Some(OasisRepetition::Grid { count, .. }) => Some(places(count as int)),
    }
}

proof fn lemma_times(repetition: Option<OasisRepetition>)
    requires
        repetition matches Some(
            OasisRepetition::Arbitrary { x_displacements, y_displacements },
        ) ==> x_displacements@.len() <= u64::MAX && y_displacements@.len() <= u64::MAX,
    ensures
        match (times(repetition), oasis::copy_count(repetition)) {
            (Some(n), Some(copies)) => n == copies,
            (None, None) => true,
            _ => false,
        },
{
    if let Some(OasisRepetition::Matrix { x_count, y_count, .. }) = repetition {
        let c = places(x_count as int);
        let r = places(y_count as int);
        assert(0 <= c * r <= 0xffff_ffff * 0xffff_ffff) by (nonlinear_arith)
            requires
                1 <= c <= 0xffff_ffff,
                1 <= r <= 0xffff_ffff,
        ;
    }
}

/// Whether so many copies are this many.
pub open spec fn is_count(copies: Option<u64>, n: Option<int>) -> bool {
    match (copies, n) {
        (Some(copies), Some(n)) => copies == n,
        (None, None) => true,
        _ => false,
    }
}

/// Whether an item is a drawn outline on a layer with these numbers.
pub open spec fn is_outline(
    item: SourceItem,
    layer: int,
    datatype: int,
    is_closed: bool,
    drawn: bool,
    n: Option<int>,
) -> bool {
    item matches SourceItem::Shape { layer: on, closed, has_points, copies } && on.layer == layer
        && on.datatype == datatype && closed == is_closed && has_points == drawn && is_count(
        copies,
        n,
    )
}

/// Whether an item refers to a cell of the name.
pub open spec fn is_reference(item: SourceItem, name: Seq<char>, n: Option<int>) -> bool {
    item matches SourceItem::Reference { target, copies } && target@ == name && is_count(copies, n)
}

/// Whether the lists of displacements can be counted.
pub open spec fn is_countable(repetition: Option<OasisRepetition>) -> bool {
    repetition matches Some(
        OasisRepetition::Arbitrary { x_displacements, y_displacements },
    ) ==> x_displacements@.len() <= u64::MAX && y_displacements@.len() <= u64::MAX
}

/// How an element is repeated.
pub open spec fn repetition_of(element: OasisElement) -> Option<OasisRepetition> {
    match element {
        OasisElement::Rectangle(r) => r.repetition,
        OasisElement::Polygon(p) => p.repetition,
        OasisElement::Path(p) => p.repetition,
        OasisElement::Placement(p) => p.repetition,
        OasisElement::Other => None,
    }
}

/// Whether an item is what an element of an OASIS file is: rectangles and polygons are closed
/// outlines on the layer with their numbers, paths open ones, and placements refer to the cell they
/// name; each is there as often as it is repeated.
pub open spec fn is_oasis_item(item: SourceItem, element: OasisElement) -> bool {
    match element {
        OasisElement::Rectangle(r) => is_outline(
            item,
            r.layer as int,
            r.datatype as int,
            true,
            true,
            times(r.repetition),
        ),
        OasisElement::Polygon(p) => is_outline(
            item,
            p.layer as int,
            p.datatype as int,
            true,
            p.points@.len() > 0,
            times(p.repetition),
        ),
        OasisElement::Path(p) => is_outline(
            item,
            p.layer as int,
            p.datatype as int,
            false,
            p.points@.len() > 0,
            times(p.repetition),
        ),
        OasisElement::Placement(p) => is_reference(item, p.cell_name@, times(p.repetition)),
        OasisElement::Other => item is Other,
    }
}

/// The cells that views are unfolded from are those of the file, with their names, and their items
/// are the elements of the file, one for one.
pub proof fn law_oasis_cells(cells: Seq<SourceCell>, sources: Seq<OasisCell>, c: int, i: int)
    requires
        oasis::are_cells_of(cells, sources),
        0 <= c < sources.len(),
    ensures
        cells.len() == sources.len(),
        cells[c].name@ == sources[c].name@,
        cells[c].items@.len() == sources[c].elements@.len(),
        0 <= i < sources[c].elements@.len() && is_countable(
            repetition_of(sources[c].elements@[i]),
        ) ==> is_oasis_item(cells[c].items@[i], sources[c].elements@[i]),
{
    assert(cells[c].name@ == sources[c].name@);
    if 0 <= i < sources[c].elements@.len() && is_countable(repetition_of(sources[c].elements@[i])) {
        let element = sources[c].elements@[i];
        assert(cells[c].items@[i]@ == oasis::item_of(element));
        lemma_times(repetition_of(element));
    }
}

/// Every shape of a view of an OASIS file is on the layer with the numbers of the element that its
/// place names: rectangles and polygons closed, paths open, and nothing else.
pub proof fn law_oasis_shapes_keep_their_layer(
    cells: Seq<SourceCell>,
    sources: Seq<OasisCell>,
    root: int,
    shape: FlatModel,
)
    requires
        oasis::are_cells_of(cells, sources),
        cells.len() <= usize::MAX,
        forall|c: int| 0 <= c < cells.len() ==> (#[trigger] cells[c]).items@.len() <= usize::MAX,
        0 <= root < cells.len(),
        flatten::view_of(cells, root) is Ok,
        flatten::view_of(cells, root)->Ok_0.contains(shape),
    ensures
        shape.place.cell < sources.len(),
        shape.place.item < sources[shape.place.cell as int].elements@.len(),
        match sources[shape.place.cell as int].elements@[shape.place.item as int] {
            OasisElement::Rectangle(r) => shape.layer.layer == r.layer && shape.layer.datatype
                == r.datatype && shape.closed,
            OasisElement::Polygon(p) => shape.layer.layer == p.layer && shape.layer.datatype
                == p.datatype && shape.closed && p.points@.len() > 0,
            OasisElement::Path(p) => shape.layer.layer == p.layer && shape.layer.datatype
                == p.datatype && !shape.closed && p.points@.len() > 0,
            _ => false,
        },
{
    view_laws::law_views_show_every_copy(cells, root);
    let c = shape.place.cell as int;
    let i = shape.place.item as int;
    assert(cells[c].name@ == sources[c].name@);
    assert(cells[c].items@[i]@ == oasis::item_of(sources[c].elements@[i]));
}

/// Every copy of every drawn element of an OASIS file that a path of references leads to is shown
/// by the view.
pub proof fn law_oasis_elements_are_shown(
    cells: Seq<SourceCell>,
    sources: Seq<OasisCell>,
    root: int,
    path: Seq<CopyStep>,
    place: CopyStep,
)
    requires
        oasis::are_cells_of(cells, sources),
        cells.len() <= usize::MAX,
        forall|c: int| 0 <= c < cells.len() ==> (#[trigger] cells[c]).items@.len() <= usize::MAX,
        0 <= root < cells.len(),
        flatten::view_of(cells, root) is Ok,
        view_laws::leads(cells, root, path, place.cell as int),
        place.cell < sources.len(),
        place.item < sources[place.cell as int].elements@.len(),
        is_countable(repetition_of(sources[place.cell as int].elements@[place.item as int])),
        match sources[place.cell as int].elements@[place.item as int] {
            OasisElement::Rectangle(r) => true,
            OasisElement::Polygon(p) => p.points@.len() > 0,
            OasisElement::Path(p) => p.points@.len() > 0,
            _ => false,
        },
        times(
            repetition_of(sources[place.cell as int].elements@[place.item as int]),
        ) matches Some(n) && place.copy < n,
    ensures
        exists|shape: FlatModel| #[trigger]
            flatten::view_of(cells, root)->Ok_0.contains(shape) && shape.path == path
                && shape.place == place && shape.hierarchy_level == path.len() as u32,
{
    let c = place.cell as int;
    let i = place.item as int;
    law_oasis_cells(cells, sources, c, i);
    view_laws::law_views_show_every_copy(cells, root);
    let (layer, closed) = match cells[c].items@[i] {
        SourceItem::Shape { layer, closed, has_points, copies } => (layer, closed),
        _ => (LayerId { layer: 0, datatype: 0 }, false),
    };
    let shape = FlatModel { path, place, layer, closed, hierarchy_level: path.len() as u32 };
    assert(view_laws::is_outline_copy(cells, shape));
    assert(flatten::view_of(cells, root)->Ok_0.contains(shape));
}

/// The number of a layer, as it is counted in a file: negative ones count on from the top.
pub open spec fn layer_number(n: i16) -> int {
    if n < 0 {
        n + 0x1_0000_0000
    } else {
        n as int
    }
}

/// Whether an item is what an element of a GDSII file is: boundaries and boxes are closed outlines
/// on the layer with their numbers, paths open ones, and references are to the structure they
/// name; an array refers to it once for each column and row.
pub open spec fn is_gds_item(item: SourceItem, element: GdsElement) -> bool {
    match element {
        GdsElement::Boundary(o) => is_outline(
            item,
            layer_number(o.layer),
            layer_number(o.datatype),
            true,
            o.xy@.len() > 0,
            Some(1),
        ),
        GdsElement::Box(o) => is_outline(
            item,
            layer_number(o.layer),
            layer_number(o.datatype),
            true,
            o.xy@.len() > 0,
            Some(1),
        ),
        GdsElement::Path(p) => is_outline(
            item,
            layer_number(p.layer),
            layer_number(p.datatype),
            false,
            p.xy@.len() > 0,
            Some(1),
        ),
        GdsElement::StructRef(s) => is_reference(item, s.sname@, Some(1)),
        GdsElement::ArrayRef(a) => is_reference(
            item,
            a.sname@,
            Some(places(a.columns as int) * places(a.rows as int)),
        ),
        GdsElement::Other => item is Other,
    }
}

pub proof fn lemma_layer_number(n: i16)
    ensures
        n as u32 == layer_number(n),
{
    assert(n < 0 ==> n as u32 == n + 0x1_0000_0000) by (bit_vector);
    assert(n >= 0 ==> n as u32 == n) by (bit_vector);
}

/// The cells that views are unfolded from are the structures of the file, with their names, and
/// their items are the elements of the file, one for one.
pub proof fn law_gds_cells(cells: Seq<SourceCell>, structures: Seq<GdsStructure>, c: int, i: int)
    requires
        gds::are_cells_of(cells, structures),
        0 <= c < structures.len(),
    ensures
        cells.len() == structures.len(),
        cells[c].name@ == structures[c].name@,
        cells[c].items@.len() == structures[c].elements@.len(),
        0 <= i < structures[c].elements@.len() ==> is_gds_item(
            cells[c].items@[i],
            structures[c].elements@[i],
        ),
{
    assert(cells[c].name@ == structures[c].name@);
    if 0 <= i < structures[c].elements@.len() {
        let element = structures[c].elements@[i];
        assert(cells[c].items@[i]@ == gds::item_of(element));
        match element {
            GdsElement::Boundary(o) => {
                lemma_layer_number(o.layer);
                lemma_layer_number(o.datatype);
            },
            GdsElement::Box(o) => {
                lemma_layer_number(o.layer);
                lemma_layer_number(o.datatype);
            },
            GdsElement::Path(p) => {
                lemma_layer_number(p.layer);
                lemma_layer_number(p.datatype);
            },
            GdsElement::ArrayRef(a) => {
                law_array_is_covered(a.columns, a.rows, 0, 0, 0, 0);
            },
            _ => {},
        }
    }
}

/// Every shape of a view of a GDSII file is on the layer with the numbers of the element that its
/// place names: boundaries and boxes closed, paths open, and nothing else.
pub proof fn law_gds_shapes_keep_their_layer(
    cells: Seq<SourceCell>,
    structures: Seq<GdsStructure>,
    root: int,
    shape: FlatModel,
)
    requires
        gds::are_cells_of(cells, structures),
        cells.len() <= usize::MAX,
        forall|c: int| 0 <= c < cells.len() ==> (#[trigger] cells[c]).items@.len() <= usize::MAX,
        0 <= root < cells.len(),
        flatten::view_of(cells, root) is Ok,
        flatten::view_of(cells, root)->Ok_0.contains(shape),
    ensures
        shape.place.cell < structures.len(),
        shape.place.item < structures[shape.place.cell as int].elements@.len(),
        match structures[shape.place.cell as int].elements@[shape.place.item as int] {
            GdsElement::Boundary(o) => shape.layer.layer == layer_number(o.layer)
                && shape.layer.datatype == layer_number(o.datatype) && shape.closed && o.xy@.len()
                > 0,
            GdsElement::Box(o) => shape.layer.layer == layer_number(o.layer)
                && shape.layer.datatype == layer_number(o.datatype) && shape.closed && o.xy@.len()
                > 0,
            GdsElement::Path(p) => shape.layer.layer == layer_number(p.layer)
                && shape.layer.datatype == layer_number(p.datatype) && !shape.closed && p.xy@.len()
                > 0,
            _ => false,
        },
{
    view_laws::law_views_show_every_copy(cells, root);
    let c = shape.place.cell as int;
    let i = shape.place.item as int;
    assert(cells[c].name@ == structures[c].name@);
    assert(cells[c].items@[i]@ == gds::item_of(structures[c].elements@[i]));
    law_gds_cells(cells, structures, c, i);
}

/// The scenes of a file are its views: one for each cell that views start from, called like it,
/// with the shapes of the view one for one, on their layers and levels and where they are put.
pub proof fn law_scenes_are_the_views(
    bundle: SceneBundle,
    cells: Seq<SourceCell>,
    put: spec_fn(FlatModel) -> PlacedModel,
    k: int,
    j: int,
)
    requires
        flatten::bundle_of(bundle, cells, put),
        0 <= k < flatten::root_cells(cells).len(),
    ensures
        bundle.listed().len() == flatten::root_cells(cells).len(),
        ({
            let root = flatten::root_cells(cells)[k] as int;
            let scene = bundle.listed()[k].scene@;
            &&& bundle.listed()[k].name@ == cells[root].name@
            &&& flatten::view_of(cells, root) matches Ok(shapes) && scene.len() == shapes.len() && (
            0 <= j < shapes.len() ==> {
                &&& scene[j].layer == shapes[j].layer
                &&& scene[j].closed == shapes[j].closed
                &&& scene[j].hierarchy_level == shapes[j].hierarchy_level
                &&& scene[j].points == put(shapes[j]).points
                &&& scene[j].bounds == put(shapes[j]).bounds
                &&& scene[j].stroke_width_world == put(shapes[j]).stroke_width_world
            })
        }),
{
    assert(bundle.listed()[k].name@ == cells[flatten::root_cells(cells)[k] as int].name@);
}

/// A line has the width that it is given, but none below nought, and none where it is given none.
pub proof fn law_widths_are_not_negative(path: &GdsPath, width: i32)
    requires
        call_ensures(gds::path_base_width, (path,), width),
    ensures
        width >= 0,
        path.width matches Some(given) && given >= 0 ==> width == path.width->0,
        path.width matches Some(given) && given < 0 ==> width == 0,
        path.width is None ==> width == 0,
{
}

} // verus!
