//! Unfolding the cells of a file into flat views.
//!
//! Which shapes a view has, in what order and on what level, is decided here. Where a shape ends
//! up is left to the caller, who follows the path of references that leads to it.

use crate::error::{joined, AppError};
use crate::scene;
use crate::scene::{
    LayerId, PlacedModel, PlacedOutline, RectShape, Scene, SceneBundle, SceneView,
};
use crate::seqs;
use std::sync::Arc;
use vstd::prelude::*;

verus! {

/// One thing that a cell holds.
#[derive(Debug)]
pub enum SourceItem {
    /// An outline. `copies` is none where the way of repeating it is not known.
    Shape { layer: LayerId, closed: bool, has_points: bool, copies: Option<u64> },
    /// Another cell. `copies` is none where the way of repeating it is not known.
    Reference { target: String, copies: Option<u64> },
    /// Something that is not drawn.
    Other,
}

/// A cell of a file.
#[derive(Debug)]
pub struct SourceCell {
    pub name: String,
    pub items: Vec<SourceItem>,
}

/// One step down: through one copy of one item of a cell.
#[derive(Debug, Clone, Copy, PartialEq, Eq, Structural)]
pub struct CopyStep {
    pub cell: usize,
    pub item: usize,
    pub copy: u64,
}

/// A shape of a flat view.
#[derive(Debug)]
pub struct FlatShape {
    /// The references that lead from the start of the view to the cell of the shape.
    pub path: Vec<CopyStep>,
    /// The cell and the item that the shape is, and which copy of it.
    pub place: CopyStep,
    pub layer: LayerId,
    pub closed: bool,
    pub hierarchy_level: u32,
}

/// What a shape of a flat view is, apart from how it is stored.
#[verifier::ext_equal]
pub struct FlatModel {
    pub path: Seq<CopyStep>,
    pub place: CopyStep,
    pub layer: LayerId,
    pub closed: bool,
    pub hierarchy_level: u32,
}

impl View for FlatShape {
    type V = FlatModel;

    open spec fn view(&self) -> FlatModel {
        FlatModel {
            path: self.path@,
            place: self.place,
            layer: self.layer,
            closed: self.closed,
            hierarchy_level: self.hierarchy_level,
        }
    }
}

/// What the shapes of a list are.
pub open spec fn flat_models(shapes: Seq<FlatShape>) -> Seq<FlatModel> {
    shapes.map_values(|shape: FlatShape| shape@)
}

/// Why a view cannot be unfolded.
#[derive(Debug)]
pub enum LoadError {
    /// A cell is referred to that is not there.
    MissingCell(String),
    /// A cell contains itself.
    CyclicReference(String),
    /// The way of repeating something is not known.
    UnsupportedRepetition,
}

/// Why a view cannot be unfolded, apart from how it is stored.
pub enum LoadFailure {
    MissingCell(Seq<char>),
    CyclicReference(Seq<char>),
    UnsupportedRepetition,
}

impl View for LoadError {
    type V = LoadFailure;

    open spec fn view(&self) -> LoadFailure {
        match self {
            LoadError::MissingCell(name) => LoadFailure::MissingCell(name@),
            LoadError::CyclicReference(name) => LoadFailure::CyclicReference(name@),
            LoadError::UnsupportedRepetition => LoadFailure::UnsupportedRepetition,
        }
    }
}

/// What is said about the failure.
pub open spec fn failure_text(failure: LoadFailure) -> Seq<char> {
    match failure {
        LoadFailure::MissingCell(name) => "missing referenced cell: "@ + name,
        LoadFailure::CyclicReference(name) => "cyclic cell reference detected at "@ + name,
        LoadFailure::UnsupportedRepetition =>
            "OASIS ReusePrevious repetition is not supported yet"@,
    }
}

impl LoadError {
    /// The error that is reported.
    pub fn into_app_error(self) -> (error: AppError)
        ensures
            error matches AppError::Parse(detail) && detail@ == failure_text(self@),
    {
        match self {
            LoadError::MissingCell(name) => AppError::Parse(
                joined("missing referenced cell: ", name.as_str()),
            ),
            LoadError::CyclicReference(name) => AppError::Parse(
                joined("cyclic cell reference detected at ", name.as_str()),
            ),
            LoadError::UnsupportedRepetition => AppError::Parse(
                String::from_str("OASIS ReusePrevious repetition is not supported yet"),
            ),
        }
    }
}

/// The last of the first `count` cells with the name.
pub open spec fn resolve(cells: Seq<SourceCell>, name: Seq<char>, count: nat) -> Option<int>
    decreases count,
{
    if count == 0 {
        None
    } else if cells[count - 1].name@ == name {
        Some(count - 1)
    } else {
        resolve(cells, name, (count - 1) as nat)
    }
}

/// How many of the first `count` cells are not being unfolded.
pub open spec fn unentered(cells: Seq<SourceCell>, stack: Seq<Seq<char>>, count: nat) -> nat
    decreases count,
{
    if count == 0 {
        0
    } else {
        unentered(cells, stack, (count - 1) as nat) + (if stack.contains(cells[count - 1].name@) {
            0nat
        } else {
            1nat
        })
    }
}

pub proof fn lemma_resolve(cells: Seq<SourceCell>, name: Seq<char>, count: nat)
    requires
        count <= cells.len(),
    ensures
        resolve(cells, name, count) matches Some(k) ==> 0 <= k < count && cells[k].name@ == name,
        resolve(cells, name, count) is None ==> forall|k: int|
            0 <= k < count ==> (#[trigger] cells[k]).name@ != name,
    decreases count,
{
    if count > 0 {
        lemma_resolve(cells, name, (count - 1) as nat);
    }
}

pub proof fn lemma_unentered(
    cells: Seq<SourceCell>,
    stack: Seq<Seq<char>>,
    name: Seq<char>,
    count: nat,
    k: int,
)
    requires
        !stack.contains(name),
    ensures
        unentered(cells, stack.push(name), count) <= unentered(cells, stack, count),
        0 <= k < count && cells[k].name@ == name ==> unentered(cells, stack.push(name), count)
            < unentered(cells, stack, count),
    decreases count,
{
    if count > 0 {
        lemma_unentered(cells, stack, name, (count - 1) as nat, k);
        seqs::lemma_push_contains(stack, name, cells[count - 1].name@);
    }
}

/// The copies of an outline.
pub open spec fn outline_copies(
    path: Seq<CopyStep>,
    cell: int,
    item: int,
    layer: LayerId,
    closed: bool,
    copies: u64,
) -> Seq<FlatModel> {
    Seq::new(
        copies as nat,
        |k: int|
            FlatModel {
                path,
                place: CopyStep { cell: cell as usize, item: item as usize, copy: k as u64 },
                layer,
                closed,
                hierarchy_level: path.len() as u32,
            },
    )
}

/// The shapes that the first `count` items of a cell make, in order; the first failure where there
/// is one. `stack` holds the names of the cells that are being unfolded, `path` the references
/// that led here.
pub open spec fn cell_shapes(
    cells: Seq<SourceCell>,
    cell: int,
    stack: Seq<Seq<char>>,
    path: Seq<CopyStep>,
    count: nat,
) -> Result<Seq<FlatModel>, LoadFailure>
    decreases unentered(cells, stack, cells.len()), 0int, count,
{
    if count == 0 {
        Ok(Seq::empty())
    } else {
        match cell_shapes(cells, cell, stack, path, (count - 1) as nat) {
            Err(failure) => Err(failure),
            Ok(before) => match item_shapes(cells, cell, (count - 1) as nat, stack, path) {
                Err(failure) => Err(failure),
                Ok(more) => Ok(before + more),
            },
        }
    }
}

/// The shapes that an item of a cell makes. A reference to a missing cell fails, then one to a cell
/// that is being unfolded, then an unknown way of repeating.
pub open spec fn item_shapes(
    cells: Seq<SourceCell>,
    cell: int,
    item: nat,
    stack: Seq<Seq<char>>,
    path: Seq<CopyStep>,
) -> Result<Seq<FlatModel>, LoadFailure>
    decreases unentered(cells, stack, cells.len()), 0int, item,
{
    match cells[cell].items@[item as int] {
        SourceItem::Shape { layer, closed, has_points, copies } => match copies {
            None => Err(LoadFailure::UnsupportedRepetition),
            Some(copies) => if has_points {
                Ok(outline_copies(path, cell, item as int, layer, closed, copies))
            } else {
                Ok(Seq::empty())
            },
        },
        SourceItem::Reference { target, copies } => match resolve(cells, target@, cells.len()) {
            None => Err(LoadFailure::MissingCell(target@)),
            Some(child) => if stack.contains(target@) {
                Err(LoadFailure::CyclicReference(target@))
            } else {
                match copies {
                    None => Err(LoadFailure::UnsupportedRepetition),
                    Some(copies) => {
                        proof {
                            lemma_resolve(cells, target@, cells.len());
                            lemma_unentered(cells, stack, target@, cells.len(), child);
                        }
                        copies_shapes(
                            cells,
                            cell,
                            item as int,
                            child,
                            stack.push(target@),
                            path,
                            copies as nat,
                        )
                    },
                }
            },
        },
        SourceItem::Other => Ok(Seq::empty()),
    }
}

/// The shapes that the first `count` copies of a reference make.
pub open spec fn copies_shapes(
    cells: Seq<SourceCell>,
    cell: int,
    item: int,
    child: int,
    stack: Seq<Seq<char>>,
    path: Seq<CopyStep>,
    count: nat,
) -> Result<Seq<FlatModel>, LoadFailure>
    decreases unentered(cells, stack, cells.len()), 1int, count,
{
    if count == 0 {
        Ok(Seq::empty())
    } else {
        match copies_shapes(cells, cell, item, child, stack, path, (count - 1) as nat) {
            Err(failure) => Err(failure),
            Ok(before) => match cell_shapes(
                cells,
                child,
                stack,
                path.push(
                    CopyStep {
                        cell: cell as usize,
                        item: item as usize,
                        copy: (count - 1) as u64,
                    },
                ),
                cells[child].items@.len(),
            ) {
                Err(failure) => Err(failure),
                Ok(more) => Ok(before + more),
            },
        }
    }
}

/// The names of these cells.
pub open spec fn names_of(cells: Seq<SourceCell>, stack: Seq<usize>) -> Seq<Seq<char>> {
    stack.map_values(|k: usize| cells[k as int].name@)
}

/// Whether these are places of cells.
pub open spec fn are_cells(cells: Seq<SourceCell>, stack: Seq<usize>) -> bool {
    forall|k: int| 0 <= k < stack.len() ==> (#[trigger] stack[k]) < cells.len()
}

/// The last cell with the name.
pub fn find_cell(cells: &[SourceCell], name: &String) -> (found: Option<usize>)
    ensures
        match found {
            Some(k) => resolve(cells@, name@, cells@.len()) == Some(k as int) && k < cells@.len()
                && cells@[k as int].name@ == name@,
            None => resolve(cells@, name@, cells@.len()) is None,
        },
{
    let mut i: usize = cells.len();
    while i > 0
        invariant
            i <= cells@.len(),
            resolve(cells@, name@, cells@.len()) == resolve(cells@, name@, i as nat),
        decreases i,
    {
        if cells[i - 1].name == *name {
            return Some(i - 1);
        }
        i -= 1;
    }
    None
}

/// Whether a cell of the name is being unfolded.
fn is_entered(cells: &[SourceCell], stack: &Vec<usize>, name: &String) -> (entered: bool)
    requires
        are_cells(cells@, stack@),
    ensures
        entered == names_of(cells@, stack@).contains(name@),
{
    let mut i: usize = 0;
    while i < stack.len()
        invariant
            i <= stack@.len(),
            are_cells(cells@, stack@),
            forall|k: int| 0 <= k < i ==> names_of(cells@, stack@)[k] != name@,
        decreases stack@.len() - i,
    {
        if cells[stack[i]].name == *name {
            assert(names_of(cells@, stack@)[i as int] == name@);
            return true;
        }
        i += 1;
    }
    false
}

/// A path of its own, step by step the same.
fn copy_path(path: &Vec<CopyStep>) -> (copy: Vec<CopyStep>)
    ensures
        copy@ == path@,
{
    let mut copy: Vec<CopyStep> = Vec::new();
    let mut i: usize = 0;
    while i < path.len()
        invariant
            i <= path@.len(),
            copy@ == path@.take(i as int),
        decreases path@.len() - i,
    {
        copy.push(path[i]);
        assert(copy@ =~= path@.take(i + 1));
        i += 1;
    }
    assert(copy@ =~= path@);
    copy
}

/// Whether the outcome is as told: with the shapes appended, and stack and path as before, or with
/// the failure.
spec fn unfolded(
    told: Result<Seq<FlatModel>, LoadFailure>,
    result: Result<(), LoadError>,
    out_before: Seq<FlatShape>,
    out_after: Seq<FlatShape>,
    unchanged: bool,
) -> bool {
    match told {
        Ok(shapes) => result is Ok && flat_models(out_after) == flat_models(out_before) + shapes
            && unchanged,
        Err(failure) => result matches Err(error) && error@ == failure,
    }
}

/// Appends the copies of an outline.
fn push_outline_copies(
    out: &mut Vec<FlatShape>,
    path: &Vec<CopyStep>,
    cell: usize,
    item: usize,
    layer: LayerId,
    closed: bool,
    copies: u64,
)
    requires
        path@.len() <= u32::MAX,
    ensures
        flat_models(final(out)@) == flat_models(old(out)@) + outline_copies(
            path@,
            cell as int,
            item as int,
            layer,
            closed,
            copies,
        ),
{
    let ghost start = out@;
    let ghost all = outline_copies(path@, cell as int, item as int, layer, closed, copies);
    let mut k: u64 = 0;
    assert(flat_models(out@) =~= flat_models(start) + all.take(0));
    while k < copies
        invariant
            k <= copies,
            path@.len() <= u32::MAX,
            all == outline_copies(path@, cell as int, item as int, layer, closed, copies),
            flat_models(out@) == flat_models(start) + all.take(k as int),
        decreases copies - k,
    {
        let ghost before = out@;
        let shape = FlatShape {
            path: copy_path(path),
            place: CopyStep { cell, item, copy: k },
            layer,
            closed,
            hierarchy_level: path.len() as u32,
        };
        assert(shape@ =~= all[k as int]);
        out.push(shape);
        proof {
            assert(flat_models(out@) =~= flat_models(before).push(all[k as int]));
            assert(flat_models(out@) =~= flat_models(start) + all.take(k + 1));
        }
        k += 1;
    }
    assert(all.take(copies as int) =~= all);
}

/// Unfolds an item of a cell.
fn collect_item(
    cells: &[SourceCell],
    cell: usize,
    item: usize,
    stack: &mut Vec<usize>,
    path: &mut Vec<CopyStep>,
    out: &mut Vec<FlatShape>,
) -> (result: Result<(), LoadError>)
    requires
        cell < cells@.len(),
        item < cells@[cell as int].items@.len(),
        are_cells(cells@, old(stack)@),
        old(path)@.len() + unentered(cells@, names_of(cells@, old(stack)@), cells@.len())
            <= u32::MAX,
    ensures
        unfolded(
            item_shapes(
                cells@,
                cell as int,
                item as nat,
                names_of(cells@, old(stack)@),
                old(path)@,
            ),
            result,
            old(out)@,
            final(out)@,
            final(stack)@ == old(stack)@ && final(path)@ == old(path)@,
        ),
    decreases unentered(cells@, names_of(cells@, old(stack)@), cells@.len()), 0int,
{
    match &cells[cell].items[item] {
        SourceItem::Shape { layer, closed, has_points, copies } => {
            match copies {
                None => Err(LoadError::UnsupportedRepetition),
                Some(copies) => {
                    if *has_points {
                        push_outline_copies(out, path, cell, item, *layer, *closed, *copies);
                    } else {
                        assert(flat_models(out@) =~= flat_models(old(out)@) + Seq::empty());
                    }
                    Ok(())
                },
            }
        },
        SourceItem::Reference { target, copies } => {
            let child: usize = match find_cell(cells, target) {
                Some(child) => child,
                None => {
                    return Err(LoadError::MissingCell(target.clone()));
                },
            };
            if is_entered(cells, stack, target) {
                return Err(LoadError::CyclicReference(target.clone()));
            }
            let count: u64 = match copies {
                Some(count) => *count,
                None => {
                    return Err(LoadError::UnsupportedRepetition);
                },
            };
            let ghost names = names_of(cells@, stack@);
            let ghost stack_before = stack@;
            let ghost path_before = path@;
            let ghost out_before = out@;
            proof {
                lemma_unentered(cells@, names, target@, cells@.len(), child as int);
            }
            stack.push(child);
            let ghost inner = names_of(cells@, stack@);
            assert(inner =~= names.push(target@));
            let mut k: u64 = 0;
            assert(flat_models(out@) =~= flat_models(out_before) + Seq::empty());
            while k < count
                invariant
                    k <= count,
                    cell < cells@.len(),
                    child < cells@.len(),
                    stack@ == stack_before.push(child),
                    path@ == path_before,
                    are_cells(cells@, stack@),
                    inner == names_of(cells@, stack@),
                    names == names_of(cells@, stack_before),
                    unentered(cells@, inner, cells@.len()) < unentered(cells@, names, cells@.len()),
                    unentered(cells@, names, cells@.len()) == unentered(
                        cells@,
                        names_of(cells@, old(stack)@),
                        cells@.len(),
                    ),
                    path_before.len() + unentered(cells@, names, cells@.len()) <= u32::MAX,
                    copies_shapes(
                        cells@,
                        cell as int,
                        item as int,
                        child as int,
                        inner,
                        path_before,
                        k as nat,
                    ) matches Ok(shapes) && flat_models(out@) == flat_models(out_before) + shapes,
                    item_shapes(cells@, cell as int, item as nat, names, path_before)
                        == copies_shapes(
                        cells@,
                        cell as int,
                        item as int,
                        child as int,
                        inner,
                        path_before,
                        count as nat,
                    ),
                    names == names_of(cells@, old(stack)@),
                    path_before == old(path)@,
                    out_before == old(out)@,
                decreases count - k,
            {
                let ghost out_now = out@;
                path.push(CopyStep { cell, item, copy: k });
                let result = collect_cell(cells, child, stack, path, out);
                match result {
                    Ok(()) => {
                        path.pop();
                        assert(path@ =~= path_before);
                        proof {
                            let before = copies_shapes(
                                cells@,
                                cell as int,
                                item as int,
                                child as int,
                                inner,
                                path_before,
                                k as nat,
                            )->Ok_0;
                            let more = cell_shapes(
                                cells@,
                                child as int,
                                inner,
                                path_before.push(CopyStep { cell, item, copy: k }),
                                cells@[child as int].items@.len(),
                            )->Ok_0;
                            assert(flat_models(out_before) + (before + more) =~= (flat_models(
                                out_before,
                            ) + before) + more);
                        }
                    },
                    Err(error) => {
                        proof {
                            lemma_copies_fail(
                                cells@,
                                cell as int,
                                item as int,
                                child as int,
                                inner,
                                path_before,
                                (k + 1) as nat,
                                count as nat,
                            );
                        }
                        return Err(error);
                    },
                }
                k += 1;
            }
            stack.pop();
            assert(stack@ =~= stack_before);
            Ok(())
        },
        SourceItem::Other => {
            assert(flat_models(out@) =~= flat_models(old(out)@) + Seq::empty());
            Ok(())
        },
    }
}

/// A failure among the first copies is the failure of all.
proof fn lemma_copies_fail(
    cells: Seq<SourceCell>,
    cell: int,
    item: int,
    child: int,
    stack: Seq<Seq<char>>,
    path: Seq<CopyStep>,
    count: nat,
    more: nat,
)
    requires
        count <= more,
        copies_shapes(cells, cell, item, child, stack, path, count) is Err,
    ensures
        copies_shapes(cells, cell, item, child, stack, path, more) == copies_shapes(
            cells,
            cell,
            item,
            child,
            stack,
            path,
            count,
        ),
    decreases more,
{
    if count < more {
        lemma_copies_fail(cells, cell, item, child, stack, path, count, (more - 1) as nat);
    }
}

/// A failure among the first items is the failure of all.
proof fn lemma_items_fail(
    cells: Seq<SourceCell>,
    cell: int,
    stack: Seq<Seq<char>>,
    path: Seq<CopyStep>,
    count: nat,
    more: nat,
)
    requires
        count <= more,
        cell_shapes(cells, cell, stack, path, count) is Err,
    ensures
        cell_shapes(cells, cell, stack, path, more) == cell_shapes(cells, cell, stack, path, count),
    decreases more,
{
    if count < more {
        lemma_items_fail(cells, cell, stack, path, count, (more - 1) as nat);
    }
}

/// Unfolds a cell.
fn collect_cell(
    cells: &[SourceCell],
    cell: usize,
    stack: &mut Vec<usize>,
    path: &mut Vec<CopyStep>,
    out: &mut Vec<FlatShape>,
) -> (result: Result<(), LoadError>)
    requires
        cell < cells@.len(),
        are_cells(cells@, old(stack)@),
        old(path)@.len() + unentered(cells@, names_of(cells@, old(stack)@), cells@.len())
            <= u32::MAX,
    ensures
        unfolded(
            cell_shapes(
                cells@,
                cell as int,
                names_of(cells@, old(stack)@),
                old(path)@,
                cells@[cell as int].items@.len(),
            ),
            result,
            old(out)@,
            final(out)@,
            final(stack)@ == old(stack)@ && final(path)@ == old(path)@,
        ),
    decreases unentered(cells@, names_of(cells@, old(stack)@), cells@.len()), 1int,
{
    let ghost names = names_of(cells@, stack@);
    let ghost out_before = out@;
    let count: usize = cells[cell].items.len();
    let mut i: usize = 0;
    assert(flat_models(out@) =~= flat_models(out_before) + Seq::empty());
    while i < count
        invariant
            i <= count,
            count == cells@[cell as int].items@.len(),
            cell < cells@.len(),
            stack@ == old(stack)@,
            path@ == old(path)@,
            out_before == old(out)@,
            names == names_of(cells@, stack@),
            are_cells(cells@, stack@),
            path@.len() + unentered(cells@, names, cells@.len()) <= u32::MAX,
            cell_shapes(cells@, cell as int, names, path@, i as nat) matches Ok(shapes)
                && flat_models(out@) == flat_models(out_before) + shapes,
        decreases count - i,
    {
        let result = collect_item(cells, cell, i, stack, path, out);
        match result {
            Ok(()) => {
                proof {
                    let before = cell_shapes(cells@, cell as int, names, path@, i as nat)->Ok_0;
                    let more = item_shapes(cells@, cell as int, i as nat, names, path@)->Ok_0;
                    assert(flat_models(out_before) + (before + more) =~= (flat_models(out_before)
                        + before) + more);
                }
            },
            Err(error) => {
                proof {
                    lemma_items_fail(
                        cells@,
                        cell as int,
                        names,
                        old(path)@,
                        (i + 1) as nat,
                        count as nat,
                    );
                }
                return Err(error);
            },
        }
        i += 1;
    }
    Ok(())
}

/// A view of a file: a cell with all that it leads to.
#[derive(Debug)]
pub struct FlatView {
    pub name: String,
    pub cell: usize,
    pub shapes: Vec<FlatShape>,
}

/// Whether some item of the cells refers to the name.
pub open spec fn is_referenced(cells: Seq<SourceCell>, name: Seq<char>) -> bool {
    exists|c: int, i: int|
        0 <= c < cells.len() && 0 <= i < cells[c].items@.len() && refers_to(
            #[trigger] cells[c].items@[i],
            name,
        )
}

/// Whether the item refers to the name.
pub open spec fn refers_to(item: SourceItem, name: Seq<char>) -> bool {
    item matches SourceItem::Reference { target, copies } && target@ == name
}

/// Those of the first `count` cells that no item refers to.
pub open spec fn unreferenced(cells: Seq<SourceCell>, count: nat) -> Seq<usize>
    decreases count,
{
    if count == 0 {
        Seq::empty()
    } else {
        let rest = unreferenced(cells, (count - 1) as nat);
        if is_referenced(cells, cells[count - 1].name@) {
            rest
        } else {
            rest.push((count - 1) as usize)
        }
    }
}

/// The cells that views start from: those that no item refers to, or all where there is none.
pub open spec fn root_cells(cells: Seq<SourceCell>) -> Seq<usize> {
    let roots = unreferenced(cells, cells.len());
    if roots.len() == 0 {
        Seq::new(cells.len(), |k: int| k as usize)
    } else {
        roots
    }
}

/// Whether some item of the cells refers to the name.
fn check_referenced(cells: &[SourceCell], name: &String) -> (found: bool)
    ensures
        found == is_referenced(cells@, name@),
{
    let mut c: usize = 0;
    while c < cells.len()
        invariant
            c <= cells@.len(),
            forall|k: int, i: int|
                0 <= k < c && 0 <= i < cells@[k].items@.len() ==> !refers_to(
                    #[trigger] cells@[k].items@[i],
                    name@,
                ),
        decreases cells@.len() - c,
    {
        let items = &cells[c].items;
        let mut i: usize = 0;
        while i < items.len()
            invariant
                c < cells@.len(),
                i <= items@.len(),
                items@ == cells@[c as int].items@,
                forall|k: int, j: int|
                    0 <= k < c && 0 <= j < cells@[k].items@.len() ==> !refers_to(
                        #[trigger] cells@[k].items@[j],
                        name@,
                    ),
                forall|j: int| 0 <= j < i ==> !refers_to(#[trigger] items@[j], name@),
            decreases items@.len() - i,
        {
            if let SourceItem::Reference { target, .. } = &items[i] {
                if *target == *name {
                    assert(refers_to(cells@[c as int].items@[i as int], name@));
                    return true;
                }
            }
            assert(!refers_to(items@[i as int], name@));
            i += 1;
        }
        c += 1;
    }
    false
}

/// The cells that views start from.
pub fn find_root_cells(cells: &[SourceCell]) -> (roots: Vec<usize>)
    ensures
        roots@ == root_cells(cells@),
{
    let mut roots: Vec<usize> = Vec::new();
    let mut i: usize = 0;
    while i < cells.len()
        invariant
            i <= cells@.len(),
            roots@ == unreferenced(cells@, i as nat),
        decreases cells@.len() - i,
    {
        if !check_referenced(cells, &cells[i].name) {
            roots.push(i);
        }
        i += 1;
    }
    if roots.len() == 0 {
        let mut all: Vec<usize> = Vec::new();
        let mut k: usize = 0;
        while k < cells.len()
            invariant
                k <= cells@.len(),
                all@.len() == k,
                forall|j: int| 0 <= j < k ==> #[trigger] all@[j] == j,
            decreases cells@.len() - k,
        {
            all.push(k);
            k += 1;
        }
        assert(all@ =~= root_cells(cells@));
        return all;
    }
    roots
}

proof fn lemma_roots_are_cells(cells: Seq<SourceCell>, count: nat)
    requires
        count <= cells.len() <= usize::MAX,
    ensures
        are_cells(cells, unreferenced(cells, count)),
    decreases count,
{
    if count > 0 {
        lemma_roots_are_cells(cells, (count - 1) as nat);
    }
}

/// What the view that starts from a cell shows.
pub open spec fn view_of(cells: Seq<SourceCell>, root: int) -> Result<Seq<FlatModel>, LoadFailure> {
    cell_shapes(cells, root, seq![cells[root].name@], Seq::empty(), cells[root].items@.len())
}

/// Whether these are the views of the first roots.
pub open spec fn are_views(
    cells: Seq<SourceCell>,
    roots: Seq<usize>,
    views: Seq<FlatView>,
) -> bool {
    &&& views.len() <= roots.len()
    &&& forall|k: int|
        0 <= k < views.len() ==> {
            let view = #[trigger] views[k];
            &&& view.cell == roots[k]
            &&& view.name@ == cells[roots[k] as int].name@
            &&& view_of(cells, roots[k] as int) == Ok::<Seq<FlatModel>, LoadFailure>(
                flat_models(view.shapes@),
            )
        }
}

/// The views of a file, one for each cell that views start from; the first failure where there is
/// one.
pub fn flatten_views(cells: &[SourceCell]) -> (result: Result<Vec<FlatView>, LoadError>)
    requires
        cells@.len() <= u32::MAX,
    ensures
        match result {
            Ok(views) => views@.len() == root_cells(cells@).len() && are_views(
                cells@,
                root_cells(cells@),
                views@,
            ),
            Err(error) => first_failure(cells@, error@),
        },
{
    let roots = find_root_cells(cells);
    proof {
        lemma_roots_are_cells(cells@, cells@.len());
        assert(are_cells(cells@, roots@));
    }
    let mut views: Vec<FlatView> = Vec::new();
    let mut r: usize = 0;
    while r < roots.len()
        invariant
            r <= roots@.len(),
            cells@.len() <= u32::MAX,
            roots@ == root_cells(cells@),
            are_cells(cells@, roots@),
            views@.len() == r,
            are_views(cells@, roots@, views@),
        decreases roots@.len() - r,
    {
        let root: usize = roots[r];
        let mut stack: Vec<usize> = Vec::new();
        stack.push(root);
        let mut path: Vec<CopyStep> = Vec::new();
        let mut shapes: Vec<FlatShape> = Vec::new();
        proof {
            assert(names_of(cells@, stack@) =~= seq![cells@[root as int].name@]);
            assert(path@ =~= Seq::<CopyStep>::empty());
            lemma_unentered_bound(cells@, names_of(cells@, stack@), cells@.len());
        }
        match collect_cell(cells, root, &mut stack, &mut path, &mut shapes) {
            Ok(()) => {
                proof {
                    let told = view_of(cells@, root as int)->Ok_0;
                    assert(flat_models(Seq::<FlatShape>::empty()) + told =~= told);
                }
                views.push(FlatView { name: cells[root].name.clone(), cell: root, shapes });
            },
            Err(error) => {
                proof {
                    assert forall|j: int| 0 <= j < r implies #[trigger] view_of(
                        cells@,
                        root_cells(cells@)[j] as int,
                    ) is Ok by {
                        assert(views@[j].cell == roots@[j]);
                    }
                    assert(view_of(cells@, root_cells(cells@)[r as int] as int) is Err);
                }
                return Err(error);
            },
        }
        r += 1;
    }
    Ok(views)
}

proof fn lemma_unentered_bound(cells: Seq<SourceCell>, stack: Seq<Seq<char>>, count: nat)
    ensures
        unentered(cells, stack, count) <= count,
    decreases count,
{
    if count > 0 {
        lemma_unentered_bound(cells, stack, (count - 1) as nat);
    }
}

/// Whether the shape is a copy of an outline of the cells, on the level that its path tells.
pub open spec fn is_copy_of_outline(cells: Seq<SourceCell>, shape: FlatModel) -> bool {
    let place = shape.place;
    &&& place.cell < cells.len()
    &&& place.item < cells[place.cell as int].items@.len()
    &&& cells[place.cell as int].items@[place.item as int] matches SourceItem::Shape {
        layer,
        closed,
        has_points,
        copies,
    } && shape.layer == layer && shape.closed == closed && has_points && (copies matches Some(n)
        && place.copy < n)
    &&& shape.hierarchy_level == shape.path.len() as u32
}

/// Whether all shapes are copies of outlines of the cells.
pub open spec fn all_copies(cells: Seq<SourceCell>, shapes: Seq<FlatModel>) -> bool {
    forall|k: int| 0 <= k < shapes.len() ==> is_copy_of_outline(cells, #[trigger] shapes[k])
}

/// A view shows nothing but copies of the outlines of its cells, each on the level that the number
/// of references leading to it tells.
pub proof fn law_views_show_outlines(cells: Seq<SourceCell>, root: int)
    requires
        cells.len() <= usize::MAX,
        0 <= root < cells.len(),
        forall|c: int|
            0 <= c < cells.len() ==> (#[trigger] cells[c]).items@.len() <= usize::MAX,
        view_of(cells, root) is Ok,
    ensures
        all_copies(cells, view_of(cells, root)->Ok_0),
{
    lemma_cell_copies(
        cells,
        root,
        seq![cells[root].name@],
        Seq::empty(),
        cells[root].items@.len(),
    );
}

proof fn lemma_cell_copies(
    cells: Seq<SourceCell>,
    cell: int,
    stack: Seq<Seq<char>>,
    path: Seq<CopyStep>,
    count: nat,
)
    requires
        cells.len() <= usize::MAX,
        0 <= cell < cells.len(),
        count <= cells[cell].items@.len(),
        forall|c: int|
            0 <= c < cells.len() ==> (#[trigger] cells[c]).items@.len() <= usize::MAX,
        cell_shapes(cells, cell, stack, path, count) is Ok,
    ensures
        all_copies(cells, cell_shapes(cells, cell, stack, path, count)->Ok_0),
    decreases unentered(cells, stack, cells.len()), 0int, count,
{
    if count > 0 {
        lemma_cell_copies(cells, cell, stack, path, (count - 1) as nat);
        lemma_item_copies(cells, cell, (count - 1) as nat, stack, path);
        let before = cell_shapes(cells, cell, stack, path, (count - 1) as nat)->Ok_0;
        let more = item_shapes(cells, cell, (count - 1) as nat, stack, path)->Ok_0;
        lemma_all_copies_add(cells, before, more);
    }
}

proof fn lemma_all_copies_add(cells: Seq<SourceCell>, a: Seq<FlatModel>, b: Seq<FlatModel>)
    requires
        all_copies(cells, a),
        all_copies(cells, b),
    ensures
        all_copies(cells, a + b),
{
    assert forall|k: int| 0 <= k < (a + b).len() implies is_copy_of_outline(
        cells,
        #[trigger] (a + b)[k],
    ) by {
        if k < a.len() {
            assert((a + b)[k] == a[k]);
        } else {
            assert((a + b)[k] == b[k - a.len()]);
        }
    }
}

proof fn lemma_item_copies(
    cells: Seq<SourceCell>,
    cell: int,
    item: nat,
    stack: Seq<Seq<char>>,
    path: Seq<CopyStep>,
)
    requires
        cells.len() <= usize::MAX,
        0 <= cell < cells.len(),
        item < cells[cell].items@.len(),
        forall|c: int|
            0 <= c < cells.len() ==> (#[trigger] cells[c]).items@.len() <= usize::MAX,
        item_shapes(cells, cell, item, stack, path) is Ok,
    ensures
        all_copies(cells, item_shapes(cells, cell, item, stack, path)->Ok_0),
    decreases unentered(cells, stack, cells.len()), 0int, item,
{
    match cells[cell].items@[item as int] {
        SourceItem::Shape { layer, closed, has_points, copies } => {
            let n = copies.unwrap();
            if has_points {
                let all = outline_copies(path, cell, item as int, layer, closed, n);
                assert forall|k: int| 0 <= k < all.len() implies is_copy_of_outline(
                    cells,
                    #[trigger] all[k],
                ) by {
                    assert(all[k].place.copy == k as u64);
                    assert((cell as usize) as int == cell);
                    assert((item as usize) as int == item);
                }
            }
        },
        SourceItem::Reference { target, copies } => {
            let child = resolve(cells, target@, cells.len()).unwrap();
            lemma_resolve(cells, target@, cells.len());
            lemma_unentered(cells, stack, target@, cells.len(), child);
            lemma_copies_copies(
                cells,
                cell,
                item as int,
                child,
                stack.push(target@),
                path,
                copies.unwrap() as nat,
            );
        },
        SourceItem::Other => {},
    }
}

proof fn lemma_copies_copies(
    cells: Seq<SourceCell>,
    cell: int,
    item: int,
    child: int,
    stack: Seq<Seq<char>>,
    path: Seq<CopyStep>,
    count: nat,
)
    requires
        cells.len() <= usize::MAX,
        0 <= child < cells.len(),
        forall|c: int|
            0 <= c < cells.len() ==> (#[trigger] cells[c]).items@.len() <= usize::MAX,
        copies_shapes(cells, cell, item, child, stack, path, count) is Ok,
    ensures
        all_copies(cells, copies_shapes(cells, cell, item, child, stack, path, count)->Ok_0),
    decreases unentered(cells, stack, cells.len()), 1int, count,
{
    if count > 0 {
        lemma_copies_copies(cells, cell, item, child, stack, path, (count - 1) as nat);
        let step = CopyStep { cell: cell as usize, item: item as usize, copy: (count - 1) as u64 };
        let deeper = path.push(step);
        lemma_cell_copies(cells, child, stack, deeper, cells[child].items@.len());
        let before = copies_shapes(
            cells,
            cell,
            item,
            child,
            stack,
            path,
            (count - 1) as nat,
        )->Ok_0;
        let more = cell_shapes(cells, child, stack, deeper, cells[child].items@.len())->Ok_0;
        lemma_all_copies_add(cells, before, more);
    }
}

/// What an item of a cell is, apart from how it is stored.
pub enum ItemModel {
    Shape { layer: LayerId, closed: bool, has_points: bool, copies: Option<u64> },
    Reference { target: Seq<char>, copies: Option<u64> },
    Other,
}

impl View for SourceItem {
    type V = ItemModel;

    open spec fn view(&self) -> ItemModel {
        match self {
            SourceItem::Shape { layer, closed, has_points, copies } => ItemModel::Shape {
                layer: *layer,
                closed: *closed,
                has_points: *has_points,
                copies: *copies,
            },
            SourceItem::Reference { target, copies } => ItemModel::Reference {
                target: target@,
                copies: *copies,
            },
            SourceItem::Other => ItemModel::Other,
        }
    }
}

/// Whether the function answers every shape, and as `put` says.
pub open spec fn decides_outline<F: Fn(&FlatShape) -> PlacedOutline>(
    outline: &F,
    put: spec_fn(FlatModel) -> PlacedModel,
) -> bool {
    &&& forall|shape: &FlatShape| #[trigger] outline.requires((shape,))
    &&& forall|shape: &FlatShape, r: PlacedOutline| #[trigger]
        outline.ensures((shape,), r) ==> r@ == put(shape@)
}

/// The shape of a scene that a shape of a view makes.
pub open spec fn scene_shape(shape: FlatModel, placed: PlacedModel) -> scene::ShapeModel {
    scene::ShapeModel {
        layer: shape.layer,
        hierarchy_level: shape.hierarchy_level,
        bounds: placed.bounds,
        points: placed.points,
        closed: shape.closed,
        stroke_width_world: placed.stroke_width_world,
    }
}

/// The shapes of a scene that the shapes of a view make.
pub open spec fn scene_shapes(
    shapes: Seq<FlatModel>,
    put: spec_fn(FlatModel) -> PlacedModel,
) -> Seq<scene::ShapeModel> {
    shapes.map_values(|shape: FlatModel| scene_shape(shape, put(shape)))
}

/// The scene of a view.
fn build_scene<F: Fn(&FlatShape) -> PlacedOutline>(shapes: &Vec<FlatShape>, outline: &F) -> (built:
    Scene)
    requires
        forall|shape: &FlatShape| #[trigger] outline.requires((shape,)),
    ensures
        forall|put: spec_fn(FlatModel) -> PlacedModel| #[trigger]
            decides_outline(outline, put) ==> built@ == scene_shapes(flat_models(shapes@), put),
{
    let mut made: Vec<RectShape> = Vec::new();
    let mut i: usize = 0;
    while i < shapes.len()
        invariant
            i <= shapes@.len(),
            made@.len() == i,
            forall|shape: &FlatShape| #[trigger] outline.requires((shape,)),
            forall|put: spec_fn(FlatModel) -> PlacedModel, k: int|
                #![trigger decides_outline(outline, put), made@[k]]
                decides_outline(outline, put) && 0 <= k < i ==> made@[k]@ == scene_shape(
                    shapes@[k]@,
                    put(shapes@[k]@),
                ),
        decreases shapes@.len() - i,
    {
        let shape = &shapes[i];
        let placed = outline(shape);
        assert(outline.ensures((shape,), placed));
        let ghost told = placed@;
        made.push(
            RectShape {
                layer: shape.layer,
                hierarchy_level: shape.hierarchy_level,
                bounds: placed.bounds,
                points: placed.points,
                closed: shape.closed,
                stroke_width_world: placed.stroke_width_world,
            },
        );
        proof {
            assert(made@[i as int]@ == scene_shape(shape@, told));
            assert forall|put: spec_fn(FlatModel) -> PlacedModel, k: int|
                #![trigger decides_outline(outline, put), made@[k]]
                decides_outline(outline, put) && 0 <= k < i + 1 implies made@[k]@ == scene_shape(
                shapes@[k]@,
                put(shapes@[k]@),
            ) by {
                if k == i {
                    assert(told == put(shape@));
                }
            }
        }
        i += 1;
    }
    proof {
        assert forall|put: spec_fn(FlatModel) -> PlacedModel| #[trigger]
            decides_outline(outline, put) implies scene::shape_models(made@) == scene_shapes(
            flat_models(shapes@),
            put,
        ) by {
            assert(scene::shape_models(made@) =~= scene_shapes(flat_models(shapes@), put));
        }
    }
    Scene::from_shapes(made)
}

/// Whether the bundle offers these views, with the shapes put where `put` says.
pub open spec fn bundle_shows(
    bundle: SceneBundle,
    views: Seq<FlatView>,
    put: spec_fn(FlatModel) -> PlacedModel,
) -> bool {
    &&& bundle.listed().len() == views.len()
    &&& forall|k: int|
        0 <= k < views.len() ==> {
            &&& (#[trigger] bundle.listed()[k]).name@ == views[k].name@
            &&& bundle.listed()[k].scene@ == scene_shapes(flat_models(views[k].shapes@), put)
        }
}

/// The bundle of these views, the first of them selected.
fn build_bundle<F: Fn(&FlatShape) -> PlacedOutline>(views: Vec<FlatView>, outline: &F) -> (bundle:
    SceneBundle)
    requires
        forall|shape: &FlatShape| #[trigger] outline.requires((shape,)),
    ensures
        bundle.selection() == 0,
        bundle.listed().len() == views@.len(),
        forall|k: int|
            0 <= k < views@.len() ==> (#[trigger] bundle.listed()[k]).name@ == views@[k].name@,
        forall|put: spec_fn(FlatModel) -> PlacedModel| #[trigger]
            decides_outline(outline, put) ==> bundle_shows(bundle, views@, put),
{
    let mut listed: Vec<SceneView> = Vec::new();
    let mut i: usize = 0;
    while i < views.len()
        invariant
            i <= views@.len(),
            listed@.len() == i,
            forall|shape: &FlatShape| #[trigger] outline.requires((shape,)),
            forall|k: int| 0 <= k < i ==> (#[trigger] listed@[k]).name@ == views@[k].name@,
            forall|put: spec_fn(FlatModel) -> PlacedModel, k: int|
                #![trigger decides_outline(outline, put), listed@[k]]
                decides_outline(outline, put) && 0 <= k < i ==> listed@[k].scene@ == scene_shapes(
                    flat_models(views@[k].shapes@),
                    put,
                ),
        decreases views@.len() - i,
    {
        let built = build_scene(&views[i].shapes, outline);
        listed.push(SceneView { name: views[i].name.clone(), scene: Arc::new(built) });
        i += 1;
    }
    SceneBundle::new(listed)
}

/// Whether the bundle is that of a file with these cells.
pub open spec fn bundle_of(
    bundle: SceneBundle,
    cells: Seq<SourceCell>,
    put: spec_fn(FlatModel) -> PlacedModel,
) -> bool {
    &&& bundle.listed().len() == root_cells(cells).len()
    &&& forall|k: int|
        0 <= k < root_cells(cells).len() ==> {
            let root = root_cells(cells)[k] as int;
            &&& (#[trigger] bundle.listed()[k]).name@ == cells[root].name@
            &&& view_of(cells, root) matches Ok(shapes) && bundle.listed()[k].scene@
                == scene_shapes(shapes, put)
        }
}

/// The first failure among the views of a file.
pub open spec fn first_failure(cells: Seq<SourceCell>, failure: LoadFailure) -> bool {
    exists|k: int|
        0 <= k < root_cells(cells).len() && #[trigger] view_of(cells, root_cells(cells)[k] as int)
            == Err::<Seq<FlatModel>, LoadFailure>(failure) && forall|j: int|
            0 <= j < k ==> #[trigger] view_of(cells, root_cells(cells)[j] as int) is Ok
}

/// The scenes of a file, one for each cell that views start from; the first failure where there is
/// one.
pub fn build_scene_bundle<F: Fn(&FlatShape) -> PlacedOutline>(
    cells: &[SourceCell],
    outline: &F,
) -> (result: Result<SceneBundle, AppError>)
    requires
        cells@.len() <= u32::MAX,
        forall|shape: &FlatShape| #[trigger] outline.requires((shape,)),
    ensures
        match result {
            Ok(bundle) => {
                &&& bundle.selection() == 0
                &&& forall|k: int|
                    0 <= k < root_cells(cells@).len() ==> view_of(
                        cells@,
                        #[trigger] root_cells(cells@)[k] as int,
                    ) is Ok
                &&& forall|put: spec_fn(FlatModel) -> PlacedModel| #[trigger]
                    decides_outline(outline, put) ==> bundle_of(bundle, cells@, put)
            },
            Err(error) => error matches AppError::Parse(detail) && exists|failure: LoadFailure|
                #[trigger] first_failure(cells@, failure) && detail@ == failure_text(failure),
        },
{
    match flatten_views(cells) {
        Ok(views) => {
            let ghost told = views@;
            let bundle = build_bundle(views, outline);
            proof {
                assert forall|k: int| 0 <= k < root_cells(cells@).len() implies view_of(
                    cells@,
                    #[trigger] root_cells(cells@)[k] as int,
                ) is Ok by {
                    assert(told[k].cell == root_cells(cells@)[k]);
                }
                assert forall|put: spec_fn(FlatModel) -> PlacedModel| #[trigger]
                    decides_outline(outline, put) implies bundle_of(bundle, cells@, put) by {
                    assert(bundle_shows(bundle, told, put));
                    assert forall|k: int| 0 <= k < root_cells(cells@).len() implies {
                        let root = root_cells(cells@)[k] as int;
                        &&& (#[trigger] bundle.listed()[k]).name@ == cells@[root].name@
                        &&& view_of(cells@, root) matches Ok(shapes) && bundle.listed()[k].scene@
                            == scene_shapes(shapes, put)
                    } by {
                        assert(told[k].cell == root_cells(cells@)[k]);
                    }
                }
            }
            Ok(bundle)
        },
        Err(error) => {
            proof {
                assert(first_failure(cells@, error@));
            }
            Err(error.into_app_error())
        },
    }
}

} // verus!
