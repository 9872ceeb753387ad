//! What holds of the names of files, of what cannot be read, and of the layouts that are.

use crate::error::AppError;
use crate::io;
use crate::io::flatten;
use crate::io::flatten::{FlatModel, LoadFailure, SourceCell, SourceItem};
use crate::io::order;
use crate::io::view_laws;
use crate::io::LayoutFormat;
use crate::layout;
use crate::layout::{LayoutBundle, LayoutBundleError, LayoutCell, LayoutView};
use crate::seqs;
use std::sync::Arc;
use vstd::prelude::*;

verus! {

/// Whether the character is the letter, whatever its case.
pub open spec fn is_letter(c: char, small: char, capital: char) -> bool {
    c == small || c == capital
}

/// An extension tells GDSII with the letters G, D and S, and OASIS with O, A and S, in either case;
/// any other tells nothing, and so does a missing one.
pub proof fn law_extensions_tell_formats(extension: Seq<char>)
    ensures
        io::format_of(Some(extension)) == Some(LayoutFormat::Gds) <==> extension.len() == 3
            && is_letter(extension[0], 'g', 'G') && is_letter(extension[1], 'd', 'D') && is_letter(
            extension[2],
            's',
            'S',
        ),
        io::format_of(Some(extension)) == Some(LayoutFormat::Oasis) <==> extension.len() == 3
            && is_letter(extension[0], 'o', 'O') && is_letter(extension[1], 'a', 'A') && is_letter(
            extension[2],
            's',
            'S',
        ),
        io::format_of(None) is None,
{
    reveal_strlit("gds");
    reveal_strlit("oas");
    let low = io::lowered(extension);
    assert(low.len() == extension.len());
    assert("gds"@ =~= seq!['g', 'd', 's']);
    assert("oas"@ =~= seq!['o', 'a', 's']);
    if extension.len() == 3 {
        assert(low[0] == io::lower(extension[0]));
        assert(low[1] == io::lower(extension[1]));
        assert(low[2] == io::lower(extension[2]));
        assert(low == seq!['g', 'd', 's'] <==> low[0] == 'g' && low[1] == 'd' && low[2] == 's') by {
            if low[0] == 'g' && low[1] == 'd' && low[2] == 's' {
                assert(low =~= seq!['g', 'd', 's']);
            } else {
                assert(seq!['g', 'd', 's'][0] == 'g' && seq!['g', 'd', 's'][1] == 'd' && seq![
                    'g',
                    'd',
                    's',
                ][2] == 's');
            }
        }
        assert(low == seq!['o', 'a', 's'] <==> low[0] == 'o' && low[1] == 'a' && low[2] == 's') by {
            if low[0] == 'o' && low[1] == 'a' && low[2] == 's' {
                assert(low =~= seq!['o', 'a', 's']);
            } else {
                assert(seq!['o', 'a', 's'][0] == 'o' && seq!['o', 'a', 's'][1] == 'a' && seq![
                    'o',
                    'a',
                    's',
                ][2] == 's');
            }
        }
        lemma_lower(extension[0]);
        lemma_lower(extension[1]);
        lemma_lower(extension[2]);
    }
}

proof fn lemma_lower(c: char)
    ensures
        io::lower(c) == 'g' <==> is_letter(c, 'g', 'G'),
        io::lower(c) == 'd' <==> is_letter(c, 'd', 'D'),
        io::lower(c) == 's' <==> is_letter(c, 's', 'S'),
        io::lower(c) == 'o' <==> is_letter(c, 'o', 'O'),
        io::lower(c) == 'a' <==> is_letter(c, 'a', 'A'),
{
}

/// A text is blank just where white space is all it holds; putting texts together keeps that, and a
/// text with a letter in it is never blank.
pub proof fn law_blank_texts(a: Seq<char>, b: Seq<char>, i: int)
    ensures
        io::is_blank(Seq::empty()),
        io::is_blank(a + b) <==> io::is_blank(a) && io::is_blank(b),
        0 <= i < a.len() && ' ' < a[i] <= '~' ==> !io::is_blank(a),
        io::is_blank(seq![' ']),
{
    if io::is_blank(a) && io::is_blank(b) {
        assert forall|k: int| 0 <= k < (a + b).len() implies io::is_white_space(
            #[trigger] (a + b)[k],
        ) by {
            if k < a.len() {
                assert(io::is_white_space(a[k]));
            } else {
                assert(io::is_white_space(b[k - a.len()]));
            }
        }
    }
    if io::is_blank(a + b) {
        assert forall|k: int| 0 <= k < a.len() implies io::is_white_space(#[trigger] a[k]) by {
            assert((a + b)[k] == a[k]);
        }
        assert forall|k: int| 0 <= k < b.len() implies io::is_white_space(#[trigger] b[k]) by {
            assert((a + b)[a.len() + k] == b[k]);
        }
    }
    if 0 <= i < a.len() && ' ' < a[i] <= '~' {
        assert(!io::is_white_space(a[i]));
    }
    let one = seq![' '];
    assert forall|k: int| 0 <= k < one.len() implies io::is_white_space(#[trigger] one[k]) by {
        assert(one[k] == ' ');
    }
}

/// A file is read just where one is named, it is there, and its extension tells how; a file that
/// can be read without being flattened can also be read flattened. The error of a name that is
/// blank comes first, then that of a missing file.
pub proof fn law_which_files_are_read(
    path: &str,
    exists: bool,
    extension: Option<&str>,
    flat: Result<LayoutFormat, AppError>,
    whole: Result<(), AppError>,
)
    requires
        call_ensures(io::check_layout_path, (path, exists, extension), flat),
        call_ensures(io::check_hierarchy_path, (path, exists, extension), whole),
    ensures
        ({
            let told = match extension {
                Some(text) => io::format_of(Some(text@)),
                None => None,
            };
            &&& flat is Ok <==> !io::is_blank(path@) && exists && told is Some
            &&& flat matches Ok(format) ==> told == Some(format)
            &&& whole is Ok <==> flat is Ok && told == Some(LayoutFormat::Gds)
            &&& io::is_blank(path@) <==> (flat matches Err(AppError::MissingPath))
            &&& io::is_blank(path@) <==> (whole matches Err(AppError::MissingPath))
            &&& !io::is_blank(path@) && !exists <==> (flat matches Err(AppError::MissingFile(_)))
            &&& !io::is_blank(path@) && !exists <==> (whole matches Err(AppError::MissingFile(_)))
            &&& flat matches Err(AppError::MissingFile(name)) ==> name@ == path@
            &&& flat matches Err(AppError::UnsupportedFormat(name)) ==> name@ == path@
        }),
{
}

/// Where a file cannot be shown, the failure is that of the first view that fails, and all views
/// before it could be shown; a file has at most one such failure, and none where all can.
pub proof fn law_first_failing_view_is_told(
    cells: Seq<SourceCell>,
    failure: LoadFailure,
    other: LoadFailure,
)
    requires
        flatten::first_failure(cells, failure),
    ensures
        flatten::first_failure(cells, other) ==> other == failure,
        exists|k: int| #[trigger] fails_first(cells, failure, k),
{
    let roots = flatten::root_cells(cells);
    let k = choose|k: int|
        0 <= k < roots.len() && #[trigger] flatten::view_of(cells, roots[k] as int) == Err::<
            Seq<FlatModel>,
            LoadFailure,
        >(failure) && forall|j: int|
            0 <= j < k ==> #[trigger] flatten::view_of(cells, roots[j] as int) is Ok;
    assert(fails_first(cells, failure, k));
    if flatten::first_failure(cells, other) {
        let m = choose|m: int|
            0 <= m < roots.len() && #[trigger] flatten::view_of(cells, roots[m] as int) == Err::<
                Seq<FlatModel>,
                LoadFailure,
            >(other) && forall|j: int|
                0 <= j < m ==> #[trigger] flatten::view_of(cells, roots[j] as int) is Ok;
        if k < m {
            assert(flatten::view_of(cells, roots[k] as int) is Ok);
        }
        if m < k {
            assert(flatten::view_of(cells, roots[m] as int) is Ok);
        }
    }
}

/// Whether the view at a place fails for this reason, and none before it fails.
pub open spec fn fails_first(cells: Seq<SourceCell>, failure: LoadFailure, k: int) -> bool {
    let roots = flatten::root_cells(cells);
    &&& 0 <= k < roots.len()
    &&& flatten::view_of(cells, roots[k] as int) == Err::<Seq<FlatModel>, LoadFailure>(failure)
    &&& forall|j: int| 0 <= j < k ==> #[trigger] shows(cells, roots[j] as int)
}

/// Whether a view of the cell can be shown.
pub open spec fn shows(cells: Seq<SourceCell>, cell: int) -> bool {
    flatten::view_of(cells, cell) is Ok
}

/// Whether each of these cells refers to the next, and the last one to the first.
pub open spec fn is_ring(cells: Seq<SourceCell>, ring: Seq<usize>) -> bool {
    &&& ring.len() > 0
    &&& forall|i: int| 0 <= i < ring.len() ==> (#[trigger] ring[i]) < cells.len()
    &&& forall|i: int|
        0 <= i < ring.len() ==> #[trigger] refers(
            cells,
            ring[i] as int,
            ring[(i + 1) % (ring.len() as int)] as int,
        )
}

/// Whether an item of one cell is a reference that means the other.
pub open spec fn refers(cells: Seq<SourceCell>, a: int, b: int) -> bool {
    exists|i: int|
        0 <= i < cells[a].items@.len() && item_means(cells, #[trigger] cells[a].items@[i], b)
}

/// Whether the item is a reference that means the cell.
pub open spec fn item_means(cells: Seq<SourceCell>, item: SourceItem, b: int) -> bool {
    match item {
        SourceItem::Reference { target, .. } => view_laws::is_meant(cells, target@, b),
        _ => false,
    }
}

/// Cells that cannot be put in order lack a cell that is referred to, or hold a ring of
/// references, on which the cell with the name stands that is told.
pub proof fn law_what_keeps_cells_from_order(cells: Seq<SourceCell>, failure: LoadFailure)
    requires
        order::order_failure(cells, failure),
    ensures
        match failure {
            LoadFailure::MissingCell(name) => view_laws::means_nothing(cells, name)
                && flatten::is_referenced(cells, name),
            LoadFailure::CyclicReference(name) => exists|ring: Seq<usize>| #[trigger]
                is_ring(cells, ring) && cells[ring[0] as int].name@ == name,
            LoadFailure::UnsupportedRepetition => false,
        },
{
    match failure {
        LoadFailure::MissingCell(name) => {
            view_laws::law_names_mean_the_last_cell(cells, name);
        },
        LoadFailure::CyclicReference(name) => {
            let cell = choose|cell: int|
                #[trigger] order::on_cycle(cells, cell) && cells[cell].name@ == name;
            let chain = choose|chain: Seq<usize>| #[trigger]
                order::is_chain(cells, chain) && chain.len() >= 2 && chain.first() == chain.last()
                    && chain.first() == cell;
            let ring = chain.drop_last();
            let n = ring.len() as int;
            assert forall|i: int| 0 <= i < n implies #[trigger] refers(
                cells,
                ring[i] as int,
                ring[(i + 1) % n] as int,
            ) by {
                assert(order::depends(cells, chain[i] as int, chain[i + 1] as int));
                let k = choose|k: int|
                    0 <= k < cells[chain[i] as int].items@.len() && order::leads_to(
                        cells,
                        #[trigger] cells[chain[i] as int].items@[k],
                        chain[i + 1] as int,
                    );
                let item = cells[chain[i] as int].items@[k];
                match item {
                    SourceItem::Reference { target, .. } => {
                        view_laws::law_names_mean_the_last_cell(cells, target@);
                    },
                    _ => {},
                }
                assert(item_means(cells, item, chain[i + 1] as int));
                if i + 1 < n {
                    assert((i + 1) % n == i + 1) by {
                        vstd::arithmetic::div_mod::lemma_small_mod((i + 1) as nat, n as nat);
                    }
                } else {
                    assert((i + 1) % n == 0) by {
                        vstd::arithmetic::div_mod::lemma_mod_self_0(n);
                    }
                    assert(chain[n] == chain.last());
                }
            }
            assert forall|i: int| 0 <= i < ring.len() implies (#[trigger] ring[i]) < cells.len() by {
                assert(ring[i] == chain[i]);
            }
            assert(is_ring(cells, ring));
        },
        LoadFailure::UnsupportedRepetition => {},
    }
}

/// What is told of a cell that is missing or contains itself ends with its name.
pub proof fn law_failures_name_the_cell(name: Seq<char>)
    ensures
        ({
            let missing = flatten::failure_text(LoadFailure::MissingCell(name));
            let cyclic = flatten::failure_text(LoadFailure::CyclicReference(name));
            &&& missing.len() >= name.len() && missing.skip(missing.len() - name.len()) == name
            &&& cyclic.len() >= name.len() && cyclic.skip(cyclic.len() - name.len()) == name
        }),
{
    let missing = flatten::failure_text(LoadFailure::MissingCell(name));
    let cyclic = flatten::failure_text(LoadFailure::CyclicReference(name));
    assert(missing.skip(missing.len() - name.len()) =~= name);
    assert(cyclic.skip(cyclic.len() - name.len()) =~= name);
}

/// Whether no two cells have the same number.
pub open spec fn numbers_differ(cells: Seq<Arc<LayoutCell>>) -> bool {
    forall|i: int, j: int|
        0 <= i < j < cells.len() ==> (#[trigger] cells[i])@.id != (#[trigger] cells[j])@.id
}

/// Whether every view starts from a cell that is there.
pub open spec fn starts_are_there(cells: Seq<Arc<LayoutCell>>, views: Seq<LayoutView>) -> bool {
    forall|i: int|
        0 <= i < views.len() ==> exists|k: int|
            0 <= k < cells.len() && (#[trigger] cells[k])@.id == (
            #[trigger] views[i]).about().root()
}

/// Whether every instance uses a cell that is there.
pub open spec fn targets_are_there(cells: Seq<Arc<LayoutCell>>) -> bool {
    forall|i: int, k: int|
        0 <= i < cells.len() && 0 <= k < cells[i]@.instances.len() ==> layout::has_cell(
            cells,
            (#[trigger] cells[i]@.instances[k]).target_cell_id,
        )
}

/// Cells and views make a layout just where the numbers of the cells differ, every view starts
/// from a cell that is there, and every instance uses one. A number that occurs twice is told
/// first, then a missing start, then a missing target.
pub proof fn law_what_makes_a_layout(
    cells: Vec<Arc<LayoutCell>>,
    views: Vec<LayoutView>,
    result: Result<LayoutBundle, LayoutBundleError>,
)
    requires
        call_ensures(LayoutBundle::new, (cells, views), result),
    ensures
        result is Ok ==> numbers_differ(cells@) && starts_are_there(cells@, views@),
        result is Ok ==> targets_are_there(cells@),
        !numbers_differ(cells@) <==> (result matches Err(LayoutBundleError::DuplicateCellId(_))),
        numbers_differ(cells@) && !starts_are_there(cells@, views@) <==> (result matches Err(
            LayoutBundleError::MissingRootCell(_),
        )),
        result matches Ok(bundle) ==> bundle.view_list() == views@ && bundle.listed().len()
            == cells@.len(),
{
    let all = cells@;
    lemma_repeat(all);
    lemma_rootless(all, views@);
    match result {
        Ok(bundle) => {
            assert forall|i: int, k: int|
                0 <= i < all.len() && 0 <= k < all[i]@.instances.len() implies layout::has_cell(
                all,
                (#[trigger] all[i]@.instances[k]).target_cell_id,
            ) by {
                assert(all.contains(all[i]));
                assert(bundle.listed().contains(all[i]));
                let m = choose|m: int|
                    0 <= m < bundle.listed().len() && bundle.listed()[m] == all[i];
                let target = all[i]@.instances[k].target_cell_id;
                assert(!layout::has_dangling(bundle.listed(), bundle.listed()[m]@));
                assert(!layout::dangles(bundle.listed(), bundle.listed()[m]@.instances[k]));
                let n = choose|n: int|
                    0 <= n < bundle.listed().len() && (#[trigger] bundle.listed()[n])@.id == target;
                assert(bundle.listed().contains(bundle.listed()[n]));
                assert(all.contains(bundle.listed()[n]));
                let q = choose|q: int| 0 <= q < all.len() && all[q] == bundle.listed()[n];
                assert(all[q]@.id == target);
            }
        },
        Err(_) => {},
    }
}

proof fn lemma_repeat(cells: Seq<Arc<LayoutCell>>)
    ensures
        layout::first_repeat(cells) <= cells.len(),
        layout::first_repeat(cells) == cells.len() <==> numbers_differ(cells),
{
    let p = |at: int| layout::repeats_id(cells, at);
    seqs::lemma_least_from_is(0, cells.len() as int, p);
    let at = layout::first_repeat(cells);
    if at < cells.len() {
        assert(p(at));
        let k = choose|k: int|
            0 <= k < cells.take(at).len() && (#[trigger] cells.take(at)[k])@.id == cells[at]@.id;
        assert(cells[k]@.id == cells[at]@.id);
    } else {
        assert forall|i: int, j: int| 0 <= i < j < cells.len() implies (#[trigger] cells[i])@.id
            != (#[trigger] cells[j])@.id by {
            assert(!p(j));
            assert(cells.take(j)[i] == cells[i]);
        }
    }
}

proof fn lemma_rootless(cells: Seq<Arc<LayoutCell>>, views: Seq<LayoutView>)
    ensures
        layout::first_rootless(cells, views) <= views.len(),
        layout::first_rootless(cells, views) == views.len() <==> starts_are_there(cells, views),
{
    let p = |at: int| !layout::has_cell(cells, views[at].about().root());
    seqs::lemma_least_from_is(0, views.len() as int, p);
    let at = layout::first_rootless(cells, views);
    if at < views.len() {
        assert(p(at));
        if starts_are_there(cells, views) {
            let k = choose|k: int|
                0 <= k < cells.len() && (#[trigger] cells[k])@.id == views[at].about().root();
            assert(layout::has_cell(cells, views[at].about().root()));
        }
    } else {
        assert forall|i: int| 0 <= i < views.len() implies exists|k: int|
            0 <= k < cells.len() && (#[trigger] cells[k])@.id == (
            #[trigger] views[i]).about().root() by {
            assert(!p(i));
        }
    }
}

/// Where an instance uses a cell that is not there, the cell that holds it and the missing one are
/// told, by the first such instance of the cell.
pub proof fn law_missing_targets_are_told(
    cells: Vec<Arc<LayoutCell>>,
    views: Vec<LayoutView>,
    result: Result<LayoutBundle, LayoutBundleError>,
)
    requires
        call_ensures(LayoutBundle::new, (cells, views), result),
    ensures
        result matches Err(
            LayoutBundleError::DanglingInstanceTarget { owner_cell_id, target_cell_id },
        ) ==> !layout::has_cell(cells@, target_cell_id) && exists|i: int, k: int| #[trigger]
            uses_first(cells@, i, k) && cells@[i]@.id == owner_cell_id
                && cells@[i]@.instances[k].target_cell_id == target_cell_id,
{
    let all = cells@;
    lemma_repeat(all);
    lemma_rootless(all, views@);
    match result {
        Err(
            LayoutBundleError::DanglingInstanceTarget { owner_cell_id, target_cell_id },
        ) => {
            let i = choose|i: int|
                {
                    &&& 0 <= i < all.len()
                    &&& layout::has_dangling(all, (#[trigger] all[i])@)
                    &&& forall|k: int|
                        0 <= k < all.len() && layout::has_dangling(all, (#[trigger] all[k])@)
                            ==> all[i]@.id.0 <= all[k]@.id.0
                    &&& result->Err_0 == (LayoutBundleError::DanglingInstanceTarget {
                        owner_cell_id: all[i]@.id,
                        target_cell_id: all[i]@.instances[layout::first_dangling(
                            all,
                            all[i]@,
                        )].target_cell_id,
                    })
                };
            let instances = all[i]@.instances;
            let p = |at: int| layout::dangles(all, instances[at]);
            seqs::lemma_least_from_is(0, instances.len() as int, p);
            let k = layout::first_dangling(all, all[i]@);
            let m = choose|m: int|
                0 <= m < instances.len() && layout::dangles(all, #[trigger] instances[m]);
            assert(p(m));
            assert(p(k));
            assert forall|j: int| 0 <= j < k implies layout::has_cell(
                all,
                (#[trigger] instances[j]).target_cell_id,
            ) by {
                assert(!p(j));
            }
            assert(uses_first(all, i, k));
        },
        _ => {},
    }
}

/// Whether the instance at a place of a cell uses a cell that is not there, and those before it use
/// cells that are.
pub open spec fn uses_first(cells: Seq<Arc<LayoutCell>>, i: int, k: int) -> bool {
    let instances = cells[i]@.instances;
    &&& 0 <= i < cells.len()
    &&& 0 <= k < instances.len()
    &&& !layout::has_cell(cells, instances[k].target_cell_id)
    &&& forall|j: int|
        0 <= j < k ==> layout::has_cell(cells, (#[trigger] instances[j]).target_cell_id)
}

} // verus!
