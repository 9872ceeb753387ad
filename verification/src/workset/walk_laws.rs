//! What holds of the shapes of a view: which they are, where they come from and in what order.

use crate::hierarchy;
use crate::layout::{LayoutBundle, LayoutCellId, LayoutInstance};
use crate::scene;
use crate::scene::{Bounds, LayerId, PlacedModel};
use crate::view_builder;
use crate::view_builder::{
    LayoutViewBuildError, LayoutViewBuildOptions, PlacementStep, Placing, ViewShapeModel,
};
use crate::workset;
use vstd::prelude::*;

verus! {

/// The cell that a path has led to after some steps.
pub open spec fn cell_on(
    bundle: LayoutBundle,
    from: LayoutCellId,
    path: Seq<PlacementStep>,
    steps: int,
) -> LayoutCellId
    decreases steps,
{
    if steps <= 0 {
        from
    } else {
        let above = cell_on(bundle, from, path, steps - 1);
        bundle.at(above).instances[path[steps - 1].instance as int].target_cell_id
    }
}

/// Whether the step goes through one of the copies of an instance of the cell, into a cell that is
/// there.
pub open spec fn steps_down(bundle: LayoutBundle, id: LayoutCellId, step: PlacementStep) -> bool {
    let instances = bundle.at(id).instances;
    &&& step.instance < instances.len()
    &&& step.row < instances[step.instance as int].rows()
    &&& step.col < instances[step.instance as int].columns()
    &&& bundle.has(instances[step.instance as int].target_cell_id)
}

/// The rectangle of a cell where a path puts it.
pub open spec fn put_at(
    bundle: LayoutBundle,
    d: Placing,
    path: Seq<PlacementStep>,
    id: LayoutCellId,
) -> Option<Bounds> {
    match bundle.at(id).bounds {
        Some(bounds) => Some((d.world)(path, bounds)),
        None => None,
    }
}

/// Whether something is in sight: it meets the area, where there is one.
pub open spec fn in_sight(bounds: Option<Bounds>, area: Option<Bounds>) -> bool {
    area matches Some(a) ==> bounds matches Some(b) && scene::bounds_meet(b, a)
}

/// Whether a cell on a level is left closed: it is small, the view may leave cells closed from that
/// level on, and the level lies below the first one shown.
pub open spec fn is_shut(
    options: LayoutViewBuildOptions,
    d: Placing,
    placed: Option<Bounds>,
    level: int,
) -> bool {
    match (placed, options.subtree_screen_lod) {
        (Some(bounds), Some(lod)) => (d.small)(bounds, lod) && level
            >= lod.min_collapse_hierarchy_level && level > options.min_hierarchy_level,
        _ => false,
    }
}

/// Whether the shape is one of the cell's own that the view is to show: on a level of the range, on
/// the wanted layer, and in sight.
pub open spec fn is_own(
    bundle: LayoutBundle,
    options: LayoutViewBuildOptions,
    d: Placing,
    id: LayoutCellId,
    s: ViewShapeModel,
) -> bool {
    &&& s.shape_index matches Some(k) && 0 <= k < bundle.at(id).shapes.len() && s.layer
        == bundle.at(id).shapes[k].layer && s.closed == bundle.at(id).shapes[k].closed && s.bounds
        == (d.shape)(s.path, id, k)
    &&& s.cell_id == id
    &&& s.hierarchy_level == s.path.len()
    &&& options.min_hierarchy_level <= s.hierarchy_level <= options.max_hierarchy_level
    &&& options.layer_filter matches Some(layer) ==> s.layer == layer
    &&& in_sight(Some(s.bounds), options.visible_world_bounds)
}

/// Whether the shape is the mark for the cell: an open line around it, on the layer that stands for
/// the cell.
pub open spec fn is_mark(
    bundle: LayoutBundle,
    d: Placing,
    id: LayoutCellId,
    s: ViewShapeModel,
) -> bool {
    &&& s.shape_index is None
    &&& s.cell_id == id
    &&& s.hierarchy_level == s.path.len()
    &&& !s.closed
    &&& put_at(bundle, d, s.path, id) == Some(s.bounds)
    &&& view_builder::representative_layer(bundle, id, Set::empty()) == Some(s.layer)
}

/// Whether the way to a shape goes on over this step: through a copy of an instance, into a cell
/// that is in sight, not too deep, and open if the way goes on behind it.
pub open spec fn goes_on(
    bundle: LayoutBundle,
    options: LayoutViewBuildOptions,
    d: Placing,
    s: ViewShapeModel,
    i: int,
) -> bool {
    let cell = cell_on(bundle, options.root_cell_id, s.path, i);
    let next = cell_on(bundle, options.root_cell_id, s.path, i + 1);
    let placed = put_at(bundle, d, s.path.take(i + 1), next);
    &&& steps_down(bundle, cell, s.path[i])
    &&& i < options.max_hierarchy_level
    &&& in_sight(placed, options.visible_world_bounds)
    &&& i + 1 < s.path.len() ==> !is_shut(options, d, placed, i + 1)
}

/// Whether the shape stands at the end of its way: one of the cell's own, or, where the cell is
/// left closed, the mark for it. The cell that the view starts from is always open.
pub open spec fn stands_at_end(
    bundle: LayoutBundle,
    options: LayoutViewBuildOptions,
    d: Placing,
    s: ViewShapeModel,
) -> bool {
    let n = s.path.len() as int;
    let cell = cell_on(bundle, options.root_cell_id, s.path, n);
    if n > 0 && is_shut(options, d, put_at(bundle, d, s.path, cell), n) {
        is_mark(bundle, d, cell, s)
    } else {
        is_own(bundle, options, d, cell, s)
    }
}

/// Whether one shape comes before another: where their ways part, a shape of the cell itself goes
/// before what its instances hold, own shapes go by their place in the cell, and instances by their
/// place, then row, then column.
pub open spec fn comes_before(a: ViewShapeModel, b: ViewShapeModel) -> bool {
    exists|m: int| #[trigger] parts_at(a, b, m)
}

/// Whether the ways of two shapes part at a depth, with the first one going before.
pub open spec fn parts_at(a: ViewShapeModel, b: ViewShapeModel, m: int) -> bool {
    &&& 0 <= m <= a.path.len()
    &&& m <= b.path.len()
    &&& a.path.take(m) == b.path.take(m)
    &&& if m == a.path.len() {
        m < b.path.len() || match (a.shape_index, b.shape_index) {
            (Some(x), Some(y)) => x < y,
            _ => false,
        }
    } else {
        m < b.path.len() && {
            let x = a.path[m];
            let y = b.path[m];
            ||| x.instance < y.instance
            ||| x.instance == y.instance && x.row < y.row
            ||| x.instance == y.instance && x.row == y.row && x.col < y.col
        }
    }
}

/// Whether the way to a shape leads on from a cell.
spec fn reached(
    bundle: LayoutBundle,
    options: LayoutViewBuildOptions,
    d: Placing,
    id: LayoutCellId,
    s: ViewShapeModel,
    p: int,
) -> bool
    decreases s.path.len() - p,
{
    if p >= s.path.len() {
        p == s.path.len() && is_own(bundle, options, d, id, s)
    } else {
        let target = bundle.at(id).instances[s.path[p].instance as int].target_cell_id;
        let placed = put_at(bundle, d, s.path.take(p + 1), target);
        &&& steps_down(bundle, id, s.path[p])
        &&& p < options.max_hierarchy_level
        &&& in_sight(placed, options.visible_world_bounds)
        &&& if is_shut(options, d, placed, p + 1) {
            p + 1 == s.path.len() && is_mark(bundle, d, target, s)
        } else {
            reached(bundle, options, d, target, s, p + 1)
        }
    }
}

/// Whether the shape is found in a cell reached by a path.
spec fn belongs(
    bundle: LayoutBundle,
    options: LayoutViewBuildOptions,
    d: Placing,
    path: Seq<PlacementStep>,
    id: LayoutCellId,
    s: ViewShapeModel,
) -> bool {
    &&& s.path.len() >= path.len()
    &&& s.path.take(path.len() as int) == path
    &&& reached(bundle, options, d, id, s, path.len() as int)
}

/// Whether the list holds the shapes with a property, each once and in order.
spec fn lists(shapes: Seq<ViewShapeModel>, p: spec_fn(ViewShapeModel) -> bool) -> bool {
    &&& forall|s: ViewShapeModel| #[trigger] shapes.contains(s) <==> p(s)
    &&& forall|i: int, j: int|
        0 <= i < j < shapes.len() ==> comes_before(#[trigger] shapes[i], #[trigger] shapes[j])
}

proof fn lemma_lists_add(
    a: Seq<ViewShapeModel>,
    b: Seq<ViewShapeModel>,
    p: spec_fn(ViewShapeModel) -> bool,
    q: spec_fn(ViewShapeModel) -> bool,
    r: spec_fn(ViewShapeModel) -> bool,
)
    requires
        lists(a, p),
        lists(b, q),
        forall|s: ViewShapeModel| #[trigger] r(s) <==> p(s) || q(s),
        forall|s: ViewShapeModel, t: ViewShapeModel| #[trigger]
            p(s) && #[trigger] q(t) ==> comes_before(s, t),
    ensures
        lists(a + b, r),
{
    let all = a + b;
    assert forall|s: ViewShapeModel| #[trigger] all.contains(s) <==> r(s) by {
        assert(a.contains(s) <==> p(s));
        assert(b.contains(s) <==> q(s));
        if a.contains(s) {
            let k = choose|k: int| 0 <= k < a.len() && a[k] == s;
            assert(all[k] == s);
        }
        if b.contains(s) {
            let k = choose|k: int| 0 <= k < b.len() && b[k] == s;
            assert(all[a.len() + k] == s);
        }
        if all.contains(s) {
            let k = choose|k: int| 0 <= k < all.len() && all[k] == s;
            if k < a.len() {
                assert(a[k] == s);
            } else {
                assert(b[k - a.len()] == s);
            }
        }
    }
    assert forall|i: int, j: int| 0 <= i < j < all.len() implies comes_before(
        #[trigger] all[i],
        #[trigger] all[j],
    ) by {
        if j < a.len() {
            assert(comes_before(a[i], a[j]));
        } else if i >= a.len() {
            assert(comes_before(b[i - a.len()], b[j - a.len()]));
        } else {
            assert(a.contains(a[i]));
            assert(b.contains(b[j - a.len()]));
            assert(p(a[i]));
            assert(q(b[j - a.len()]));
        }
    }
}

/// Whether the instances of every cell can be numbered.
pub open spec fn can_be_numbered(bundle: LayoutBundle) -> bool {
    forall|id: LayoutCellId| (#[trigger] bundle.at(id)).instances.len() <= usize::MAX
}

proof fn lemma_own_lists(
    bundle: LayoutBundle,
    options: LayoutViewBuildOptions,
    d: Placing,
    path: Seq<PlacementStep>,
    id: LayoutCellId,
    level: u32,
    count: nat,
)
    requires
        level == path.len(),
        level <= options.max_hierarchy_level,
        count <= bundle.at(id).shapes.len(),
    ensures
        lists(
            view_builder::own_contribution(bundle, options, d, path, id, level, count),
            |s: ViewShapeModel|
                s.path == path && is_own(bundle, options, d, id, s) && s.shape_index->0 < count,
        ),
    decreases count,
{
    let r = |s: ViewShapeModel|
        s.path == path && is_own(bundle, options, d, id, s) && s.shape_index->0 < count;
    let all = view_builder::own_contribution(bundle, options, d, path, id, level, count);
    if count == 0 || level < options.min_hierarchy_level {
        assert(all =~= Seq::empty());
    } else {
        let last = (count - 1) as nat;
        lemma_own_lists(bundle, options, d, path, id, level, last);
        let before = view_builder::own_contribution(bundle, options, d, path, id, level, last);
        let p = |s: ViewShapeModel|
            s.path == path && is_own(bundle, options, d, id, s) && s.shape_index->0 < last;
        let q = |s: ViewShapeModel|
            s.path == path && is_own(bundle, options, d, id, s) && s.shape_index->0 == last;
        let one = ViewShapeModel {
            path,
            cell_id: id,
            shape_index: Some(last as int),
            layer: bundle.at(id).shapes[last as int].layer,
            hierarchy_level: level,
            closed: bundle.at(id).shapes[last as int].closed,
            bounds: (d.shape)(path, id, last as int),
        };
        let more = if is_own(bundle, options, d, id, one) {
            seq![one]
        } else {
            Seq::empty()
        };
        assert(before + more =~= all);
        assert forall|s: ViewShapeModel| #[trigger] more.contains(s) <==> q(s) by {
            if q(s) {
                assert(s == one);
                assert(more[0] == s);
            }
        }
        assert(lists(more, q));
        assert forall|s: ViewShapeModel, t: ViewShapeModel| #[trigger] p(s) && #[trigger] q(
            t,
        ) implies comes_before(s, t) by {
            assert(parts_at(s, t, path.len() as int));
        }
        lemma_lists_add(before, more, p, q, r);
    }
}

proof fn lemma_cell_lists(
    bundle: LayoutBundle,
    options: LayoutViewBuildOptions,
    d: Placing,
    path: Seq<PlacementStep>,
    id: LayoutCellId,
    level: u32,
)
    requires
        can_be_numbered(bundle),
        level == path.len(),
        level <= options.max_hierarchy_level,
    ensures
        lists(
            view_builder::cell_contribution(bundle, options, d, path, id, level),
            |s: ViewShapeModel| belongs(bundle, options, d, path, id, s),
        ),
    decreases options.max_hierarchy_level - level, 4nat, 0nat,
{
    let n = path.len() as int;
    let r = |s: ViewShapeModel| belongs(bundle, options, d, path, id, s);
    let shapes = bundle.at(id).shapes.len();
    let instances = bundle.at(id).instances.len();
    lemma_own_lists(bundle, options, d, path, id, level, shapes);
    let own = view_builder::own_contribution(bundle, options, d, path, id, level, shapes);
    let p = |s: ViewShapeModel|
        s.path == path && is_own(bundle, options, d, id, s) && s.shape_index->0 < shapes;
    let q = |s: ViewShapeModel|
        belongs(bundle, options, d, path, id, s) && s.path.len() > n && s.path[n].instance
            < instances;
    let more = if level < options.max_hierarchy_level {
        view_builder::instances_contribution(bundle, options, d, path, id, level, instances)
    } else {
        Seq::empty()
    };
    if level < options.max_hierarchy_level {
        lemma_instances_list(bundle, options, d, path, id, level, instances);
    } else {
        assert(lists(more, q));
    }
    assert forall|s: ViewShapeModel| #[trigger] r(s) <==> p(s) || q(s) by {
        if s.path == path {
            assert(s.path.take(n) =~= path);
        }
        if r(s) && s.path.len() == n {
            assert(s.path.take(n) =~= s.path);
        }
    }
    assert forall|s: ViewShapeModel, t: ViewShapeModel| #[trigger] p(s) && #[trigger] q(
        t,
    ) implies comes_before(s, t) by {
        assert(s.path.take(n) =~= path);
        assert(parts_at(s, t, n));
    }
    lemma_lists_add(own, more, p, q, r);
}

proof fn lemma_instances_list(
    bundle: LayoutBundle,
    options: LayoutViewBuildOptions,
    d: Placing,
    path: Seq<PlacementStep>,
    id: LayoutCellId,
    level: u32,
    count: nat,
)
    requires
        can_be_numbered(bundle),
        level == path.len(),
        level < options.max_hierarchy_level,
        count <= bundle.at(id).instances.len(),
    ensures
        lists(
            view_builder::instances_contribution(bundle, options, d, path, id, level, count),
            |s: ViewShapeModel|
                belongs(bundle, options, d, path, id, s) && s.path.len() > path.len()
                    && s.path[path.len() as int].instance < count,
        ),
    decreases options.max_hierarchy_level - level, 3nat, count,
{
    let n = path.len() as int;
    let r = |s: ViewShapeModel|
        belongs(bundle, options, d, path, id, s) && s.path.len() > n && s.path[n].instance < count;
    let all = view_builder::instances_contribution(bundle, options, d, path, id, level, count);
    if count == 0 {
        assert(lists(all, r));
    } else {
        let last = (count - 1) as nat;
        let rows = bundle.at(id).instances[last as int].rows();
        lemma_instances_list(bundle, options, d, path, id, level, last);
        lemma_rows_list(bundle, options, d, path, id, level, last as int, rows);
        let before = view_builder::instances_contribution(
            bundle,
            options,
            d,
            path,
            id,
            level,
            last,
        );
        let more = view_builder::rows_contribution(
            bundle,
            options,
            d,
            path,
            id,
            level,
            last as int,
            rows,
        );
        let p = |s: ViewShapeModel|
            belongs(bundle, options, d, path, id, s) && s.path.len() > n && s.path[n].instance
                < last;
        let q = |s: ViewShapeModel|
            belongs(bundle, options, d, path, id, s) && s.path.len() > n && s.path[n].instance
                == last && s.path[n].row < rows;
        assert forall|s: ViewShapeModel| #[trigger] r(s) <==> p(s) || q(s) by {
            if r(s) {
                assert(steps_down(bundle, id, s.path[n]));
            }
        }
        assert forall|s: ViewShapeModel, t: ViewShapeModel| #[trigger] p(s) && #[trigger] q(
            t,
        ) implies comes_before(s, t) by {
            assert(parts_at(s, t, n));
        }
        lemma_lists_add(before, more, p, q, r);
    }
}

proof fn lemma_rows_list(
    bundle: LayoutBundle,
    options: LayoutViewBuildOptions,
    d: Placing,
    path: Seq<PlacementStep>,
    id: LayoutCellId,
    level: u32,
    instance: int,
    rows: nat,
)
    requires
        can_be_numbered(bundle),
        level == path.len(),
        level < options.max_hierarchy_level,
        0 <= instance < bundle.at(id).instances.len(),
        rows <= bundle.at(id).instances[instance].rows(),
    ensures
        lists(
            view_builder::rows_contribution(
                bundle,
                options,
                d,
                path,
                id,
                level,
                instance,
                rows,
            ),
            |s: ViewShapeModel|
                belongs(bundle, options, d, path, id, s) && s.path.len() > path.len()
                    && s.path[path.len() as int].instance == instance
                    && s.path[path.len() as int].row < rows,
        ),
    decreases options.max_hierarchy_level - level, 2nat, rows,
{
    let n = path.len() as int;
    let r = |s: ViewShapeModel|
        belongs(bundle, options, d, path, id, s) && s.path.len() > n && s.path[n].instance
            == instance && s.path[n].row < rows;
    let all = view_builder::rows_contribution(
        bundle,
        options,
        d,
        path,
        id,
        level,
        instance,
        rows,
    );
    if rows == 0 {
        assert(lists(all, r));
    } else {
        let last = (rows - 1) as nat;
        let columns = bundle.at(id).instances[instance].columns();
        lemma_rows_list(bundle, options, d, path, id, level, instance, last);
        lemma_columns_list(bundle, options, d, path, id, level, instance, last as int, columns);
        let before = view_builder::rows_contribution(
            bundle,
            options,
            d,
            path,
            id,
            level,
            instance,
            last,
        );
        let more = view_builder::columns_contribution(
            bundle,
            options,
            d,
            path,
            id,
            level,
            instance,
            last as int,
            columns,
        );
        let p = |s: ViewShapeModel|
            belongs(bundle, options, d, path, id, s) && s.path.len() > n && s.path[n].instance
                == instance && s.path[n].row < last;
        let q = |s: ViewShapeModel|
            belongs(bundle, options, d, path, id, s) && s.path.len() > n && s.path[n].instance
                == instance && s.path[n].row == last && s.path[n].col < columns;
        assert forall|s: ViewShapeModel| #[trigger] r(s) <==> p(s) || q(s) by {
            if r(s) {
                assert(steps_down(bundle, id, s.path[n]));
            }
        }
        assert forall|s: ViewShapeModel, t: ViewShapeModel| #[trigger] p(s) && #[trigger] q(
            t,
        ) implies comes_before(s, t) by {
            assert(parts_at(s, t, n));
        }
        lemma_lists_add(before, more, p, q, r);
    }
}

proof fn lemma_columns_list(
    bundle: LayoutBundle,
    options: LayoutViewBuildOptions,
    d: Placing,
    path: Seq<PlacementStep>,
    id: LayoutCellId,
    level: u32,
    instance: int,
    row: int,
    columns: nat,
)
    requires
        can_be_numbered(bundle),
        level == path.len(),
        level < options.max_hierarchy_level,
        0 <= instance < bundle.at(id).instances.len(),
        0 <= row < bundle.at(id).instances[instance].rows(),
        columns <= bundle.at(id).instances[instance].columns(),
    ensures
        lists(
            view_builder::columns_contribution(
                bundle,
                options,
                d,
                path,
                id,
                level,
                instance,
                row,
                columns,
            ),
            |s: ViewShapeModel|
                belongs(bundle, options, d, path, id, s) && s.path.len() > path.len()
                    && s.path[path.len() as int].instance == instance
                    && s.path[path.len() as int].row == row && s.path[path.len() as int].col
                    < columns,
        ),
    decreases options.max_hierarchy_level - level, 1nat, columns,
{
    let n = path.len() as int;
    let r = |s: ViewShapeModel|
        belongs(bundle, options, d, path, id, s) && s.path.len() > n && s.path[n].instance
            == instance && s.path[n].row == row && s.path[n].col < columns;
    let all = view_builder::columns_contribution(
        bundle,
        options,
        d,
        path,
        id,
        level,
        instance,
        row,
        columns,
    );
    if columns == 0 {
        assert(lists(all, r));
    } else {
        let last = (columns - 1) as nat;
        lemma_columns_list(bundle, options, d, path, id, level, instance, row, last);
        lemma_copy_lists(bundle, options, d, path, id, level, instance, row, last as int);
        let before = view_builder::columns_contribution(
            bundle,
            options,
            d,
            path,
            id,
            level,
            instance,
            row,
            last,
        );
        let more = view_builder::copy_contribution(
            bundle,
            options,
            d,
            path,
            id,
            level,
            instance,
            row,
            last as int,
        );
        let p = |s: ViewShapeModel|
            belongs(bundle, options, d, path, id, s) && s.path.len() > n && s.path[n].instance
                == instance && s.path[n].row == row && s.path[n].col < last;
        let q = |s: ViewShapeModel|
            belongs(bundle, options, d, path, id, s) && s.path.len() > n && s.path[n].instance
                == instance && s.path[n].row == row && s.path[n].col == last;
        assert forall|s: ViewShapeModel, t: ViewShapeModel| #[trigger] p(s) && #[trigger] q(
            t,
        ) implies comes_before(s, t) by {
            assert(parts_at(s, t, n));
        }
        lemma_lists_add(before, more, p, q, r);
    }
}

proof fn lemma_copy_lists(
    bundle: LayoutBundle,
    options: LayoutViewBuildOptions,
    d: Placing,
    path: Seq<PlacementStep>,
    id: LayoutCellId,
    level: u32,
    instance: int,
    row: int,
    col: int,
)
    requires
        can_be_numbered(bundle),
        level == path.len(),
        level < options.max_hierarchy_level,
        0 <= instance < bundle.at(id).instances.len(),
        0 <= row < bundle.at(id).instances[instance].rows(),
        0 <= col < bundle.at(id).instances[instance].columns(),
    ensures
        lists(
            view_builder::copy_contribution(
                bundle,
                options,
                d,
                path,
                id,
                level,
                instance,
                row,
                col,
            ),
            |s: ViewShapeModel|
                belongs(bundle, options, d, path, id, s) && s.path.len() > path.len()
                    && s.path[path.len() as int].instance == instance
                    && s.path[path.len() as int].row == row && s.path[path.len() as int].col == col,
        ),
    decreases options.max_hierarchy_level - level, 0nat, 0nat,
{
    let n = path.len() as int;
    let r = |s: ViewShapeModel|
        belongs(bundle, options, d, path, id, s) && s.path.len() > n && s.path[n].instance
            == instance && s.path[n].row == row && s.path[n].col == col;
    let all = view_builder::copy_contribution(
        bundle,
        options,
        d,
        path,
        id,
        level,
        instance,
        row,
        col,
    );
    let step = PlacementStep { instance: instance as usize, row: row as u32, col: col as u32 };
    assert(bundle.at(id).instances.len() <= usize::MAX);
    let inner = path.push(step);
    let target = bundle.at(id).instances[instance].target_cell_id;
    let placed = put_at(bundle, d, inner, target);
    let below = (level + 1) as u32;
    assert forall|s: ViewShapeModel| #[trigger] r(s) implies s.path.take(n + 1) == inner by {
        assert(s.path.take(n + 1) =~= s.path.take(n).push(s.path[n]));
        assert(s.path[n] == step);
    }
    assert forall|s: ViewShapeModel|
        s.path.len() > n && #[trigger] s.path.take(n + 1) == inner implies s.path.take(n) == path
        && s.path[n] == step by {
        assert(s.path.take(n) =~= s.path.take(n + 1).take(n));
        assert(inner.take(n) =~= path);
        assert(s.path.take(n + 1)[n] == s.path[n]);
    }
    if !bundle.has(target) || !in_sight(placed, options.visible_world_bounds) {
        assert(all =~= Seq::empty());
        assert forall|s: ViewShapeModel| #[trigger] all.contains(s) <==> r(s) by {
            if r(s) {
                assert(s.path.take(n + 1) == inner);
            }
        }
    } else if is_shut(options, d, placed, level + 1) {
        let layer = view_builder::representative_layer(bundle, target, Set::empty());
        let one = ViewShapeModel {
            path: inner,
            cell_id: target,
            shape_index: None,
            layer: layer->0,
            hierarchy_level: below,
            closed: false,
            bounds: placed->0,
        };
        assert(all =~= if layer is Some {
            seq![one]
        } else {
            Seq::empty()
        });
        assert forall|s: ViewShapeModel| #[trigger] all.contains(s) <==> r(s) by {
            if r(s) {
                assert(s.path.take(n + 1) == inner);
                assert(s.path =~= inner);
                assert(s == one);
                assert(all[0] == s);
            }
            if all.contains(s) {
                assert(s == one);
                assert(s.path.take(n + 1) =~= inner);
            }
        }
    } else {
        lemma_cell_lists(bundle, options, d, inner, target, below);
        let q = |s: ViewShapeModel| belongs(bundle, options, d, inner, target, s);
        assert forall|s: ViewShapeModel| #[trigger] all.contains(s) <==> r(s) by {
            assert(all.contains(s) <==> q(s));
            if r(s) {
                assert(s.path.take(n + 1) == inner);
            }
            if q(s) {
                assert(s.path.take(n + 1) == inner);
            }
        }
    }
}

/// Whether the way to a shape leads on from a cell just where it goes on over each further step.
proof fn lemma_reached(
    bundle: LayoutBundle,
    options: LayoutViewBuildOptions,
    d: Placing,
    s: ViewShapeModel,
    p: int,
)
    requires
        0 <= p < s.path.len(),
    ensures
        reached(
            bundle,
            options,
            d,
            cell_on(bundle, options.root_cell_id, s.path, p),
            s,
            p,
        ) <==> stands_at_end(bundle, options, d, s) && forall|i: int|
            p <= i < s.path.len() ==> #[trigger] goes_on(bundle, options, d, s, i),
    decreases s.path.len() - p,
{
    let cell = cell_on(bundle, options.root_cell_id, s.path, p);
    let next = cell_on(bundle, options.root_cell_id, s.path, p + 1);
    assert(next == bundle.at(cell).instances[s.path[p].instance as int].target_cell_id);
    if p + 1 == s.path.len() {
        assert(s.path.take(p + 1) =~= s.path);
        assert(reached(bundle, options, d, next, s, p + 1) <==> is_own(
            bundle,
            options,
            d,
            next,
            s,
        ));
        if reached(bundle, options, d, cell, s, p) {
            assert forall|i: int| p <= i < s.path.len() implies #[trigger] goes_on(
                bundle,
                options,
                d,
                s,
                i,
            ) by {
                assert(i == p);
            }
        } else if stands_at_end(bundle, options, d, s) {
            assert(!goes_on(bundle, options, d, s, p));
        }
    } else {
        lemma_reached(bundle, options, d, s, p + 1);
        if reached(bundle, options, d, cell, s, p) {
            assert forall|i: int| p <= i < s.path.len() implies #[trigger] goes_on(
                bundle,
                options,
                d,
                s,
                i,
            ) by {
                if i > p {
                    assert(reached(bundle, options, d, next, s, p + 1));
                }
            }
        } else if forall|i: int|
            p <= i < s.path.len() ==> #[trigger] goes_on(bundle, options, d, s, i) {
            assert(goes_on(bundle, options, d, s, p));
        }
    }
}

/// A view shows just the shapes that a way of copies of instances leads to from its start: each
/// cell on the way is in sight and, but for the last, open; where the last is left closed the mark
/// for it is shown, and else each of its own shapes that is wanted. Each is shown once, in the
/// order of the walk. Where the start is out of sight, nothing is shown.
pub proof fn law_views_show_what_is_in_sight(
    bundle: LayoutBundle,
    options: LayoutViewBuildOptions,
    d: Placing,
    s: ViewShapeModel,
    i: int,
    j: int,
)
    requires
        can_be_numbered(bundle),
    ensures
        ({
            let shapes = view_builder::view_contribution(bundle, options, d);
            let start = put_at(bundle, d, Seq::empty(), options.root_cell_id);
            &&& shapes.contains(s) <==> {
                &&& in_sight(start, options.visible_world_bounds)
                &&& stands_at_end(bundle, options, d, s)
                &&& forall|k: int|
                    0 <= k < s.path.len() ==> #[trigger] goes_on(bundle, options, d, s, k)
            }
            &&& 0 <= i < j < shapes.len() ==> comes_before(shapes[i], shapes[j])
        }),
{
    let shapes = view_builder::view_contribution(bundle, options, d);
    let none = Seq::<PlacementStep>::empty();
    let root = options.root_cell_id;
    lemma_cell_lists(bundle, options, d, none, root, 0);
    let r = |s: ViewShapeModel| belongs(bundle, options, d, none, root, s);
    if in_sight(put_at(bundle, d, none, root), options.visible_world_bounds) {
        assert(shapes.contains(s) <==> r(s));
        assert(s.path.take(0) =~= none);
        if s.path.len() > 0 {
            lemma_reached(bundle, options, d, s, 0);
        }
    }
}

/// Of two shapes of a view only one comes before the other, and none before itself.
pub proof fn law_order_of_a_view_is_strict(a: ViewShapeModel, b: ViewShapeModel)
    requires
        comes_before(a, b),
    ensures
        !comes_before(b, a),
        a != b,
{
    let m = choose|m: int| #[trigger] parts_at(a, b, m);
    if comes_before(b, a) {
        let k = choose|k: int| #[trigger] parts_at(b, a, k);
        lemma_parts_once(a, b, m, k);
    }
    if a == b {
        lemma_parts_once(a, b, m, m);
    }
}

proof fn lemma_parts_once(a: ViewShapeModel, b: ViewShapeModel, m: int, k: int)
    requires
        parts_at(a, b, m),
    ensures
        !parts_at(b, a, k),
{
    if parts_at(b, a, k) && m < k {
        assert(b.path.take(k)[m] == b.path[m]);
        assert(a.path.take(k)[m] == a.path[m]);
    } else if parts_at(b, a, k) && k < m {
        assert(b.path.take(m)[k] == b.path[k]);
        assert(a.path.take(m)[k] == a.path[k]);
    }
}

/// A view is refused for a range of levels that ends before it starts, whatever else, and then for
/// a start that is not there; the reason tells which. All other views can be built.
pub proof fn law_views_are_refused(bundle: LayoutBundle, options: LayoutViewBuildOptions)
    ensures
        ({
            let error = view_builder::build_error(bundle, options);
            let min = options.min_hierarchy_level;
            let max = options.max_hierarchy_level;
            &&& error is None <==> min <= max && bundle.has(options.root_cell_id)
            &&& error is Some && max < min ==> error
                == Some(LayoutViewBuildError::InvalidHierarchyRange { min, max })
            &&& error is Some && max >= min ==> error
                == Some(LayoutViewBuildError::MissingRootCell(options.root_cell_id))
        }),
{
}

/// The scene of a view has one shape for each shape of the view, in order: on its layer and level,
/// closed where it is, with the points, rectangle and line that it was placed with.
pub proof fn law_view_becomes_scene(
    bundle: LayoutBundle,
    options: LayoutViewBuildOptions,
    d: Placing,
    put: spec_fn(ViewShapeModel) -> PlacedModel,
    k: int,
)
    ensures
        ({
            let shapes = view_builder::view_contribution(bundle, options, d);
            let drawn = workset::workset(bundle, options, d, put);
            let refused = options.min_hierarchy_level > options.max_hierarchy_level
                || !bundle.has(options.root_cell_id);
            &&& refused ==> drawn.len() == 0
            &&& !refused ==> drawn.len() == shapes.len()
            &&& 0 <= k < drawn.len() ==> {
                &&& drawn[k].layer == shapes[k].layer
                &&& drawn[k].hierarchy_level == shapes[k].hierarchy_level
                &&& drawn[k].closed == shapes[k].closed
                &&& drawn[k].points == put(shapes[k]).points
                &&& drawn[k].bounds == put(shapes[k]).bounds
                &&& drawn[k].stroke_width_world == put(shapes[k]).stroke_width_world
            }
        }),
{
}

/// Whether the cells that are being visited stand above the cell.
spec fn stand_above(
    visiting: Set<u64>,
    rank: spec_fn(LayoutCellId) -> u32,
    id: LayoutCellId,
) -> bool {
    forall|v: u64| #[trigger] visiting.contains(v) ==> rank(id) < rank(LayoutCellId(v))
}

/// The layer of the first of these instances that has one.
pub open spec fn is_first_layer(
    bundle: LayoutBundle,
    instances: Seq<LayoutInstance>,
    layer: Option<LayerId>,
) -> bool {
    match layer {
        Some(_) => exists|k: int| #[trigger] is_first_at(bundle, instances, layer, k),
        None => forall|k: int|
            0 <= k < instances.len() ==> layer_for(
                bundle,
                (#[trigger] instances[k]).target_cell_id,
            ) is None,
    }
}

/// The layer that stands for a cell.
pub open spec fn layer_for(bundle: LayoutBundle, id: LayoutCellId) -> Option<LayerId> {
    view_builder::representative_layer(bundle, id, Set::empty())
}

/// Whether the instance at this place has the layer, and none before it has any.
pub open spec fn is_first_at(
    bundle: LayoutBundle,
    instances: Seq<LayoutInstance>,
    layer: Option<LayerId>,
    k: int,
) -> bool {
    &&& 0 <= k < instances.len()
    &&& layer_for(bundle, instances[k].target_cell_id) == layer
    &&& forall|j: int|
        0 <= j < k ==> layer_for(bundle, (#[trigger] instances[j]).target_cell_id) is None
}

/// The layer that stands for a cell is the first of its own; where it has none, that of its first
/// instance that has one. In a layout whose cells do not use themselves there is such a layer
/// unless neither the cell nor any of its instances has one.
pub proof fn law_layer_that_stands_for_a_cell(
    bundle: LayoutBundle,
    rank: spec_fn(LayoutCellId) -> u32,
    id: LayoutCellId,
)
    requires
        hierarchy::ranked_by(bundle, rank),
    ensures
        !bundle.has(id) ==> layer_for(bundle, id) is None,
        bundle.has(id) && bundle.at(id).layers.len() > 0 ==> layer_for(bundle, id) == Some(
            bundle.at(id).layers[0],
        ),
        bundle.has(id) && bundle.at(id).layers.len() == 0 ==> is_first_layer(
            bundle,
            bundle.at(id).instances,
            layer_for(bundle, id),
        ),
{
    if bundle.has(id) && bundle.at(id).layers.len() == 0 {
        let visiting = Set::<u64>::empty().insert(id.0);
        assert forall|k: int| 0 <= k < bundle.at(id).instances.len() implies stand_above(
            visiting,
            rank,
            (#[trigger] bundle.at(id).instances[k]).target_cell_id,
        ) by {
            assert(LayoutCellId(id.0) == id);
        }
        lemma_first_of(bundle, rank, bundle.at(id).instances, visiting);
    }
}

proof fn lemma_first_of(
    bundle: LayoutBundle,
    rank: spec_fn(LayoutCellId) -> u32,
    instances: Seq<LayoutInstance>,
    visiting: Set<u64>,
)
    requires
        hierarchy::ranked_by(bundle, rank),
        forall|k: int|
            0 <= k < instances.len() ==> stand_above(
                visiting,
                rank,
                (#[trigger] instances[k]).target_cell_id,
            ),
    ensures
        is_first_layer(
            bundle,
            instances,
            view_builder::representative_of_instances(bundle, instances, visiting),
        ),
    decreases instances.len(),
{
    if instances.len() > 0 {
        let init = instances.drop_last();
        let last = instances.len() - 1;
        let layer = view_builder::representative_of_instances(bundle, instances, visiting);
        let before = view_builder::representative_of_instances(bundle, init, visiting);
        assert forall|k: int| 0 <= k < init.len() implies stand_above(
            visiting,
            rank,
            (#[trigger] init[k]).target_cell_id,
        ) by {
            assert(init[k] == instances[k]);
        }
        lemma_first_of(bundle, rank, init, visiting);
        assert(stand_above(visiting, rank, instances[last].target_cell_id));
        lemma_same_layer(bundle, rank, instances[last].target_cell_id, visiting, Set::empty());
        if before is Some {
            let k = choose|k: int| #[trigger] is_first_at(bundle, init, before, k);
            assert forall|j: int| 0 <= j < k implies layer_for(
                bundle,
                (#[trigger] instances[j]).target_cell_id,
            ) is None by {
                assert(init[j] == instances[j]);
            }
            assert(is_first_at(bundle, instances, layer, k));
        } else {
            assert forall|j: int| 0 <= j < last implies layer_for(
                bundle,
                (#[trigger] instances[j]).target_cell_id,
            ) is None by {
                assert(init[j] == instances[j]);
            }
            if layer is Some {
                assert(is_first_at(bundle, instances, layer, last));
            }
        }
    }
}

/// What stands above a cell has no part in the layer that stands for it.
proof fn lemma_same_layer(
    bundle: LayoutBundle,
    rank: spec_fn(LayoutCellId) -> u32,
    id: LayoutCellId,
    a: Set<u64>,
    b: Set<u64>,
)
    requires
        hierarchy::ranked_by(bundle, rank),
        stand_above(a, rank, id),
        stand_above(b, rank, id),
    ensures
        view_builder::representative_layer(bundle, id, a) == view_builder::representative_layer(
            bundle,
            id,
            b,
        ),
    decreases rank(id), 1nat, 0nat,
{
    assert(LayoutCellId(id.0) == id);
    assert(!a.contains(id.0));
    assert(!b.contains(id.0));
    if bundle.has(id) {
        lemma_same_layers(bundle, rank, id, bundle.at(id).instances.len(), a, b);
        assert(bundle.at(id).instances.take(bundle.at(id).instances.len() as int)
            =~= bundle.at(id).instances);
    }
}

proof fn lemma_same_layers(
    bundle: LayoutBundle,
    rank: spec_fn(LayoutCellId) -> u32,
    id: LayoutCellId,
    count: nat,
    a: Set<u64>,
    b: Set<u64>,
)
    requires
        hierarchy::ranked_by(bundle, rank),
        bundle.has(id),
        count <= bundle.at(id).instances.len(),
        stand_above(a, rank, id),
        stand_above(b, rank, id),
    ensures
        view_builder::representative_of_instances(
            bundle,
            bundle.at(id).instances.take(count as int),
            a.insert(id.0),
        ) == view_builder::representative_of_instances(
            bundle,
            bundle.at(id).instances.take(count as int),
            b.insert(id.0),
        ),
    decreases rank(id), 0nat, count,
{
    let instances = bundle.at(id).instances.take(count as int);
    if count > 0 {
        let target = bundle.at(id).instances[count - 1].target_cell_id;
        lemma_same_layers(bundle, rank, id, (count - 1) as nat, a, b);
        assert(instances.drop_last() =~= bundle.at(id).instances.take(count - 1));
        assert(instances.last() == bundle.at(id).instances[count - 1]);
        assert(rank(target) < rank(id));
        assert(LayoutCellId(id.0) == id);
        lemma_same_layer(bundle, rank, target, a.insert(id.0), b.insert(id.0));
    }
}

} // verus!
