//! Unfolding a hierarchical layout into the shapes of a view.
//!
//! The walk decides which cells are entered, which shapes are taken and in what order. Where a
//! shape or a cell ends up is told by the caller, who places rectangles along a path of
//! instances.

use crate::hierarchy;
use crate::layout::{LayoutBundle, LayoutCellId, LayoutInstance, LayoutRepetition};
use crate::scene;
use crate::scene::{Bounds, LayerId};
use std::collections::HashSet;
use vstd::prelude::*;

verus! {

broadcast use vstd::std_specs::hash::group_hash_axioms;

/// From which size on the screen a cell is entered; scale and size are coordinate keys.
#[derive(Debug, Clone, Copy, PartialEq, Eq, Structural)]
pub struct SubtreeScreenLod {
    pub world_to_screen_scale: i32,
    pub min_subtree_screen_extent: i32,
    pub min_collapse_hierarchy_level: u32,
}

/// What a view shows.
#[derive(Debug, Clone, Copy, PartialEq, Eq, Structural)]
pub struct LayoutViewBuildOptions {
    pub root_cell_id: LayoutCellId,
    pub min_hierarchy_level: u32,
    pub max_hierarchy_level: u32,
    pub visible_world_bounds: Option<Bounds>,
    pub subtree_screen_lod: Option<SubtreeScreenLod>,
    pub layer_filter: Option<LayerId>,
}

impl LayoutViewBuildOptions {
    /// The levels from `min_hierarchy_level` to `max_hierarchy_level`, without further limits.
    pub fn new(
        root_cell_id: LayoutCellId,
        min_hierarchy_level: u32,
        max_hierarchy_level: u32,
    ) -> (options: Self)
        ensures
            options == (LayoutViewBuildOptions {
                root_cell_id,
                min_hierarchy_level,
                max_hierarchy_level,
                visible_world_bounds: None,
                subtree_screen_lod: None,
                layer_filter: None,
            }),
    {
        LayoutViewBuildOptions {
            root_cell_id,
            min_hierarchy_level,
            max_hierarchy_level,
            visible_world_bounds: None,
            subtree_screen_lod: None,
            layer_filter: None,
        }
    }

    /// The same view, limited to what meets a rectangle.
    pub fn with_visible_world_bounds(self, visible_world_bounds: Option<Bounds>) -> (options: Self)
        ensures
            options == (LayoutViewBuildOptions { visible_world_bounds, ..self }),
    {
        LayoutViewBuildOptions { visible_world_bounds, ..self }
    }

    /// The same view, with cells that are small on the screen replaced by marks.
    pub fn with_subtree_screen_lod(
        self,
        world_to_screen_scale: i32,
        min_subtree_screen_extent: i32,
        min_collapse_hierarchy_level: u32,
    ) -> (options: Self)
        ensures
            options == (LayoutViewBuildOptions {
                subtree_screen_lod: Some(
                    SubtreeScreenLod {
                        world_to_screen_scale,
                        min_subtree_screen_extent,
                        min_collapse_hierarchy_level,
                    },
                ),
                ..self
            }),
    {
        LayoutViewBuildOptions {
            subtree_screen_lod: Some(
                SubtreeScreenLod {
                    world_to_screen_scale,
                    min_subtree_screen_extent,
                    min_collapse_hierarchy_level,
                },
            ),
            ..self
        }
    }

    /// The same view, limited to one layer.
    pub fn with_layer_filter(self, layer: Option<LayerId>) -> (options: Self)
        ensures
            options == (LayoutViewBuildOptions { layer_filter: layer, ..self }),
    {
        LayoutViewBuildOptions { layer_filter: layer, ..self }
    }
}

/// Why a view cannot be built.
#[derive(Debug, Clone, Copy, PartialEq, Eq, Structural)]
pub enum LayoutViewBuildError {
    /// The cell that the view starts from is not there.
    MissingRootCell(LayoutCellId),
    /// The first level lies below the last.
    InvalidHierarchyRange { min: u32, max: u32 },
}

/// One step down the hierarchy: through one copy of one instance of the cell above.
#[derive(Debug, Clone, Copy, PartialEq, Eq, Structural)]
pub struct PlacementStep {
    pub instance: usize,
    pub row: u32,
    pub col: u32,
}

/// A shape of the view.
#[derive(Debug)]
pub struct ViewShape {
    /// The instances that lead from the start of the view to the shape.
    pub path: Vec<PlacementStep>,
    /// The cell that the shape belongs to, or that a mark stands for.
    pub cell_id: LayoutCellId,
    /// The place of the shape in its cell; none where a mark stands for the whole cell.
    pub shape_index: Option<usize>,
    pub layer: LayerId,
    pub hierarchy_level: u32,
    /// Whether the shape closes into an area; marks do not.
    pub closed: bool,
    /// The rectangle around the shape, or around the cell that a mark stands for.
    pub bounds: Bounds,
}

/// What a shape of the view is.
pub struct ViewShapeModel {
    pub path: Seq<PlacementStep>,
    pub cell_id: LayoutCellId,
    pub shape_index: Option<int>,
    pub layer: LayerId,
    pub hierarchy_level: u32,
    pub closed: bool,
    pub bounds: Bounds,
}

impl View for ViewShape {
    type V = ViewShapeModel;

    open spec fn view(&self) -> ViewShapeModel {
        ViewShapeModel {
            path: self.path@,
            cell_id: self.cell_id,
            shape_index: match self.shape_index {
                Some(index) => Some(index as int),
                None => None,
            },
            layer: self.layer,
            hierarchy_level: self.hierarchy_level,
            closed: self.closed,
            bounds: self.bounds,
        }
    }
}

/// What the shapes of a list are.
pub open spec fn view_shapes(shapes: Seq<ViewShape>) -> Seq<ViewShapeModel> {
    shapes.map_values(|shape: ViewShape| shape@)
}

/// How rectangles are placed: a cell's rectangle along a path, a shape along a path, and whether
/// a placed rectangle is small on the screen.
pub struct Placing {
    pub world: spec_fn(Seq<PlacementStep>, Bounds) -> Bounds,
    pub shape: spec_fn(Seq<PlacementStep>, LayoutCellId, int) -> Bounds,
    pub small: spec_fn(Bounds, SubtreeScreenLod) -> bool,
}

/// Whether the three functions place rectangles in this way.
pub open spec fn places<
    W: Fn(&Vec<PlacementStep>, Bounds) -> Bounds,
    B: Fn(&Vec<PlacementStep>, LayoutCellId, usize) -> Bounds,
    S: Fn(Bounds, SubtreeScreenLod) -> bool,
>(world: W, shape: B, small: S, d: Placing) -> bool {
    &&& forall|path: &Vec<PlacementStep>, local: Bounds, result: Bounds|
        #[trigger] world.ensures((path, local), result) ==> result == (d.world)(path@, local)
    &&& forall|path: &Vec<PlacementStep>, id: LayoutCellId, index: usize, result: Bounds|
        #[trigger] shape.ensures((path, id, index), result) ==> result == (d.shape)(
            path@,
            id,
            index as int,
        )
    &&& forall|bounds: Bounds, lod: SubtreeScreenLod, result: bool|
        #[trigger] small.ensures((bounds, lod), result) ==> result == (d.small)(bounds, lod)
}

/// Whether the three functions can be asked about everything.
pub open spec fn answers<
    W: Fn(&Vec<PlacementStep>, Bounds) -> Bounds,
    B: Fn(&Vec<PlacementStep>, LayoutCellId, usize) -> Bounds,
    S: Fn(Bounds, SubtreeScreenLod) -> bool,
>(world: W, shape: B, small: S) -> bool {
    &&& forall|path: &Vec<PlacementStep>, local: Bounds| #[trigger] world.requires((path, local))
    &&& forall|path: &Vec<PlacementStep>, id: LayoutCellId, index: usize|
        #[trigger] shape.requires((path, id, index))
    &&& forall|bounds: Bounds, lod: SubtreeScreenLod| #[trigger] small.requires((bounds, lod))
}

/// Whether a rectangle counts as visible; without a limit everything does, with one nothing does
/// that has no rectangle.
pub open spec fn counts_as_visible(candidate: Option<Bounds>, visible: Option<Bounds>) -> bool {
    match visible {
        None => true,
        Some(area) => match candidate {
            None => false,
            Some(bounds) => scene::bounds_meet(bounds, area),
        },
    }
}

/// Whether a rectangle counts as visible.
pub fn intersects_visible_world(
    candidate: Option<Bounds>,
    visible_world_bounds: Option<Bounds>,
) -> (visible: bool)
    ensures
        visible == counts_as_visible(candidate, visible_world_bounds),
{
    match visible_world_bounds {
        None => true,
        Some(area) => match candidate {
            None => false,
            Some(bounds) => bounds.intersects(area),
        },
    }
}

/// What becomes of a cell that an instance leads to.
#[derive(Debug, Clone, Copy, PartialEq, Eq, Structural)]
pub enum SubtreeExpansionDecision {
    /// The cell is entered.
    Expand,
    /// A mark stands for the cell.
    CollapseToProxy(Bounds, SubtreeScreenLod),
    /// The cell is left out.
    Skip,
}

/// What becomes of a cell on a level, given its placed rectangle and whether that is small.
pub open spec fn subtree_decision(
    placed: Option<Bounds>,
    level: u32,
    options: LayoutViewBuildOptions,
    small: spec_fn(Bounds, SubtreeScreenLod) -> bool,
) -> SubtreeExpansionDecision {
    if !counts_as_visible(placed, options.visible_world_bounds) {
        SubtreeExpansionDecision::Skip
    } else {
        match (placed, options.subtree_screen_lod) {
            (Some(bounds), Some(lod)) => if level >= lod.min_collapse_hierarchy_level && level
                > options.min_hierarchy_level && small(bounds, lod) {
                SubtreeExpansionDecision::CollapseToProxy(bounds, lod)
            } else {
                SubtreeExpansionDecision::Expand
            },
            _ => SubtreeExpansionDecision::Expand,
        }
    }
}

/// The layer that stands for a cell: the first of its own, else that of the first instance that
/// has one. A cell that is being visited has none.
pub open spec fn representative_layer(
    bundle: LayoutBundle,
    id: LayoutCellId,
    visiting: Set<u64>,
) -> Option<LayerId>
    decreases hierarchy::unvisited(bundle, visiting), 0int,
{
    if !bundle.has(id) {
        None
    } else if bundle.at(id).layers.len() > 0 {
        Some(bundle.at(id).layers[0])
    } else if visiting.contains(id.0) {
        None
    } else {
        proof {
            hierarchy::lemma_unvisited_decreases(bundle, id, visiting);
        }
        representative_of_instances(
            bundle,
            bundle.at(id).instances,
            visiting.insert(id.0),
        )
    }
}

/// The layer of the first instance in a list that has one.
pub open spec fn representative_of_instances(
    bundle: LayoutBundle,
    instances: Seq<LayoutInstance>,
    visiting: Set<u64>,
) -> Option<LayerId>
    decreases hierarchy::unvisited(bundle, visiting), instances.len(),
{
    if instances.len() == 0 {
        None
    } else {
        match representative_of_instances(bundle, instances.drop_last(), visiting) {
            Some(layer) => Some(layer),
            None => representative_layer(bundle, instances.last().target_cell_id, visiting),
        }
    }
}

fn representative_layer_for_cell_inner(
    bundle: &LayoutBundle,
    id: LayoutCellId,
    visiting: &mut HashSet<u64>,
) -> (layer: Option<LayerId>)
    ensures
        layer == representative_layer(*bundle, id, old(visiting)@),
        final(visiting)@ == old(visiting)@,
    decreases hierarchy::unvisited(*bundle, old(visiting)@),
{
    let cell = match bundle.cell(id) {
        Some(cell) => cell,
        None => {
            return None;
        },
    };
    let own_layers = cell.local_layers();
    if own_layers.len() > 0 {
        return Some(own_layers[0]);
    }
    if !visiting.insert(id.0) {
        assert(visiting@ =~= old(visiting)@);
        return None;
    }
    proof {
        hierarchy::lemma_unvisited_decreases(*bundle, id, old(visiting)@);
    }
    let ghost inner = visiting@;
    let instances = cell.instances();
    let mut found: Option<LayerId> = None;
    let mut i: usize = 0;
    assert(instances@.take(0) =~= Seq::empty());
    while i < instances.len()
        invariant
            i <= instances@.len(),
            bundle.has(id),
            instances@ == bundle.at(id).instances,
            visiting@ == inner,
            inner == old(visiting)@.insert(id.0),
            hierarchy::unvisited(*bundle, inner) < hierarchy::unvisited(*bundle, old(visiting)@),
            found == representative_of_instances(*bundle, instances@.take(i as int), inner),
        decreases instances@.len() - i,
    {
        assert(instances@.take(i + 1).drop_last() =~= instances@.take(i as int));
        if found.is_none() {
            found = representative_layer_for_cell_inner(
                bundle,
                instances[i].target_cell_id(),
                visiting,
            );
        }
        i += 1;
    }
    assert(instances@.take(i as int) =~= instances@);
    visiting.remove(&id.0);
    assert(visiting@ =~= old(visiting)@);
    found
}

/// The layer in which a mark for the cell is drawn.
pub fn representative_layer_for_cell(bundle: &LayoutBundle, id: LayoutCellId) -> (layer: Option<
    LayerId,
>)
    ensures
        layer == representative_layer(*bundle, id, Set::empty()),
{
    let mut visiting: HashSet<u64> = HashSet::new();
    representative_layer_for_cell_inner(bundle, id, &mut visiting)
}

/// The shapes that a cell on a level contributes, its own first, then those of its instances.
pub open spec fn cell_contribution(
    bundle: LayoutBundle,
    options: LayoutViewBuildOptions,
    d: Placing,
    path: Seq<PlacementStep>,
    id: LayoutCellId,
    level: u32,
) -> Seq<ViewShapeModel>
    decreases options.max_hierarchy_level - level, 4nat, 0nat,
{
    own_contribution(bundle, options, d, path, id, level, bundle.at(id).shapes.len()) + if level
        < options.max_hierarchy_level {
        instances_contribution(
            bundle,
            options,
            d,
            path,
            id,
            level,
            bundle.at(id).instances.len(),
        )
    } else {
        Seq::empty()
    }
}

/// The shapes that a cell's own first `count` shapes contribute.
pub open spec fn own_contribution(
    bundle: LayoutBundle,
    options: LayoutViewBuildOptions,
    d: Placing,
    path: Seq<PlacementStep>,
    id: LayoutCellId,
    level: u32,
    count: nat,
) -> Seq<ViewShapeModel>
    decreases count,
{
    if count == 0 || !(options.min_hierarchy_level <= level <= options.max_hierarchy_level) {
        Seq::empty()
    } else {
        let head = own_contribution(bundle, options, d, path, id, level, (count - 1) as nat);
        let layer = bundle.at(id).shapes[count - 1].layer;
        let bounds = (d.shape)(path, id, count - 1);
        if (options.layer_filter is Some ==> options.layer_filter->0 == layer)
            && counts_as_visible(Some(bounds), options.visible_world_bounds) {
            head.push(
                ViewShapeModel {
                    path,
                    cell_id: id,
                    shape_index: Some(count - 1),
                    layer,
                    hierarchy_level: level,
                    closed: bundle.at(id).shapes[count - 1].closed,
                    bounds,
                },
            )
        } else {
            head
        }
    }
}

/// The shapes that a cell's first `count` instances contribute.
pub open spec fn instances_contribution(
    bundle: LayoutBundle,
    options: LayoutViewBuildOptions,
    d: Placing,
    path: Seq<PlacementStep>,
    id: LayoutCellId,
    level: u32,
    count: nat,
) -> Seq<ViewShapeModel>
    decreases options.max_hierarchy_level - level, 3nat, count,
{
    if count == 0 {
        Seq::empty()
    } else {
        instances_contribution(bundle, options, d, path, id, level, (count - 1) as nat)
            + rows_contribution(
            bundle,
            options,
            d,
            path,
            id,
            level,
            count - 1,
            bundle.at(id).instances[count - 1].rows(),
        )
    }
}

/// The shapes that the first `rows` rows of an instance contribute.
pub open spec fn rows_contribution(
    bundle: LayoutBundle,
    options: LayoutViewBuildOptions,
    d: Placing,
    path: Seq<PlacementStep>,
    id: LayoutCellId,
    level: u32,
    instance: int,
    rows: nat,
) -> Seq<ViewShapeModel>
    decreases options.max_hierarchy_level - level, 2nat, rows,
{
    if rows == 0 {
        Seq::empty()
    } else {
        rows_contribution(bundle, options, d, path, id, level, instance, (rows - 1) as nat)
            + columns_contribution(
            bundle,
            options,
            d,
            path,
            id,
            level,
            instance,
            rows - 1,
            bundle.at(id).instances[instance].columns(),
        )
    }
}

/// The shapes that the first `columns` copies in a row of an instance contribute.
pub open spec fn columns_contribution(
    bundle: LayoutBundle,
    options: LayoutViewBuildOptions,
    d: Placing,
    path: Seq<PlacementStep>,
    id: LayoutCellId,
    level: u32,
    instance: int,
    row: int,
    columns: nat,
) -> Seq<ViewShapeModel>
    decreases options.max_hierarchy_level - level, 1nat, columns,
{
    if columns == 0 {
        Seq::empty()
    } else {
        columns_contribution(
            bundle,
            options,
            d,
            path,
            id,
            level,
            instance,
            row,
            (columns - 1) as nat,
        ) + copy_contribution(bundle, options, d, path, id, level, instance, row, columns - 1)
    }
}

/// The shapes that one copy of an instance contributes: those of its cell, one level down; or a
/// mark; or nothing.
pub open spec fn copy_contribution(
    bundle: LayoutBundle,
    options: LayoutViewBuildOptions,
    d: Placing,
    path: Seq<PlacementStep>,
    id: LayoutCellId,
    level: u32,
    instance: int,
    row: int,
    col: int,
) -> Seq<ViewShapeModel>
    decreases options.max_hierarchy_level - level, 0nat, 0nat,
{
    let target = bundle.at(id).instances[instance].target_cell_id;
    if level >= options.max_hierarchy_level || !bundle.has(target) {
        Seq::empty()
    } else {
        let inner = path.push(
            PlacementStep { instance: instance as usize, row: row as u32, col: col as u32 },
        );
        let below = (level + 1) as u32;
        let placed = match bundle.at(target).bounds {
            Some(bounds) => Some((d.world)(inner, bounds)),
            None => None,
        };
        match subtree_decision(placed, below, options, d.small) {
            SubtreeExpansionDecision::Skip => Seq::empty(),
            SubtreeExpansionDecision::CollapseToProxy(bounds, lod) => {
                match representative_layer(bundle, target, Set::empty()) {
                    Some(layer) => seq![
                        ViewShapeModel {
                            path: inner,
                            cell_id: target,
                            shape_index: None,
                            layer,
                            hierarchy_level: below,
                            closed: false,
                            bounds,
                        },
                    ],
                    None => Seq::empty(),
                }
            },
            SubtreeExpansionDecision::Expand => cell_contribution(
                bundle,
                options,
                d,
                inner,
                target,
                below,
            ),
        }
    }
}

/// The shapes of a view: those of the cell it starts from, where that cell is visible at all.
pub open spec fn view_contribution(
    bundle: LayoutBundle,
    options: LayoutViewBuildOptions,
    d: Placing,
) -> Seq<ViewShapeModel> {
    let root = options.root_cell_id;
    let placed = match bundle.at(root).bounds {
        Some(bounds) => Some((d.world)(Seq::empty(), bounds)),
        None => None,
    };
    if counts_as_visible(placed, options.visible_world_bounds) {
        cell_contribution(bundle, options, d, Seq::empty(), root, 0)
    } else {
        Seq::empty()
    }
}

fn copy_path(path: &Vec<PlacementStep>) -> (copy: Vec<PlacementStep>)
    ensures
        copy@ == path@,
{
    let mut copy: Vec<PlacementStep> = Vec::new();
    let mut i: usize = 0;
    while i < path.len()
        invariant
            i <= path@.len(),
            copy@ == path@.take(i as int),
        decreases path@.len() - i,
    {
        copy.push(path[i]);
        assert(copy@ =~= path@.take(i + 1));
        i += 1;
    }
    assert(copy@ =~= path@);
    copy
}

fn push_shape(out: &mut Vec<ViewShape>, shape: ViewShape)
    ensures
        view_shapes(final(out)@) == view_shapes(old(out)@).push(shape@),
{
    out.push(shape);
    assert(view_shapes(out@) =~= view_shapes(old(out)@).push(shape@));
}

fn walk_cell<
    W: Fn(&Vec<PlacementStep>, Bounds) -> Bounds,
    B: Fn(&Vec<PlacementStep>, LayoutCellId, usize) -> Bounds,
    S: Fn(Bounds, SubtreeScreenLod) -> bool,
>(
    bundle: &LayoutBundle,
    id: LayoutCellId,
    level: u32,
    options: &LayoutViewBuildOptions,
    path: &mut Vec<PlacementStep>,
    out: &mut Vec<ViewShape>,
    world: &W,
    shape: &B,
    small: &S,
)
    requires
        bundle.has(id),
        level <= options.max_hierarchy_level,
        answers(*world, *shape, *small),
    ensures
        final(path)@ == old(path)@,
        forall|d: Placing| #[trigger]
            places(*world, *shape, *small, d) ==> view_shapes(final(out)@) == view_shapes(
                old(out)@,
            ) + cell_contribution(*bundle, *options, d, old(path)@, id, level),
    decreases options.max_hierarchy_level - level, 2nat,
{
    let ghost start = view_shapes(out@);
    let ghost here = path@;
    if let Some(cell) = bundle.cell(id) {
        if level >= options.min_hierarchy_level {
            let shapes = cell.local_shapes();
            let mut i: usize = 0;
            assert(forall|d: Placing| #[trigger]
                places(*world, *shape, *small, d) ==> view_shapes(out@) =~= start
                    + own_contribution(*bundle, *options, d, here, id, level, 0));
            while i < shapes.len()
                invariant
                    i <= shapes@.len(),
                    options.min_hierarchy_level <= level <= options.max_hierarchy_level,
                    shapes@.len() == bundle.at(id).shapes.len(),
                    forall|k: int|
                        0 <= k < shapes@.len() ==> (#[trigger] shapes@[k])@ == bundle.at(
                            id,
                        ).shapes[k],
                    answers(*world, *shape, *small),
                    path@ == here,
                    forall|d: Placing| #[trigger]
                        places(*world, *shape, *small, d) ==> view_shapes(out@) == start
                            + own_contribution(
                            *bundle,
                            *options,
                            d,
                            here,
                            id,
                            level,
                            i as nat,
                        ),
                decreases shapes@.len() - i,
            {
                let layer = shapes[i].layer();
                let wanted = match options.layer_filter {
                    Some(only) => only == layer,
                    None => true,
                };
                let ghost before = view_shapes(out@);
                if wanted {
                    let bounds = shape(&*path, id, i);
                    if intersects_visible_world(Some(bounds), options.visible_world_bounds) {
                        push_shape(
                            out,
                            ViewShape {
                                path: copy_path(&*path),
                                cell_id: id,
                                shape_index: Some(i),
                                layer,
                                hierarchy_level: level,
                                closed: shapes[i].closed(),
                                bounds,
                            },
                        );
                    }
                }
                proof {
                    assert forall|d: Placing| #[trigger]
                        places(*world, *shape, *small, d) implies view_shapes(out@) == start
                        + own_contribution(
                        *bundle,
                        *options,
                        d,
                        here,
                        id,
                        level,
                        (i + 1) as nat,
                    ) by {
                        let head = own_contribution(
                            *bundle,
                            *options,
                            d,
                            here,
                            id,
                            level,
                            i as nat,
                        );
                        let next = own_contribution(
                            *bundle,
                            *options,
                            d,
                            here,
                            id,
                            level,
                            (i + 1) as nat,
                        );
                        assert(before == start + head);
                        if next.len() > head.len() {
                            assert(start + next =~= (start + head).push(next.last()));
                        }
                    }
                }
                i += 1;
            }
        } else {
            assert(forall|d: Placing| #[trigger]
                places(*world, *shape, *small, d) ==> view_shapes(out@) =~= start
                    + own_contribution(
                    *bundle,
                    *options,
                    d,
                    here,
                    id,
                    level,
                    bundle.at(id).shapes.len(),
                ));
        }
        let ghost middle = view_shapes(out@);
        if level < options.max_hierarchy_level {
            let count: usize = cell.instances().len();
            let mut k: usize = 0;
            assert(forall|d: Placing| #[trigger]
                places(*world, *shape, *small, d) ==> view_shapes(out@) =~= middle
                    + instances_contribution(*bundle, *options, d, here, id, level, 0));
            while k < count
                invariant
                    k <= count,
                    count == bundle.at(id).instances.len(),
                    bundle.has(id),
                    level < options.max_hierarchy_level,
                    answers(*world, *shape, *small),
                    path@ == here,
                    forall|d: Placing| #[trigger]
                        places(*world, *shape, *small, d) ==> view_shapes(out@) == middle
                            + instances_contribution(
                            *bundle,
                            *options,
                            d,
                            here,
                            id,
                            level,
                            k as nat,
                        ),
                decreases count - k,
            {
                let ghost before = view_shapes(out@);
                walk_instance(bundle, id, k, level, options, path, out, world, shape, small);
                proof {
                    assert forall|d: Placing| #[trigger]
                        places(*world, *shape, *small, d) implies view_shapes(out@) == middle
                        + instances_contribution(
                        *bundle,
                        *options,
                        d,
                        here,
                        id,
                        level,
                        (k + 1) as nat,
                    ) by {
                        let head = instances_contribution(
                            *bundle,
                            *options,
                            d,
                            here,
                            id,
                            level,
                            k as nat,
                        );
                        let rows = rows_contribution(
                            *bundle,
                            *options,
                            d,
                            here,
                            id,
                            level,
                            k as int,
                            bundle.at(id).instances[k as int].rows(),
                        );
                        assert(before == middle + head);
                        assert((middle + head) + rows =~= middle + (head + rows));
                    }
                }
                k += 1;
            }
        }
        proof {
            assert forall|d: Placing| #[trigger]
                places(*world, *shape, *small, d) implies view_shapes(out@) == start
                + cell_contribution(*bundle, *options, d, here, id, level) by {
                let own = own_contribution(
                    *bundle,
                    *options,
                    d,
                    here,
                    id,
                    level,
                    bundle.at(id).shapes.len(),
                );
                assert(middle == start + own);
                if level < options.max_hierarchy_level {
                    let rest = instances_contribution(
                        *bundle,
                        *options,
                        d,
                        here,
                        id,
                        level,
                        bundle.at(id).instances.len(),
                    );
                    assert((start + own) + rest =~= start + (own + rest));
                } else {
                    assert(own + Seq::<ViewShapeModel>::empty() =~= own);
                }
            }
        }
    }
}

fn walk_instance<
    W: Fn(&Vec<PlacementStep>, Bounds) -> Bounds,
    B: Fn(&Vec<PlacementStep>, LayoutCellId, usize) -> Bounds,
    S: Fn(Bounds, SubtreeScreenLod) -> bool,
>(
    bundle: &LayoutBundle,
    id: LayoutCellId,
    instance: usize,
    level: u32,
    options: &LayoutViewBuildOptions,
    path: &mut Vec<PlacementStep>,
    out: &mut Vec<ViewShape>,
    world: &W,
    shape: &B,
    small: &S,
)
    requires
        bundle.has(id),
        instance < bundle.at(id).instances.len(),
        level < options.max_hierarchy_level,
        answers(*world, *shape, *small),
    ensures
        final(path)@ == old(path)@,
        forall|d: Placing| #[trigger]
            places(*world, *shape, *small, d) ==> view_shapes(final(out)@) == view_shapes(
                old(out)@,
            ) + rows_contribution(
                *bundle,
                *options,
                d,
                old(path)@,
                id,
                level,
                instance as int,
                bundle.at(id).instances[instance as int].rows(),
            ),
    decreases options.max_hierarchy_level - level, 1nat,
{
    let ghost start = view_shapes(out@);
    let ghost here = path@;
    if let Some(cell) = bundle.cell(id) {
        let used = cell.instances()[instance];
        let (columns, rows): (u32, u32) = match used.repetition {
            Some(LayoutRepetition::RegularGrid { columns, rows, .. }) => (columns, rows),
            None => (1, 1),
        };
        let mut row: u32 = 0;
        assert(forall|d: Placing| #[trigger]
            places(*world, *shape, *small, d) ==> view_shapes(out@) =~= start + rows_contribution(
                *bundle,
                *options,
                d,
                here,
                id,
                level,
                instance as int,
                0,
            ));
        while row < rows
            invariant
                row <= rows,
                bundle.has(id),
                instance < bundle.at(id).instances.len(),
                level < options.max_hierarchy_level,
                columns == bundle.at(id).instances[instance as int].columns(),
                answers(*world, *shape, *small),
                path@ == here,
                forall|d: Placing| #[trigger]
                    places(*world, *shape, *small, d) ==> view_shapes(out@) == start
                        + rows_contribution(
                        *bundle,
                        *options,
                        d,
                        here,
                        id,
                        level,
                        instance as int,
                        row as nat,
                    ),
            decreases rows - row,
        {
            let ghost middle = view_shapes(out@);
            let mut col: u32 = 0;
            assert(forall|d: Placing| #[trigger]
                places(*world, *shape, *small, d) ==> view_shapes(out@) =~= middle
                    + columns_contribution(
                    *bundle,
                    *options,
                    d,
                    here,
                    id,
                    level,
                    instance as int,
                    row as int,
                    0,
                ));
            while col < columns
                invariant
                    col <= columns,
                    bundle.has(id),
                    instance < bundle.at(id).instances.len(),
                    level < options.max_hierarchy_level,
                    answers(*world, *shape, *small),
                    path@ == here,
                    forall|d: Placing| #[trigger]
                        places(*world, *shape, *small, d) ==> view_shapes(out@) == middle
                            + columns_contribution(
                            *bundle,
                            *options,
                            d,
                            here,
                            id,
                            level,
                            instance as int,
                            row as int,
                            col as nat,
                        ),
                decreases columns - col,
            {
                let ghost before = view_shapes(out@);
                walk_copy(
                    bundle,
                    id,
                    PlacementStep { instance, row, col },
                    level,
                    options,
                    path,
                    out,
                    world,
                    shape,
                    small,
                );
                proof {
                    assert forall|d: Placing| #[trigger]
                        places(*world, *shape, *small, d) implies view_shapes(out@) == middle
                        + columns_contribution(
                        *bundle,
                        *options,
                        d,
                        here,
                        id,
                        level,
                        instance as int,
                        row as int,
                        (col + 1) as nat,
                    ) by {
                        let head = columns_contribution(
                            *bundle,
                            *options,
                            d,
                            here,
                            id,
                            level,
                            instance as int,
                            row as int,
                            col as nat,
                        );
                        let copy = copy_contribution(
                            *bundle,
                            *options,
                            d,
                            here,
                            id,
                            level,
                            instance as int,
                            row as int,
                            col as int,
                        );
                        assert(before == middle + head);
                        assert((middle + head) + copy =~= middle + (head + copy));
                    }
                }
                col += 1;
            }
            proof {
                assert forall|d: Placing| #[trigger]
                    places(*world, *shape, *small, d) implies view_shapes(out@) == start
                    + rows_contribution(
                    *bundle,
                    *options,
                    d,
                    here,
                    id,
                    level,
                    instance as int,
                    (row + 1) as nat,
                ) by {
                    let head = rows_contribution(
                        *bundle,
                        *options,
                        d,
                        here,
                        id,
                        level,
                        instance as int,
                        row as nat,
                    );
                    let line = columns_contribution(
                        *bundle,
                        *options,
                        d,
                        here,
                        id,
                        level,
                        instance as int,
                        row as int,
                        columns as nat,
                    );
                    assert(middle == start + head);
                    assert((start + head) + line =~= start + (head + line));
                }
            }
            row += 1;
        }
    }
}

fn walk_copy<
    W: Fn(&Vec<PlacementStep>, Bounds) -> Bounds,
    B: Fn(&Vec<PlacementStep>, LayoutCellId, usize) -> Bounds,
    S: Fn(Bounds, SubtreeScreenLod) -> bool,
>(
    bundle: &LayoutBundle,
    id: LayoutCellId,
    step: PlacementStep,
    level: u32,
    options: &LayoutViewBuildOptions,
    path: &mut Vec<PlacementStep>,
    out: &mut Vec<ViewShape>,
    world: &W,
    shape: &B,
    small: &S,
)
    requires
        bundle.has(id),
        step.instance < bundle.at(id).instances.len(),
        level < options.max_hierarchy_level,
        answers(*world, *shape, *small),
    ensures
        final(path)@ == old(path)@,
        forall|d: Placing| #[trigger]
            places(*world, *shape, *small, d) ==> view_shapes(final(out)@) == view_shapes(
                old(out)@,
            ) + copy_contribution(
                *bundle,
                *options,
                d,
                old(path)@,
                id,
                level,
                step.instance as int,
                step.row as int,
                step.col as int,
            ),
    decreases options.max_hierarchy_level - level, 0nat,
{
    let ghost start = view_shapes(out@);
    let ghost here = path@;
    let ghost inner = here.push(step);
    let target = match bundle.cell(id) {
        Some(cell) => cell.instances()[step.instance].target_cell_id(),
        None => id,
    };
    let target_cell = match bundle.cell(target) {
        Some(cell) => cell,
        None => {
            assert(forall|d: Placing| #[trigger]
                places(*world, *shape, *small, d) ==> view_shapes(out@) =~= start
                    + copy_contribution(
                    *bundle,
                    *options,
                    d,
                    here,
                    id,
                    level,
                    step.instance as int,
                    step.row as int,
                    step.col as int,
                ));
            return;
        },
    };
    path.push(step);
    let placed: Option<Bounds> = match target_cell.local_bounds() {
        Some(bounds) => Some(world(&*path, bounds)),
        None => None,
    };
    let below: u32 = level + 1;
    let decision = classify_subtree_expansion(placed, below, options, small);
    match decision {
        SubtreeExpansionDecision::Skip => {},
        SubtreeExpansionDecision::CollapseToProxy(bounds, _lod) => {
            if let Some(layer) = representative_layer_for_cell(bundle, target) {
                push_shape(
                    out,
                    ViewShape {
                        path: copy_path(&*path),
                        cell_id: target,
                        shape_index: None,
                        layer,
                        hierarchy_level: below,
                        closed: false,
                        bounds,
                    },
                );
            }
        },
        SubtreeExpansionDecision::Expand => {
            walk_cell(bundle, target, below, options, path, out, world, shape, small);
        },
    }
    let _step = path.pop();
    proof {
        assert(path@ =~= here);
        assert forall|d: Placing| #[trigger]
            places(*world, *shape, *small, d) implies view_shapes(out@) == start
            + copy_contribution(
            *bundle,
            *options,
            d,
            here,
            id,
            level,
            step.instance as int,
            step.row as int,
            step.col as int,
        ) by {
            let result = copy_contribution(
                *bundle,
                *options,
                d,
                here,
                id,
                level,
                step.instance as int,
                step.row as int,
                step.col as int,
            );
            let placed_at = match bundle.at(target).bounds {
                Some(bounds) => Some((d.world)(inner, bounds)),
                None => None,
            };
            assert(placed == placed_at);
            assert(decision == subtree_decision(placed, below, *options, d.small));
            match decision {
                SubtreeExpansionDecision::Skip => {
                    assert(start + result =~= start);
                },
                SubtreeExpansionDecision::CollapseToProxy(bounds, lod) => {
                    if result.len() == 0 {
                        assert(start + result =~= start);
                    } else {
                        assert(start + result =~= start.push(result[0]));
                    }
                },
                SubtreeExpansionDecision::Expand => {},
            }
        }
    }
}

/// Decides what becomes of a cell on a level.
fn classify_subtree_expansion<S: Fn(Bounds, SubtreeScreenLod) -> bool>(
    placed: Option<Bounds>,
    level: u32,
    options: &LayoutViewBuildOptions,
    small: &S,
) -> (decision: SubtreeExpansionDecision)
    requires
        forall|bounds: Bounds, lod: SubtreeScreenLod| #[trigger] small.requires((bounds, lod)),
    ensures
        forall|d: spec_fn(Bounds, SubtreeScreenLod) -> bool|
            (forall|bounds: Bounds, lod: SubtreeScreenLod, result: bool|
                #[trigger] small.ensures((bounds, lod), result) ==> result == d(bounds, lod))
                ==> decision == #[trigger] subtree_decision(placed, level, *options, d),
{
    if !intersects_visible_world(placed, options.visible_world_bounds) {
        return SubtreeExpansionDecision::Skip;
    }
    if let Some(bounds) = placed {
        if let Some(lod) = options.subtree_screen_lod {
            if level >= lod.min_collapse_hierarchy_level && level > options.min_hierarchy_level {
                if small(bounds, lod) {
                    return SubtreeExpansionDecision::CollapseToProxy(bounds, lod);
                }
            }
        }
    }
    SubtreeExpansionDecision::Expand
}

/// When a view cannot be built: an empty range of levels is reported first, then a start that
/// is not there.
pub open spec fn build_error(
    bundle: LayoutBundle,
    options: LayoutViewBuildOptions,
) -> Option<LayoutViewBuildError> {
    if options.min_hierarchy_level > options.max_hierarchy_level {
        Some(
            LayoutViewBuildError::InvalidHierarchyRange {
                min: options.min_hierarchy_level,
                max: options.max_hierarchy_level,
            },
        )
    } else if !bundle.has(options.root_cell_id) {
        Some(LayoutViewBuildError::MissingRootCell(options.root_cell_id))
    } else {
        None
    }
}

/// Whether the result is that of a view: the error, where the view cannot be built, and else the
/// shapes of the view, in the order of the walk.
pub open spec fn gives_view<
    W: Fn(&Vec<PlacementStep>, Bounds) -> Bounds,
    B: Fn(&Vec<PlacementStep>, LayoutCellId, usize) -> Bounds,
    S: Fn(Bounds, SubtreeScreenLod) -> bool,
>(
    bundle: LayoutBundle,
    options: LayoutViewBuildOptions,
    world: W,
    shape: B,
    small: S,
    result: Result<Vec<ViewShape>, LayoutViewBuildError>,
) -> bool {
    match (build_error(bundle, options), result) {
        (Some(error), Err(found)) => found == error,
        (None, Ok(shapes)) => forall|d: Placing| #[trigger]
            places(world, shape, small, d) ==> view_shapes(shapes@) == view_contribution(
                bundle,
                options,
                d,
            ),
        _ => false,
    }
}

/// The shapes of a view, in the order of the walk.
///
/// `world` places the rectangle of a cell along a path, `shape` that of a shape; `small` tells
/// whether a placed rectangle is small on the screen.
pub fn build_layout_view_scene<
    W: Fn(&Vec<PlacementStep>, Bounds) -> Bounds,
    B: Fn(&Vec<PlacementStep>, LayoutCellId, usize) -> Bounds,
    S: Fn(Bounds, SubtreeScreenLod) -> bool,
>(
    bundle: &LayoutBundle,
    options: LayoutViewBuildOptions,
    world: &W,
    shape: &B,
    small: &S,
) -> (result: Result<Vec<ViewShape>, LayoutViewBuildError>)
    requires
        answers(*world, *shape, *small),
    ensures
        gives_view(*bundle, options, *world, *shape, *small, result),
{
    if options.min_hierarchy_level > options.max_hierarchy_level {
        return Err(
            LayoutViewBuildError::InvalidHierarchyRange {
                min: options.min_hierarchy_level,
                max: options.max_hierarchy_level,
            },
        );
    }
    let root_cell = match bundle.cell(options.root_cell_id) {
        Some(cell) => cell,
        None => {
            return Err(LayoutViewBuildError::MissingRootCell(options.root_cell_id));
        },
    };
    let mut out: Vec<ViewShape> = Vec::new();
    let mut path: Vec<PlacementStep> = Vec::new();
    let placed: Option<Bounds> = match root_cell.local_bounds() {
        Some(bounds) => Some(world(&path, bounds)),
        None => None,
    };
    let ghost none = view_shapes(out@);
    assert(none =~= Seq::empty());
    assert(path@ =~= Seq::empty());
    if intersects_visible_world(placed, options.visible_world_bounds) {
        walk_cell(
            bundle,
            options.root_cell_id,
            0,
            &options,
            &mut path,
            &mut out,
            world,
            shape,
            small,
        );
    }
    proof {
        assert forall|d: Placing| #[trigger] places(*world, *shape, *small, d) implies view_shapes(
            out@,
        ) == view_contribution(*bundle, options, d) by {
            let all = cell_contribution(
                *bundle,
                options,
                d,
                Seq::empty(),
                options.root_cell_id,
                0,
            );
            assert(none + all =~= all);
        }
    }
    Ok(out)
}

/// The shapes of a view, one by one, as `build_layout_view_scene` gives them.
pub fn visit_layout_shapes_in_view<
    W: Fn(&Vec<PlacementStep>, Bounds) -> Bounds,
    B: Fn(&Vec<PlacementStep>, LayoutCellId, usize) -> Bounds,
    S: Fn(Bounds, SubtreeScreenLod) -> bool,
>(
    bundle: &LayoutBundle,
    options: LayoutViewBuildOptions,
    world: &W,
    shape: &B,
    small: &S,
) -> (result: Result<Vec<ViewShape>, LayoutViewBuildError>)
    requires
        answers(*world, *shape, *small),
    ensures
        gives_view(*bundle, options, *world, *shape, *small, result),
{
    build_layout_view_scene(bundle, options, world, shape, small)
}

/// Layer, level and rectangle of the shapes of a view; small cells are entered like others.
pub fn visit_layout_shape_bounds_in_view<
    W: Fn(&Vec<PlacementStep>, Bounds) -> Bounds,
    B: Fn(&Vec<PlacementStep>, LayoutCellId, usize) -> Bounds,
    S: Fn(Bounds, SubtreeScreenLod) -> bool,
>(
    bundle: &LayoutBundle,
    options: LayoutViewBuildOptions,
    world: &W,
    shape: &B,
    small: &S,
) -> (result: Result<Vec<ViewShape>, LayoutViewBuildError>)
    requires
        answers(*world, *shape, *small),
    ensures
        gives_view(
            *bundle,
            (LayoutViewBuildOptions { subtree_screen_lod: None, ..options }),
            *world,
            *shape,
            *small,
            result,
        ),
{
    let whole = LayoutViewBuildOptions { subtree_screen_lod: None, ..options };
    build_layout_view_scene(bundle, whole, world, shape, small)
}

/// Going through a view shape by shape gives the shapes that building the view gives, in the same
/// order, or fails with the same error.
pub proof fn law_visiting_gives_what_building_gives<
    W: Fn(&Vec<PlacementStep>, Bounds) -> Bounds,
    B: Fn(&Vec<PlacementStep>, LayoutCellId, usize) -> Bounds,
    S: Fn(Bounds, SubtreeScreenLod) -> bool,
>(
    bundle: &LayoutBundle,
    options: LayoutViewBuildOptions,
    world: &W,
    shape: &B,
    small: &S,
    d: Placing,
    built: Result<Vec<ViewShape>, LayoutViewBuildError>,
    visited: Result<Vec<ViewShape>, LayoutViewBuildError>,
)
    requires
        places(*world, *shape, *small, d),
        call_ensures(
            build_layout_view_scene::<W, B, S>,
            (bundle, options, world, shape, small),
            built,
        ),
        call_ensures(
            visit_layout_shapes_in_view::<W, B, S>,
            (bundle, options, world, shape, small),
            visited,
        ),
    ensures
        match (built, visited) {
            (Ok(built), Ok(visited)) => view_shapes(visited@) == view_shapes(built@),
            (Err(error), Err(other)) => other == error,
            _ => false,
        },
{
    assert(gives_view(*bundle, options, *world, *shape, *small, built));
    assert(gives_view(*bundle, options, *world, *shape, *small, visited));
}

} // verus!
