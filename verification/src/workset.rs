//! The scene that a view of a hierarchical layout shows.

pub mod costs;
pub mod counting;
pub mod culling;
pub mod one_layer;
pub mod point_costs;
pub mod walk_laws;

use crate::layout::{LayoutBundle, LayoutCellId};
use crate::scene;
use crate::scene::{Bounds, PlacedModel, PlacedOutline, RectShape, Scene};
use crate::view_builder;
use crate::view_builder::{
    build_layout_view_scene, LayoutViewBuildOptions, PlacementStep, Placing, SubtreeScreenLod,
    ViewShape, ViewShapeModel,
};
use vstd::prelude::*;

verus! {

/// Whether the function answers every shape, and as `put` says.
pub open spec fn draws<P: Fn(&ViewShape) -> PlacedOutline>(
    outline: P,
    put: spec_fn(ViewShapeModel) -> PlacedModel,
) -> bool {
    forall|shape: &ViewShape, r: PlacedOutline| #[trigger]
        outline.ensures((shape,), r) ==> r@ == put(shape@)
}

/// The shape of a scene that a shape of a view makes.
pub open spec fn drawn_shape(shape: ViewShapeModel, placed: PlacedModel) -> scene::ShapeModel {
    scene::ShapeModel {
        layer: shape.layer,
        hierarchy_level: shape.hierarchy_level,
        bounds: placed.bounds,
        points: placed.points,
        closed: shape.closed,
        stroke_width_world: placed.stroke_width_world,
    }
}

/// The shapes of a scene that the shapes of a view make.
pub open spec fn drawn_shapes(
    shapes: Seq<ViewShapeModel>,
    put: spec_fn(ViewShapeModel) -> PlacedModel,
) -> Seq<scene::ShapeModel> {
    shapes.map_values(|shape: ViewShapeModel| drawn_shape(shape, put(shape)))
}

/// The shapes of the scene that a view shows; none where the view cannot be built.
pub open spec fn workset(
    bundle: LayoutBundle,
    options: LayoutViewBuildOptions,
    d: Placing,
    put: spec_fn(ViewShapeModel) -> PlacedModel,
) -> Seq<scene::ShapeModel> {
    if view_builder::build_error(bundle, options) is Some {
        Seq::empty()
    } else {
        drawn_shapes(view_builder::view_contribution(bundle, options, d), put)
    }
}

fn draw<P: Fn(&ViewShape) -> PlacedOutline>(shapes: &Vec<ViewShape>, outline: &P) -> (built: Scene)
    requires
        forall|shape: &ViewShape| #[trigger] outline.requires((shape,)),
    ensures
        forall|put: spec_fn(ViewShapeModel) -> PlacedModel| #[trigger]
            draws(*outline, put) ==> built@ == drawn_shapes(
                view_builder::view_shapes(shapes@),
                put,
            ),
{
    let mut made: Vec<RectShape> = Vec::new();
    let mut i: usize = 0;
    while i < shapes.len()
        invariant
            i <= shapes@.len(),
            made@.len() == i,
            forall|shape: &ViewShape| #[trigger] outline.requires((shape,)),
            forall|put: spec_fn(ViewShapeModel) -> PlacedModel, k: int|
                #![trigger draws(*outline, put), made@[k]]
                draws(*outline, put) && 0 <= k < i ==> made@[k]@ == drawn_shape(
                    shapes@[k]@,
                    put(shapes@[k]@),
                ),
        decreases shapes@.len() - i,
    {
        let shape = &shapes[i];
        let placed = outline(shape);
        assert(outline.ensures((shape,), placed));
        let ghost told = placed@;
        let ghost before = made@;
        made.push(
            RectShape {
                layer: shape.layer,
                hierarchy_level: shape.hierarchy_level,
                bounds: placed.bounds,
                points: placed.points,
                closed: shape.closed,
                stroke_width_world: placed.stroke_width_world,
            },
        );
        proof {
            assert forall|put: spec_fn(ViewShapeModel) -> PlacedModel, k: int|
                #![trigger draws(*outline, put), made@[k]]
                draws(*outline, put) && 0 <= k < i + 1 implies made@[k]@ == drawn_shape(
                shapes@[k]@,
                put(shapes@[k]@),
            ) by {
                if k < i {
                    assert(made@[k] == before[k]);
                } else {
                    assert(told == put(shapes@[k]@));
                    assert(made@[k]@ == drawn_shape(shapes@[k]@, told));
                }
            }
        }
        i += 1;
    }
    proof {
        assert forall|put: spec_fn(ViewShapeModel) -> PlacedModel| #[trigger]
            draws(*outline, put) implies scene::shape_models(made@) == drawn_shapes(
            view_builder::view_shapes(shapes@),
            put,
        ) by {
            assert(scene::shape_models(made@) =~= drawn_shapes(
                view_builder::view_shapes(shapes@),
                put,
            ));
        }
    }
    Scene::from_shapes(made)
}

/// The scene that a view shows; a view that cannot be built shows nothing.
///
/// `world`, `shape` and `small` are as for the walk; `outline` gives the points of a shape of the
/// view.
pub fn build_workset<
    W: Fn(&Vec<PlacementStep>, Bounds) -> Bounds,
    B: Fn(&Vec<PlacementStep>, LayoutCellId, usize) -> Bounds,
    S: Fn(Bounds, SubtreeScreenLod) -> bool,
    P: Fn(&ViewShape) -> PlacedOutline,
>(
    bundle: &LayoutBundle,
    options: LayoutViewBuildOptions,
    world: &W,
    shape: &B,
    small: &S,
    outline: &P,
) -> (built: Scene)
    requires
        view_builder::answers(*world, *shape, *small),
        forall|shape: &ViewShape| #[trigger] outline.requires((shape,)),
    ensures
        forall|d: Placing, put: spec_fn(ViewShapeModel) -> PlacedModel|
            #![trigger view_builder::places(*world, *shape, *small, d), draws(*outline, put)]
            view_builder::places(*world, *shape, *small, d) && draws(*outline, put) ==> built@
                == workset(*bundle, options, d, put),
{
    match build_layout_view_scene(bundle, options, world, shape, small) {
        Ok(shapes) => draw(&shapes, outline),
        Err(error) => {
            assert(view_builder::build_error(*bundle, options) is Some);
            Scene::empty()
        },
    }
}

/// Whether a shape is one that the view is asked for.
pub open spec fn is_wanted(options: LayoutViewBuildOptions, shape: ViewShapeModel) -> bool {
    &&& options.min_hierarchy_level <= shape.hierarchy_level <= options.max_hierarchy_level
    &&& shape.path.len() == shape.hierarchy_level
    &&& view_builder::counts_as_visible(Some(shape.bounds), options.visible_world_bounds)
    &&& shape.shape_index is Some && options.layer_filter is Some ==> shape.layer
        == options.layer_filter->0
    &&& shape.shape_index is None ==> options.subtree_screen_lod is Some && !shape.closed
}

/// Whether all shapes are such that the view is asked for.
spec fn all_wanted(options: LayoutViewBuildOptions, shapes: Seq<ViewShapeModel>) -> bool {
    forall|k: int| 0 <= k < shapes.len() ==> is_wanted(options, #[trigger] shapes[k])
}

proof fn lemma_own_wanted(
    bundle: LayoutBundle,
    options: LayoutViewBuildOptions,
    d: Placing,
    path: Seq<PlacementStep>,
    id: LayoutCellId,
    level: u32,
    count: nat,
)
    requires
        path.len() == level,
    ensures
        all_wanted(
            options,
            view_builder::own_contribution(bundle, options, d, path, id, level, count),
        ),
    decreases count,
{
    if count > 0 {
        lemma_own_wanted(bundle, options, d, path, id, level, (count - 1) as nat);
    }
}

proof fn lemma_cell_wanted(
    bundle: LayoutBundle,
    options: LayoutViewBuildOptions,
    d: Placing,
    path: Seq<PlacementStep>,
    id: LayoutCellId,
    level: u32,
)
    requires
        path.len() == level,
        level <= options.max_hierarchy_level,
    ensures
        all_wanted(
            options,
            view_builder::cell_contribution(bundle, options, d, path, id, level),
        ),
    decreases options.max_hierarchy_level - level, 4nat, 0nat,
{
    lemma_own_wanted(bundle, options, d, path, id, level, bundle.at(id).shapes.len());
    if level < options.max_hierarchy_level {
        lemma_instances_wanted(
            bundle,
            options,
            d,
            path,
            id,
            level,
            bundle.at(id).instances.len(),
        );
    }
}

proof fn lemma_instances_wanted(
    bundle: LayoutBundle,
    options: LayoutViewBuildOptions,
    d: Placing,
    path: Seq<PlacementStep>,
    id: LayoutCellId,
    level: u32,
    count: nat,
)
    requires
        path.len() == level,
        level < options.max_hierarchy_level,
    ensures
        all_wanted(
            options,
            view_builder::instances_contribution(bundle, options, d, path, id, level, count),
        ),
    decreases options.max_hierarchy_level - level, 3nat, count,
{
    if count > 0 {
        lemma_instances_wanted(bundle, options, d, path, id, level, (count - 1) as nat);
        lemma_rows_wanted(
            bundle,
            options,
            d,
            path,
            id,
            level,
            count - 1,
            bundle.at(id).instances[count - 1].rows(),
        );
    }
}

proof fn lemma_rows_wanted(
    bundle: LayoutBundle,
    options: LayoutViewBuildOptions,
    d: Placing,
    path: Seq<PlacementStep>,
    id: LayoutCellId,
    level: u32,
    instance: int,
    rows: nat,
)
    requires
        path.len() == level,
        level < options.max_hierarchy_level,
    ensures
        all_wanted(
            options,
            view_builder::rows_contribution(bundle, options, d, path, id, level, instance, rows),
        ),
    decreases options.max_hierarchy_level - level, 2nat, rows,
{
    if rows > 0 {
        lemma_rows_wanted(bundle, options, d, path, id, level, instance, (rows - 1) as nat);
        lemma_columns_wanted(
            bundle,
            options,
            d,
            path,
            id,
            level,
            instance,
            rows - 1,
            bundle.at(id).instances[instance].columns(),
        );
    }
}

proof fn lemma_columns_wanted(
    bundle: LayoutBundle,
    options: LayoutViewBuildOptions,
    d: Placing,
    path: Seq<PlacementStep>,
    id: LayoutCellId,
    level: u32,
    instance: int,
    row: int,
    columns: nat,
)
    requires
        path.len() == level,
        level < options.max_hierarchy_level,
    ensures
        all_wanted(
            options,
            view_builder::columns_contribution(
                bundle,
                options,
                d,
                path,
                id,
                level,
                instance,
                row,
                columns,
            ),
        ),
    decreases options.max_hierarchy_level - level, 1nat, columns,
{
    if columns > 0 {
        lemma_columns_wanted(
            bundle,
            options,
            d,
            path,
            id,
            level,
            instance,
            row,
            (columns - 1) as nat,
        );
        lemma_copy_wanted(bundle, options, d, path, id, level, instance, row, columns - 1);
    }
}

proof fn lemma_copy_wanted(
    bundle: LayoutBundle,
    options: LayoutViewBuildOptions,
    d: Placing,
    path: Seq<PlacementStep>,
    id: LayoutCellId,
    level: u32,
    instance: int,
    row: int,
    col: int,
)
    requires
        path.len() == level,
        level < options.max_hierarchy_level,
    ensures
        all_wanted(
            options,
            view_builder::copy_contribution(
                bundle,
                options,
                d,
                path,
                id,
                level,
                instance,
                row,
                col,
            ),
        ),
    decreases options.max_hierarchy_level - level, 0nat, 0nat,
{
    let target = bundle.at(id).instances[instance].target_cell_id;
    if bundle.has(target) {
        let inner = path.push(
            PlacementStep { instance: instance as usize, row: row as u32, col: col as u32 },
        );
        let below = (level + 1) as u32;
        lemma_cell_wanted(bundle, options, d, inner, target, below);
    }
}

/// Every shape of a view is one that the view is asked for: its level lies in the range, as deep
/// as the path that leads to it; it meets the visible rectangle; a shape of a cell is on the
/// wanted layer; and only a view that may leave small cells closed holds marks, which are open
/// lines.
pub proof fn law_view_holds_what_is_wanted(
    bundle: LayoutBundle,
    options: LayoutViewBuildOptions,
    d: Placing,
    k: int,
)
    requires
        0 <= k < view_builder::view_contribution(bundle, options, d).len(),
        options.min_hierarchy_level <= options.max_hierarchy_level,
    ensures
        is_wanted(options, view_builder::view_contribution(bundle, options, d)[k]),
{
    lemma_cell_wanted(bundle, options, d, Seq::empty(), options.root_cell_id, 0);
}

} // verus!
