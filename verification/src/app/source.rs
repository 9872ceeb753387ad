//! What is shown of the layout that is open.

use crate::coords;
use crate::coords::key_at_most;
use crate::app::{
    recommended_initial_hierarchy_level_range, HIERARCHICAL_SUBTREE_MIN_COLLAPSE_LEVEL,
    HIERARCHICAL_SUBTREE_MIN_SCREEN_EXTENT,
};
use crate::app;
use crate::camera::{Camera2D, CameraModel};
use crate::hierarchy;
use crate::hierarchy::{
    collect_layout_layers_for_range, compute_layout_root_max_hierarchy_level,
    estimated_layout_range_cost, recommended_initial_hierarchy_level_range_for_layout,
    should_use_direct_hierarchy_tile_render,
};
use crate::layers;
use crate::layout::{LayoutBundle, LayoutCellId};
use crate::scene;
use crate::scene::{
    Bounds, LayerId, PlacedModel, PlacedOutline, Point, Scene, SceneBundle, SceneView,
};
use crate::view_builder;
use crate::view_builder::{
    LayoutViewBuildOptions, PlacementStep, Placing, SubtreeScreenLod, ViewShape, ViewShapeModel,
};
use crate::workset;
use crate::workset::build_workset;
use std::sync::Arc;
use vstd::prelude::*;

verus! {

/// The layout that is open: the views of a file, and the layout itself where it is not flattened.
#[derive(Debug)]
pub struct LayoutSource {
    pub scene_bundle: SceneBundle,
    pub layout_bundle: Option<LayoutBundle>,
}

/// Whether what the layout holds can be counted.
pub open spec fn is_countable(source: LayoutSource) -> bool {
    source.layout_bundle matches Some(bundle) ==> {
        &&& hierarchy::countable(bundle)
        &&& bundle.listed().len() < u32::MAX
    }
}

/// The levels that are shown.
#[derive(Debug, Clone, Copy, PartialEq, Eq, Structural)]
pub struct LevelRange {
    pub min_level: u32,
    pub max_level: u32,
    /// The deepest level that there is.
    pub deepest: u32,
    /// Whether the range has been chosen for this session.
    pub chosen: bool,
}

/// The range within the levels that there are, its end no higher than its start.
pub open spec fn clamped_levels(levels: LevelRange) -> LevelRange {
    let min_level = if levels.min_level <= levels.deepest {
        levels.min_level
    } else {
        levels.deepest
    };
    let last = if levels.max_level <= levels.deepest {
        levels.max_level
    } else {
        levels.deepest
    };
    LevelRange {
        min_level,
        max_level: if last >= min_level {
            last
        } else {
            min_level
        },
        ..levels
    }
}

/// The range within the levels that there are, its end no higher than its start.
pub fn clamp_levels(levels: LevelRange) -> (clamped: LevelRange)
    ensures
        clamped == clamped_levels(levels),
        clamped.min_level <= clamped.max_level <= clamped.deepest,
{
    let min_level: u32 = if levels.min_level <= levels.deepest {
        levels.min_level
    } else {
        levels.deepest
    };
    let last: u32 = if levels.max_level <= levels.deepest {
        levels.max_level
    } else {
        levels.deepest
    };
    LevelRange {
        min_level,
        max_level: if last >= min_level {
            last
        } else {
            min_level
        },
        ..levels
    }
}

/// A range that was brought within the levels stays as it is, and one that lay within them was
/// never changed.
pub proof fn law_clamped_levels(levels: LevelRange)
    ensures
        clamped_levels(clamped_levels(levels)) == clamped_levels(levels),
        levels.min_level <= levels.max_level <= levels.deepest ==> clamped_levels(levels) == levels,
{
}

/// The scene of the selected view, or an empty one.
pub open spec fn selected_scene(source: LayoutSource) -> Seq<scene::ShapeModel> {
    let bundle = source.scene_bundle;
    if bundle.selection() < bundle.listed().len() {
        bundle.listed()[bundle.selection() as int].scene@
    } else {
        Seq::empty()
    }
}

/// The cell from which the selected view starts, where there is one.
pub open spec fn selected_root(bundle: LayoutBundle) -> Option<LayoutCellId> {
    if bundle.selection() < bundle.view_list().len() {
        Some(bundle.view_list()[bundle.selection() as int].about().root())
    } else {
        None
    }
}

/// The deepest level of the selected view.
pub open spec fn source_depth(source: LayoutSource) -> int {
    match source.layout_bundle {
        Some(bundle) => match selected_root(bundle) {
            Some(root) => hierarchy::depth_below(bundle, root, Map::empty(), Set::empty()).0,
            None => 0,
        },
        None => scene::deepest_level(selected_scene(source)) as int,
    }
}

/// The last level that the selected view shows at first.
pub open spec fn source_first_max_level(source: LayoutSource, deepest: u32) -> int {
    match source.layout_bundle {
        Some(bundle) => match selected_root(bundle) {
            Some(root) => {
                let levels = hierarchy::level_costs(bundle, root);
                if levels.len() > 0 && hierarchy::affordable_level(levels) < deepest {
                    hierarchy::affordable_level(levels)
                } else {
                    deepest as int
                }
            },
            None => deepest as int,
        },
        None => app::first_max_level(selected_scene(source)),
    }
}

/// The levels that are shown of a view that has just been opened: those that it shows at first
/// where that is asked for or none have been chosen yet, else those chosen, brought within the
/// levels that there are.
pub open spec fn opened_levels(
    source: LayoutSource,
    levels: LevelRange,
    recompute_defaults: bool,
) -> LevelRange {
    if recompute_defaults || !levels.chosen {
        LevelRange {
            min_level: 0,
            max_level: source_first_max_level(source, levels.deepest) as u32,
            deepest: levels.deepest,
            chosen: true,
        }
    } else {
        clamped_levels(levels)
    }
}

/// A bundle of empty scenes that are called as the views of the layout, the same one selected.
pub fn placeholder_scene_bundle_from_layout_bundle(layout_bundle: &LayoutBundle) -> (bundle:
    SceneBundle)
    ensures
        bundle.listed().len() == layout_bundle.view_list().len(),
        forall|i: int|
            0 <= i < bundle.listed().len() ==> (#[trigger] bundle.listed()[i]).name@
                == layout_bundle.view_list()[i].about().name_chars() && bundle.listed()[i].scene@
                == Seq::<scene::ShapeModel>::empty(),
        bundle.selection() == (if layout_bundle.selection() < layout_bundle.view_list().len() {
            layout_bundle.selection()
        } else {
            0
        }),
{
    let views = layout_bundle.views();
    let mut named: Vec<SceneView> = Vec::new();
    let mut i: usize = 0;
    while i < views.len()
        invariant
            i <= views@.len(),
            views@ == layout_bundle.view_list(),
            named@.len() == i,
            forall|k: int|
                0 <= k < i ==> (#[trigger] named@[k]).name@ == views@[k].about().name_chars()
                    && named@[k].scene@ == Seq::<scene::ShapeModel>::empty(),
        decreases views@.len() - i,
    {
        named.push(
            SceneView {
                name: String::from_str(views[i].metadata().name()),
                scene: Arc::new(Scene::empty()),
            },
        );
        i += 1;
    }
    let mut bundle = SceneBundle::new(named);
    let _changed = bundle.select(layout_bundle.selected_index());
    bundle
}

impl LayoutSource {
    /// The deepest level of the selected view.
    pub fn available_max_hierarchy_level(&self) -> (level: u32)
        requires
            is_countable(*self),
        ensures
            level == source_depth(*self),
    {
        match &self.layout_bundle {
            Some(bundle) => match bundle.selected_root_metadata() {
                Some(metadata) => compute_layout_root_max_hierarchy_level(
                    bundle,
                    metadata.root_cell_id(),
                ),
                None => 0,
            },
            None => match self.scene_bundle.current_scene() {
                Some(scene) => scene.max_hierarchy_level(),
                None => 0,
            },
        }
    }

    /// The levels that are shown of a view that has just been opened.
    pub fn initialize_or_clamp_hierarchy_level_range(
        &self,
        levels: LevelRange,
        recompute_defaults: bool,
    ) -> (opened: LevelRange)
        requires
            is_countable(*self),
        ensures
            opened == opened_levels(*self, levels, recompute_defaults),
            opened.deepest == levels.deepest,
    {
        if recompute_defaults || !levels.chosen {
            let range: (u32, u32) = match &self.layout_bundle {
                Some(bundle) => match bundle.selected_root_metadata() {
                    Some(metadata) => recommended_initial_hierarchy_level_range_for_layout(
                        bundle,
                        metadata.root_cell_id(),
                        levels.deepest,
                    ),
                    None => (0, levels.deepest),
                },
                None => match self.scene_bundle.current_scene() {
                    Some(scene) => recommended_initial_hierarchy_level_range(scene),
                    None => recommended_initial_hierarchy_level_range(&Scene::empty()),
                },
            };
            LevelRange {
                min_level: range.0,
                max_level: range.1,
                deepest: levels.deepest,
                chosen: true,
            }
        } else {
            clamp_levels(levels)
        }
    }
}

/// From where the layout is seen.
#[derive(Debug, Clone, Copy, PartialEq, Eq, Structural)]
pub struct Viewpoint {
    pub camera: Camera2D,
    /// The size of the picture, in coordinate keys.
    pub canvas_size: Point,
    /// Whether the camera has been set for the layout.
    pub initialized: bool,
}

/// Whether a picture has width and height: neither is nought or less.
pub open spec fn has_area(canvas_size: Point) -> bool {
    !coords::at_most(canvas_size.x, 0) && !coords::at_most(canvas_size.y, 0)
}

/// Whether a picture has width and height.
pub fn picture_has_area(canvas_size: Point) -> (held: bool)
    ensures
        held == has_area(canvas_size),
{
    !key_at_most(canvas_size.x, 0) && !key_at_most(canvas_size.y, 0)
}

/// What a camera sees: the rectangle itself, and with a margin around it.
#[derive(Debug, Clone, Copy, PartialEq, Eq, Structural)]
pub struct Sight {
    pub visible: Bounds,
    pub with_margin: Bounds,
}

/// The functions that compute what the viewer decides upon.
///
/// `world`, `shape` and `outline` place rectangles, shapes and outlines along a path from a cell,
/// and `outline` gives the mark of a cell that is too small to be opened; `small` tells whether a rectangle is small on the screen; `sight` tells what a camera sees in
/// a picture of some size; `drifted` tells whether a zoom has left another too far behind.
pub struct ViewerMath<W, B, S, P, V, D> {
    pub world: W,
    pub shape: B,
    pub small: S,
    pub outline: P,
    pub sight: V,
    pub drifted: D,
}

/// What the functions compute.
pub struct ViewerRules {
    pub world: spec_fn(LayoutCellId, Seq<PlacementStep>, Bounds) -> Bounds,
    pub shape: spec_fn(LayoutCellId, Seq<PlacementStep>, LayoutCellId, int) -> Bounds,
    pub small: spec_fn(Bounds, SubtreeScreenLod) -> bool,
    pub outline: spec_fn(LayoutCellId, Option<SubtreeScreenLod>, ViewShapeModel) -> PlacedModel,
    pub sight: spec_fn(CameraModel, Point) -> Sight,
    pub drifted: spec_fn(i32, i32) -> bool,
}

/// Whether the functions can be asked about everything.
pub open spec fn can_compute<
    W: Fn(LayoutCellId, &Vec<PlacementStep>, Bounds) -> Bounds,
    B: Fn(LayoutCellId, &Vec<PlacementStep>, LayoutCellId, usize) -> Bounds,
    S: Fn(Bounds, SubtreeScreenLod) -> bool,
    P: Fn(LayoutCellId, Option<SubtreeScreenLod>, &ViewShape) -> PlacedOutline,
    V: Fn(Camera2D, Point) -> Sight,
    D: Fn(i32, i32) -> bool,
>(math: ViewerMath<W, B, S, P, V, D>) -> bool {
    &&& forall|root: LayoutCellId, path: &Vec<PlacementStep>, local: Bounds| #[trigger]
        math.world.requires((root, path, local))
    &&& forall|root: LayoutCellId, path: &Vec<PlacementStep>, id: LayoutCellId, index: usize|
        #[trigger] math.shape.requires((root, path, id, index))
    &&& forall|bounds: Bounds, lod: SubtreeScreenLod| #[trigger] math.small.requires((bounds, lod))
    &&& forall|root: LayoutCellId, lod: Option<SubtreeScreenLod>, shape: &ViewShape| #[trigger]
        math.outline.requires((root, lod, shape))
    &&& forall|camera: Camera2D, canvas_size: Point| #[trigger]
        math.sight.requires((camera, canvas_size))
    &&& forall|now: i32, before: i32| #[trigger] math.drifted.requires((now, before))
}

/// Whether the functions compute by these rules.
pub open spec fn computes<
    W: Fn(LayoutCellId, &Vec<PlacementStep>, Bounds) -> Bounds,
    B: Fn(LayoutCellId, &Vec<PlacementStep>, LayoutCellId, usize) -> Bounds,
    S: Fn(Bounds, SubtreeScreenLod) -> bool,
    P: Fn(LayoutCellId, Option<SubtreeScreenLod>, &ViewShape) -> PlacedOutline,
    V: Fn(Camera2D, Point) -> Sight,
    D: Fn(i32, i32) -> bool,
>(math: ViewerMath<W, B, S, P, V, D>, rules: ViewerRules) -> bool {
    &&& forall|root: LayoutCellId, path: &Vec<PlacementStep>, local: Bounds, r: Bounds| #[trigger]
        math.world.ensures((root, path, local), r) ==> r == (rules.world)(root, path@, local)
    &&& forall|
        root: LayoutCellId,
        path: &Vec<PlacementStep>,
        id: LayoutCellId,
        index: usize,
        r: Bounds,
    | #[trigger]
        math.shape.ensures((root, path, id, index), r) ==> r == (rules.shape)(
            root,
            path@,
            id,
            index as int,
        )
    &&& forall|bounds: Bounds, lod: SubtreeScreenLod, r: bool| #[trigger]
        math.small.ensures((bounds, lod), r) ==> r == (rules.small)(bounds, lod)
    &&& forall|
        root: LayoutCellId,
        lod: Option<SubtreeScreenLod>,
        shape: &ViewShape,
        r: PlacedOutline,
    | #[trigger]
        math.outline.ensures((root, lod, shape), r) ==> r@ == (rules.outline)(root, lod, shape@)
    &&& forall|camera: Camera2D, canvas_size: Point, r: Sight| #[trigger]
        math.sight.ensures((camera, canvas_size), r) ==> r == (rules.sight)(camera@, canvas_size)
    &&& forall|now: i32, before: i32, r: bool| #[trigger]
        math.drifted.ensures((now, before), r) ==> r == (rules.drifted)(now, before)
}

/// How rectangles are placed along paths from a cell.
pub open spec fn placing_from(rules: ViewerRules, root: LayoutCellId) -> Placing {
    Placing {
        world: |path: Seq<PlacementStep>, local: Bounds| (rules.world)(root, path, local),
        shape: |path: Seq<PlacementStep>, id: LayoutCellId, index: int|
            (rules.shape)(root, path, id, index),
        small: rules.small,
    }
}

/// How outlines are placed along paths from a cell.
pub open spec fn outlines_from(
    rules: ViewerRules,
    root: LayoutCellId,
    lod: Option<SubtreeScreenLod>,
) -> spec_fn(ViewShapeModel) -> PlacedModel {
    |shape: ViewShapeModel| (rules.outline)(root, lod, shape)
}

/// What is seen of a layout that is not flattened, once the camera has been set.
pub open spec fn layout_sight(viewpoint: Viewpoint, rules: ViewerRules) -> Option<Sight> {
    if viewpoint.initialized && has_area(viewpoint.canvas_size) {
        Some((rules.sight)(viewpoint.camera@, viewpoint.canvas_size))
    } else {
        None
    }
}

/// From which size on cells are entered, once the camera has been set.
pub open spec fn layout_lod(viewpoint: Viewpoint) -> Option<SubtreeScreenLod> {
    if viewpoint.initialized {
        Some(
            SubtreeScreenLod {
                world_to_screen_scale: viewpoint.camera@.zoom,
                min_subtree_screen_extent: HIERARCHICAL_SUBTREE_MIN_SCREEN_EXTENT,
                min_collapse_hierarchy_level: HIERARCHICAL_SUBTREE_MIN_COLLAPSE_LEVEL,
            },
        )
    } else {
        None
    }
}

/// The scene that is shown.
#[derive(Debug)]
pub struct ShownScene {
    pub scene: Arc<Scene>,
    pub layer_ids: Vec<LayerId>,
    /// The rectangle around what is shown.
    pub bounds_hint: Option<Bounds>,
    /// Whether the layout is drawn tile by tile without being flattened.
    pub tile_render_active: bool,
    /// The rectangle for which the scene was built.
    pub covered_bounds: Option<Bounds>,
    /// The zoom for which the scene was built.
    pub covered_zoom: Option<i32>,
}

/// What is shown.
pub struct ShownModel {
    pub scene: Seq<scene::ShapeModel>,
    pub layer_ids: Seq<LayerId>,
    pub bounds_hint: Option<Bounds>,
    pub tile_render_active: bool,
    pub covered_bounds: Option<Bounds>,
    pub covered_zoom: Option<i32>,
}

impl View for ShownScene {
    type V = ShownModel;

    open spec fn view(&self) -> ShownModel {
        ShownModel {
            scene: self.scene@,
            layer_ids: self.layer_ids@,
            bounds_hint: self.bounds_hint,
            tile_render_active: self.tile_render_active,
            covered_bounds: self.covered_bounds,
            covered_zoom: self.covered_zoom,
        }
    }
}

/// What is shown where a scene is shown.
pub open spec fn showing(
    scene: Seq<scene::ShapeModel>,
    covered_bounds: Option<Bounds>,
    covered_zoom: Option<i32>,
) -> ShownModel {
    ShownModel {
        scene,
        layer_ids: layers::ascending(scene::shape_layers(scene).to_set()),
        bounds_hint: scene::union_of(scene::shape_bounds(scene)),
        tile_render_active: false,
        covered_bounds,
        covered_zoom,
    }
}

/// The view that is built of a layout.
pub open spec fn workset_options(
    root: LayoutCellId,
    levels: LevelRange,
    viewpoint: Viewpoint,
    rules: ViewerRules,
) -> LayoutViewBuildOptions {
    LayoutViewBuildOptions {
        root_cell_id: root,
        min_hierarchy_level: levels.min_level,
        max_hierarchy_level: levels.max_level,
        visible_world_bounds: match layout_sight(viewpoint, rules) {
            Some(sight) => Some(sight.with_margin),
            None => None,
        },
        subtree_screen_lod: layout_lod(viewpoint),
        layer_filter: None,
    }
}

/// What is shown of the layout.
///
/// Of a flattened file these are the shapes of the selected scene on the levels that are shown. Of
/// a layout that is not flattened they are those of a view of the seen part, or, where that would
/// be too much, none at all, and the layout is drawn tile by tile.
pub open spec fn shown_of(
    source: LayoutSource,
    levels: LevelRange,
    viewpoint: Viewpoint,
    rules: ViewerRules,
) -> ShownModel {
    match source.layout_bundle {
        Some(bundle) => {
            let covered_bounds = match layout_sight(viewpoint, rules) {
                Some(sight) => Some(sight.with_margin),
                None => None,
            };
            let covered_zoom = if viewpoint.initialized {
                Some(viewpoint.camera@.zoom)
            } else {
                None
            };
            match selected_root(bundle) {
                Some(root) => {
                    let cost = hierarchy::range_cost(
                        hierarchy::level_costs(bundle, root),
                        levels.min_level,
                        levels.max_level,
                    );
                    if hierarchy::too_large_to_flatten(cost) {
                        ShownModel {
                            scene: Seq::empty(),
                            layer_ids: hierarchy::range_layers(
                                bundle,
                                root,
                                levels.min_level,
                                levels.max_level,
                            ),
                            bounds_hint: bundle.at(root).bounds,
                            tile_render_active: true,
                            covered_bounds,
                            covered_zoom,
                        }
                    } else {
                        showing(
                            workset::workset(
                                bundle,
                                workset_options(root, levels, viewpoint, rules),
                                placing_from(rules, root),
                                outlines_from(rules, root, layout_lod(viewpoint)),
                            ),
                            covered_bounds,
                            covered_zoom,
                        )
                    }
                },
                None => showing(Seq::empty(), covered_bounds, covered_zoom),
            }
        },
        None => {
            let base = selected_scene(source);
            showing(
                if levels.min_level == 0 && levels.max_level >= scene::deepest_level(base) {
                    base
                } else {
                    scene::on_levels(base, levels.min_level, levels.max_level)
                },
                None,
                None,
            )
        },
    }
}

fn sight_of<V: Fn(Camera2D, Point) -> Sight>(viewpoint: Viewpoint, sight: &V) -> (seen: Option<
    Sight,
>)
    requires
        forall|camera: Camera2D, canvas_size: Point| #[trigger]
            sight.requires((camera, canvas_size)),
    ensures
        seen is Some <==> viewpoint.initialized && has_area(viewpoint.canvas_size),
        seen matches Some(s) ==> sight.ensures((viewpoint.camera, viewpoint.canvas_size), s),
{
    if viewpoint.initialized && picture_has_area(viewpoint.canvas_size) {
        Some(sight(viewpoint.camera, viewpoint.canvas_size))
    } else {
        None
    }
}

fn lod_of(viewpoint: Viewpoint) -> (lod: Option<SubtreeScreenLod>)
    ensures
        lod == layout_lod(viewpoint),
{
    if viewpoint.initialized {
        Some(
            SubtreeScreenLod {
                world_to_screen_scale: viewpoint.camera.zoom(),
                min_subtree_screen_extent: HIERARCHICAL_SUBTREE_MIN_SCREEN_EXTENT,
                min_collapse_hierarchy_level: HIERARCHICAL_SUBTREE_MIN_COLLAPSE_LEVEL,
            },
        )
    } else {
        None
    }
}

/// The view that is built of a layout, without what is seen.
fn view_options(root: LayoutCellId, levels: LevelRange, viewpoint: Viewpoint) -> (options:
    LayoutViewBuildOptions)
    ensures
        options == (LayoutViewBuildOptions {
            root_cell_id: root,
            min_hierarchy_level: levels.min_level,
            max_hierarchy_level: levels.max_level,
            visible_world_bounds: None,
            subtree_screen_lod: layout_lod(viewpoint),
            layer_filter: None,
        }),
{
    let options = LayoutViewBuildOptions::new(root, levels.min_level, levels.max_level);
    match lod_of(viewpoint) {
        Some(lod) => options.with_subtree_screen_lod(
            lod.world_to_screen_scale,
            lod.min_subtree_screen_extent,
            lod.min_collapse_hierarchy_level,
        ),
        None => options,
    }
}

fn show(scene: Arc<Scene>, covered_bounds: Option<Bounds>, covered_zoom: Option<i32>) -> (shown:
    ShownScene)
    ensures
        shown@ == showing(scene@, covered_bounds, covered_zoom),
{
    let layer_ids = scene.layer_ids();
    let bounds_hint = scene.bounds();
    ShownScene {
        scene,
        layer_ids,
        bounds_hint,
        tile_render_active: false,
        covered_bounds,
        covered_zoom,
    }
}

fn build_from<
    W: Fn(LayoutCellId, &Vec<PlacementStep>, Bounds) -> Bounds,
    B: Fn(LayoutCellId, &Vec<PlacementStep>, LayoutCellId, usize) -> Bounds,
    S: Fn(Bounds, SubtreeScreenLod) -> bool,
    P: Fn(LayoutCellId, Option<SubtreeScreenLod>, &ViewShape) -> PlacedOutline,
    V: Fn(Camera2D, Point) -> Sight,
    D: Fn(i32, i32) -> bool,
>(
    bundle: &LayoutBundle,
    options: LayoutViewBuildOptions,
    math: &ViewerMath<W, B, S, P, V, D>,
) -> (built: Scene)
    requires
        can_compute(*math),
    ensures
        forall|rules: ViewerRules| #[trigger]
            computes(*math, rules) ==> built@ == workset::workset(
                *bundle,
                options,
                placing_from(rules, options.root_cell_id),
                outlines_from(rules, options.root_cell_id, options.subtree_screen_lod),
            ),
{
    let root = options.root_cell_id;
    let lod = options.subtree_screen_lod;
    let world = |path: &Vec<PlacementStep>, local: Bounds| -> (r: Bounds)
        ensures
            math.world.ensures((root, path, local), r),
        { (math.world)(root, path, local) };
    let shape = |path: &Vec<PlacementStep>, id: LayoutCellId, index: usize| -> (r: Bounds)
        ensures
            math.shape.ensures((root, path, id, index), r),
        { (math.shape)(root, path, id, index) };
    let outline = |shape: &ViewShape| -> (r: PlacedOutline)
        ensures
            math.outline.ensures((root, lod, shape), r),
        { (math.outline)(root, lod, shape) };
    let built = build_workset(bundle, options, &world, &shape, &math.small, &outline);
    proof {
        assert forall|rules: ViewerRules| #[trigger] computes(*math, rules) implies built@
            == workset::workset(
            *bundle,
            options,
            placing_from(rules, root),
            outlines_from(rules, root, lod),
        ) by {
            let d = placing_from(rules, root);
            let put = outlines_from(rules, root, lod);
            assert(view_builder::places(world, shape, math.small, d));
            assert(workset::draws(outline, put));
        }
    }
    built
}

/// What is shown of the layout, built anew.
pub fn rebuild_scene_from_source<
    W: Fn(LayoutCellId, &Vec<PlacementStep>, Bounds) -> Bounds,
    B: Fn(LayoutCellId, &Vec<PlacementStep>, LayoutCellId, usize) -> Bounds,
    S: Fn(Bounds, SubtreeScreenLod) -> bool,
    P: Fn(LayoutCellId, Option<SubtreeScreenLod>, &ViewShape) -> PlacedOutline,
    V: Fn(Camera2D, Point) -> Sight,
    D: Fn(i32, i32) -> bool,
>(
    source: &LayoutSource,
    levels: LevelRange,
    viewpoint: Viewpoint,
    math: &ViewerMath<W, B, S, P, V, D>,
) -> (shown: ShownScene)
    requires
        is_countable(*source),
        can_compute(*math),
    ensures
        forall|rules: ViewerRules| #[trigger]
            computes(*math, rules) ==> shown@ == shown_of(*source, levels, viewpoint, rules),
{
    match &source.layout_bundle {
        Some(bundle) => {
            let seen = sight_of(viewpoint, &math.sight);
            let covered_bounds: Option<Bounds> = match seen {
                Some(sight) => Some(sight.with_margin),
                None => None,
            };
            let covered_zoom: Option<i32> = if viewpoint.initialized {
                Some(viewpoint.camera.zoom())
            } else {
                None
            };
            assert forall|rules: ViewerRules| #[trigger] computes(*math, rules) implies seen
                == layout_sight(viewpoint, rules) by {}
            match bundle.selected_root_metadata() {
                Some(metadata) => {
                    let root = metadata.root_cell_id();
                    let cost = estimated_layout_range_cost(
                        bundle,
                        root,
                        levels.min_level,
                        levels.max_level,
                    );
                    if should_use_direct_hierarchy_tile_render(cost) {
                        let bounds_hint: Option<Bounds> = match bundle.selected_root_cell() {
                            Some(cell) => cell.local_bounds(),
                            None => None,
                        };
                        ShownScene {
                            scene: Arc::new(Scene::empty()),
                            layer_ids: collect_layout_layers_for_range(
                                bundle,
                                root,
                                levels.min_level,
                                levels.max_level,
                            ),
                            bounds_hint,
                            tile_render_active: true,
                            covered_bounds,
                            covered_zoom,
                        }
                    } else {
                        let options = view_options(
                            root,
                            levels,
                            viewpoint,
                        ).with_visible_world_bounds(covered_bounds);
                        assert forall|rules: ViewerRules| #[trigger]
                            computes(*math, rules) implies options == workset_options(
                            root,
                            levels,
                            viewpoint,
                            rules,
                        ) by {}
                        show(Arc::new(build_from(bundle, options, math)), covered_bounds, covered_zoom)
                    }
                },
                None => show(Arc::new(Scene::empty()), covered_bounds, covered_zoom),
            }
        },
        None => {
            let base: Arc<Scene> = match source.scene_bundle.current_scene_handle() {
                Some(scene) => scene,
                None => Arc::new(Scene::empty()),
            };
            assert(base@ == selected_scene(*source));
            if levels.min_level == 0 && levels.max_level >= base.max_hierarchy_level() {
                show(base, None, None)
            } else {
                show(
                    Arc::new(base.filtered_by_hierarchy_range(levels.min_level, levels.max_level)),
                    None,
                    None,
                )
            }
        },
    }
}

/// How the renderer takes over what is shown.
#[derive(Debug, Clone, Copy, PartialEq, Eq, Structural)]
pub enum RendererUpdate {
    /// It draws the scene.
    Scene,
    /// It draws the layout tile by tile.
    HierarchyTiles {
        options: LayoutViewBuildOptions,
        root_bounds: Bounds,
        total_shape_count: usize,
    },
}

/// How the renderer takes over what is shown.
pub open spec fn renderer_update(
    source: LayoutSource,
    levels: LevelRange,
    viewpoint: Viewpoint,
    shown: ShownModel,
) -> RendererUpdate {
    if source.layout_bundle is Some && shown.tile_render_active && selected_root(
        source.layout_bundle->0,
    ) is Some && shown.bounds_hint is Some {
        let bundle = source.layout_bundle->0;
        let root = selected_root(bundle)->0;
        RendererUpdate::HierarchyTiles {
            options: LayoutViewBuildOptions {
                root_cell_id: root,
                min_hierarchy_level: levels.min_level,
                max_hierarchy_level: levels.max_level,
                visible_world_bounds: None,
                subtree_screen_lod: layout_lod(viewpoint),
                layer_filter: None,
            },
            root_bounds: shown.bounds_hint->0,
            total_shape_count: hierarchy::range_cost(
                hierarchy::level_costs(bundle, root),
                levels.min_level,
                levels.max_level,
            ).shape_count as usize,
        }
    } else {
        RendererUpdate::Scene
    }
}

/// How the renderer takes over what is shown.
pub fn update_for_renderer(
    source: &LayoutSource,
    levels: LevelRange,
    viewpoint: Viewpoint,
    shown: &ShownScene,
) -> (update: RendererUpdate)
    requires
        is_countable(*source),
    ensures
        update == renderer_update(*source, levels, viewpoint, shown@),
{
    if !shown.tile_render_active {
        return RendererUpdate::Scene;
    }
    match &source.layout_bundle {
        Some(bundle) => match (bundle.selected_root_metadata(), shown.bounds_hint) {
            (Some(metadata), Some(root_bounds)) => {
                let root = metadata.root_cell_id();
                let cost = estimated_layout_range_cost(
                    bundle,
                    root,
                    levels.min_level,
                    levels.max_level,
                );
                RendererUpdate::HierarchyTiles {
                    options: view_options(root, levels, viewpoint),
                    root_bounds,
                    total_shape_count: cost.shape_count as usize,
                }
            },
            _ => RendererUpdate::Scene,
        },
        None => RendererUpdate::Scene,
    }
}

} // verus!
