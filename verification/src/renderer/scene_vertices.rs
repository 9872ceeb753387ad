//! The vertices of scenes, tiles and layouts.

use crate::layers::{LayerMap, LayerSet};
use crate::layout::{LayoutBundle, LayoutCellId};
use crate::renderer::drawing;
use crate::renderer::drawing::{draw_prepared_fragments, draw_scene_shapes, LayerRules};
use crate::renderer::fragments::{PreparedTileFragment, PreparedTileFragments};
use crate::renderer::geometry::{
    ClosedShapeDrawMode, HatchStylePreset, TileId, DEFAULT_HATCH_STYLE_PRESET,
};
use crate::renderer::grid::{
    query_visible_shape_indices, CellSpan, ShapeSpatialIndex, TileGridIndex,
};
use crate::renderer::polygon::{ClipEdge, Winding};
use crate::renderer::primitives;
use crate::renderer::primitives::{DrawMath, DrawRules};
use crate::renderer::tiles;
use crate::renderer::tiles::{draw_layout_tile, draw_scene_tile};
use crate::renderer::vertices;
use crate::renderer::vertices::{emit_vertices, LineVertex, PenMath, PenRules};
use crate::scene;
use crate::scene::{Bounds, LayerId, PlacedModel, PlacedOutline, Point, Scene};
use crate::view_builder;
use crate::view_builder::{
    LayoutViewBuildOptions, PlacementStep, Placing, SubtreeScreenLod, ViewShape, ViewShapeModel,
};
use crate::workset;
use vstd::prelude::*;

verus! {

/// The vertices of the shapes at these places, without those of hidden layers: all of each shape,
/// or what of it lies in a tile. `tile` is the tile on the screen, and `scaled` brings points
/// there.
pub fn build_scaled_scene_vertices_for_tile<
    N: Fn(Point, Point) -> bool,
    X: Fn(ClipEdge, Bounds, Point, Point) -> Point,
    C: Fn(Bounds, Point, Point) -> Option<(Point, Point)>,
    E: Fn(Bounds) -> i32,
    T: Fn(Bounds) -> usize,
    S: Fn(usize, usize, usize) -> usize,
    U: Fn(Bounds) -> usize,
    V: Fn(usize, usize, usize) -> usize,
    W: Fn(&Vec<Point>) -> Winding,
    B: Fn(&Vec<Point>, usize, usize, usize) -> bool,
    H: Fn(&Vec<Point>, usize, usize, usize, usize) -> bool,
    M: Fn(Bounds) -> (Point, Point, Point, Point),
    L: Fn(Bounds) -> (Point, Point),
    Z: Fn(Point) -> Point,
    P: Fn(Point, Point, i32) -> Option<(Point, Point, Point, Point)>,
    Q: Fn(i32) -> i32,
>(
    scene: &Scene,
    shape_indices: &Vec<usize>,
    hidden_layers: &LayerSet,
    layer_draw_modes: &LayerMap<ClosedShapeDrawMode>,
    draw_mode: ClosedShapeDrawMode,
    tile: Option<Bounds>,
    layer_hatch_styles: &LayerMap<HatchStylePreset>,
    hatch_style: HatchStylePreset,
    scaled: &Z,
    math: &DrawMath<N, X, C, E, T, S, U, V, W, B, H, M, L>,
    pen: &PenMath<P, Q>,
) -> (out: Vec<LineVertex>)
    requires
        forall|k: int| 0 <= k < shape_indices@.len() ==> (#[trigger] shape_indices@[k]) < scene@.len(),
        primitives::can_draw(*math),
        vertices::can_trace(*pen),
        forall|p: Point| #[trigger] scaled.requires((p,)),
    ensures
        forall|d: spec_fn(Point) -> Point, rules: DrawRules, strokes: PenRules|
            #![trigger drawing::scales(*scaled, d), primitives::draws_by(*math, rules), vertices::traces_by(*pen, strokes)]
            drawing::scales(*scaled, d) && primitives::draws_by(*math, rules)
                && vertices::traces_by(*pen, strokes) ==> out@ == vertices::vertices(
                drawing::drawn_shapes(
                    scene@,
                    shape_indices@,
                    (LayerRules {
                        hidden: hidden_layers@,
                        modes: layer_draw_modes@,
                        styles: layer_hatch_styles@,
                        mode: draw_mode,
                        style: hatch_style,
                    }),
                    tile,
                    d,
                    rules,
                ),
                strokes,
            ),
{
    let drawn = draw_scene_shapes(
        scene,
        shape_indices,
        hidden_layers,
        layer_draw_modes,
        layer_hatch_styles,
        draw_mode,
        hatch_style,
        tile,
        scaled,
        math,
    );
    emit_vertices(&drawn, pen)
}

/// The vertices of the shapes at these places, without those of hidden layers.
pub fn build_scaled_scene_vertices_for_indices_with_hatch_styles<
    N: Fn(Point, Point) -> bool,
    X: Fn(ClipEdge, Bounds, Point, Point) -> Point,
    C: Fn(Bounds, Point, Point) -> Option<(Point, Point)>,
    E: Fn(Bounds) -> i32,
    T: Fn(Bounds) -> usize,
    S: Fn(usize, usize, usize) -> usize,
    U: Fn(Bounds) -> usize,
    V: Fn(usize, usize, usize) -> usize,
    W: Fn(&Vec<Point>) -> Winding,
    B: Fn(&Vec<Point>, usize, usize, usize) -> bool,
    H: Fn(&Vec<Point>, usize, usize, usize, usize) -> bool,
    M: Fn(Bounds) -> (Point, Point, Point, Point),
    L: Fn(Bounds) -> (Point, Point),
    Z: Fn(Point) -> Point,
    P: Fn(Point, Point, i32) -> Option<(Point, Point, Point, Point)>,
    Q: Fn(i32) -> i32,
>(
    scene: &Scene,
    hidden_layers: &LayerSet,
    layer_draw_modes: &LayerMap<ClosedShapeDrawMode>,
    layer_hatch_styles: &LayerMap<HatchStylePreset>,
    shape_indices: &Vec<usize>,
    draw_mode: ClosedShapeDrawMode,
    hatch_style: HatchStylePreset,
    scaled: &Z,
    math: &DrawMath<N, X, C, E, T, S, U, V, W, B, H, M, L>,
    pen: &PenMath<P, Q>,
) -> (out: Vec<LineVertex>)
    requires
        forall|k: int| 0 <= k < shape_indices@.len() ==> (#[trigger] shape_indices@[k]) < scene@.len(),
        primitives::can_draw(*math),
        vertices::can_trace(*pen),
        forall|p: Point| #[trigger] scaled.requires((p,)),
    ensures
        forall|d: spec_fn(Point) -> Point, rules: DrawRules, strokes: PenRules|
            #![trigger drawing::scales(*scaled, d), primitives::draws_by(*math, rules), vertices::traces_by(*pen, strokes)]
            drawing::scales(*scaled, d) && primitives::draws_by(*math, rules)
                && vertices::traces_by(*pen, strokes) ==> out@ == vertices::vertices(
                drawing::drawn_shapes(
                    scene@,
                    shape_indices@,
                    (LayerRules {
                        hidden: hidden_layers@,
                        modes: layer_draw_modes@,
                        styles: layer_hatch_styles@,
                        mode: draw_mode,
                        style: hatch_style,
                    }),
                    None,
                    d,
                    rules,
                ),
                strokes,
            ),
{
    build_scaled_scene_vertices_for_tile(
        scene,
        shape_indices,
        hidden_layers,
        layer_draw_modes,
        draw_mode,
        None,
        layer_hatch_styles,
        hatch_style,
        scaled,
        math,
        pen,
    )
}

/// The vertices of the shapes at these places, without those of hidden layers, with the hatch
/// pattern that is used where none is asked for.
pub fn build_scaled_scene_vertices_for_indices<
    N: Fn(Point, Point) -> bool,
    X: Fn(ClipEdge, Bounds, Point, Point) -> Point,
    C: Fn(Bounds, Point, Point) -> Option<(Point, Point)>,
    E: Fn(Bounds) -> i32,
    T: Fn(Bounds) -> usize,
    S: Fn(usize, usize, usize) -> usize,
    U: Fn(Bounds) -> usize,
    V: Fn(usize, usize, usize) -> usize,
    W: Fn(&Vec<Point>) -> Winding,
    B: Fn(&Vec<Point>, usize, usize, usize) -> bool,
    H: Fn(&Vec<Point>, usize, usize, usize, usize) -> bool,
    M: Fn(Bounds) -> (Point, Point, Point, Point),
    L: Fn(Bounds) -> (Point, Point),
    Z: Fn(Point) -> Point,
    P: Fn(Point, Point, i32) -> Option<(Point, Point, Point, Point)>,
    Q: Fn(i32) -> i32,
>(
    scene: &Scene,
    hidden_layers: &LayerSet,
    layer_draw_modes: &LayerMap<ClosedShapeDrawMode>,
    shape_indices: &Vec<usize>,
    draw_mode: ClosedShapeDrawMode,
    scaled: &Z,
    math: &DrawMath<N, X, C, E, T, S, U, V, W, B, H, M, L>,
    pen: &PenMath<P, Q>,
) -> (out: Vec<LineVertex>)
    requires
        forall|k: int| 0 <= k < shape_indices@.len() ==> (#[trigger] shape_indices@[k]) < scene@.len(),
        primitives::can_draw(*math),
        vertices::can_trace(*pen),
        forall|p: Point| #[trigger] scaled.requires((p,)),
    ensures
        forall|d: spec_fn(Point) -> Point, rules: DrawRules, strokes: PenRules|
            #![trigger drawing::scales(*scaled, d), primitives::draws_by(*math, rules), vertices::traces_by(*pen, strokes)]
            drawing::scales(*scaled, d) && primitives::draws_by(*math, rules)
                && vertices::traces_by(*pen, strokes) ==> out@ == vertices::vertices(
                drawing::drawn_shapes(
                    scene@,
                    shape_indices@,
                    (LayerRules {
                        hidden: hidden_layers@,
                        modes: layer_draw_modes@,
                        styles: Map::empty(),
                        mode: draw_mode,
                        style: DEFAULT_HATCH_STYLE_PRESET,
                    }),
                    None,
                    d,
                    rules,
                ),
                strokes,
            ),
{
    let no_styles: LayerMap<HatchStylePreset> = LayerMap::new();
    build_scaled_scene_vertices_for_indices_with_hatch_styles(
        scene,
        hidden_layers,
        layer_draw_modes,
        &no_styles,
        shape_indices,
        draw_mode,
        DEFAULT_HATCH_STYLE_PRESET,
        scaled,
        math,
        pen,
    )
}

/// The vertices of the outlines of the shapes at these places, without those of hidden layers.
pub fn build_scaled_line_vertices_for_indices<
    N: Fn(Point, Point) -> bool,
    X: Fn(ClipEdge, Bounds, Point, Point) -> Point,
    C: Fn(Bounds, Point, Point) -> Option<(Point, Point)>,
    E: Fn(Bounds) -> i32,
    T: Fn(Bounds) -> usize,
    S: Fn(usize, usize, usize) -> usize,
    U: Fn(Bounds) -> usize,
    V: Fn(usize, usize, usize) -> usize,
    W: Fn(&Vec<Point>) -> Winding,
    B: Fn(&Vec<Point>, usize, usize, usize) -> bool,
    H: Fn(&Vec<Point>, usize, usize, usize, usize) -> bool,
    M: Fn(Bounds) -> (Point, Point, Point, Point),
    L: Fn(Bounds) -> (Point, Point),
    Z: Fn(Point) -> Point,
    P: Fn(Point, Point, i32) -> Option<(Point, Point, Point, Point)>,
    Q: Fn(i32) -> i32,
>(
    scene: &Scene,
    hidden_layers: &LayerSet,
    shape_indices: &Vec<usize>,
    scaled: &Z,
    math: &DrawMath<N, X, C, E, T, S, U, V, W, B, H, M, L>,
    pen: &PenMath<P, Q>,
) -> (out: Vec<LineVertex>)
    requires
        forall|k: int| 0 <= k < shape_indices@.len() ==> (#[trigger] shape_indices@[k]) < scene@.len(),
        primitives::can_draw(*math),
        vertices::can_trace(*pen),
        forall|p: Point| #[trigger] scaled.requires((p,)),
    ensures
        forall|d: spec_fn(Point) -> Point, rules: DrawRules, strokes: PenRules|
            #![trigger drawing::scales(*scaled, d), primitives::draws_by(*math, rules), vertices::traces_by(*pen, strokes)]
            drawing::scales(*scaled, d) && primitives::draws_by(*math, rules)
                && vertices::traces_by(*pen, strokes) ==> out@ == vertices::vertices(
                drawing::drawn_shapes(
                    scene@,
                    shape_indices@,
                    (LayerRules {
                        hidden: hidden_layers@,
                        modes: Map::empty(),
                        styles: Map::empty(),
                        mode: ClosedShapeDrawMode::Outline,
                        style: DEFAULT_HATCH_STYLE_PRESET,
                    }),
                    None,
                    d,
                    rules,
                ),
                strokes,
            ),
{
    let no_modes: LayerMap<ClosedShapeDrawMode> = LayerMap::new();
    build_scaled_scene_vertices_for_indices(
        scene,
        hidden_layers,
        &no_modes,
        shape_indices,
        ClosedShapeDrawMode::Outline,
        scaled,
        math,
        pen,
    )
}

/// The vertices of what is visible of a scene, without hidden layers. The visible area comes with
/// the cells of the index that it touches.
pub fn build_scene_vertices<
    N: Fn(Point, Point) -> bool,
    X: Fn(ClipEdge, Bounds, Point, Point) -> Point,
    C: Fn(Bounds, Point, Point) -> Option<(Point, Point)>,
    E: Fn(Bounds) -> i32,
    T: Fn(Bounds) -> usize,
    S: Fn(usize, usize, usize) -> usize,
    U: Fn(Bounds) -> usize,
    V: Fn(usize, usize, usize) -> usize,
    W: Fn(&Vec<Point>) -> Winding,
    B: Fn(&Vec<Point>, usize, usize, usize) -> bool,
    H: Fn(&Vec<Point>, usize, usize, usize, usize) -> bool,
    M: Fn(Bounds) -> (Point, Point, Point, Point),
    L: Fn(Bounds) -> (Point, Point),
    Z: Fn(Point) -> Point,
    P: Fn(Point, Point, i32) -> Option<(Point, Point, Point, Point)>,
    Q: Fn(i32) -> i32,
>(
    scene: &Scene,
    index: &ShapeSpatialIndex,
    visible_world_bounds: Bounds,
    area: CellSpan,
    hidden_layers: &LayerSet,
    layer_draw_modes: &LayerMap<ClosedShapeDrawMode>,
    draw_mode: ClosedShapeDrawMode,
    scaled: &Z,
    math: &DrawMath<N, X, C, E, T, S, U, V, W, B, H, M, L>,
    pen: &PenMath<P, Q>,
) -> (out: Vec<LineVertex>)
    requires
        index.len() == scene@.len(),
        primitives::can_draw(*math),
        vertices::can_trace(*pen),
        forall|p: Point| #[trigger] scaled.requires((p,)),
    ensures
        forall|d: spec_fn(Point) -> Point, rules: DrawRules, strokes: PenRules|
            #![trigger drawing::scales(*scaled, d), primitives::draws_by(*math, rules), vertices::traces_by(*pen, strokes)]
            drawing::scales(*scaled, d) && primitives::draws_by(*math, rules)
                && vertices::traces_by(*pen, strokes) ==> out@ == vertices::vertices(
                drawing::drawn_shapes(
                    scene@,
                    index.visible(*scene, visible_world_bounds, area, scene@.len()),
                    (LayerRules {
                        hidden: hidden_layers@,
                        modes: layer_draw_modes@,
                        styles: Map::empty(),
                        mode: draw_mode,
                        style: DEFAULT_HATCH_STYLE_PRESET,
                    }),
                    None,
                    d,
                    rules,
                ),
                strokes,
            ),
{
    let visible = query_visible_shape_indices(scene, index, visible_world_bounds, area);
    let count: usize = scene.shapes().len();
    proof {
        assert(count == scene@.len());
        lemma_visible_in_scene(*index, *scene, visible_world_bounds, area, scene@.len());
    }
    build_scaled_scene_vertices_for_indices(
        scene,
        hidden_layers,
        layer_draw_modes,
        &visible,
        draw_mode,
        scaled,
        math,
        pen,
    )
}

/// The vertices of the outlines of what is visible of a scene, without hidden layers.
pub fn build_line_vertices<
    N: Fn(Point, Point) -> bool,
    X: Fn(ClipEdge, Bounds, Point, Point) -> Point,
    C: Fn(Bounds, Point, Point) -> Option<(Point, Point)>,
    E: Fn(Bounds) -> i32,
    T: Fn(Bounds) -> usize,
    S: Fn(usize, usize, usize) -> usize,
    U: Fn(Bounds) -> usize,
    V: Fn(usize, usize, usize) -> usize,
    W: Fn(&Vec<Point>) -> Winding,
    B: Fn(&Vec<Point>, usize, usize, usize) -> bool,
    H: Fn(&Vec<Point>, usize, usize, usize, usize) -> bool,
    M: Fn(Bounds) -> (Point, Point, Point, Point),
    L: Fn(Bounds) -> (Point, Point),
    Z: Fn(Point) -> Point,
    P: Fn(Point, Point, i32) -> Option<(Point, Point, Point, Point)>,
    Q: Fn(i32) -> i32,
>(
    scene: &Scene,
    index: &ShapeSpatialIndex,
    visible_world_bounds: Bounds,
    area: CellSpan,
    hidden_layers: &LayerSet,
    scaled: &Z,
    math: &DrawMath<N, X, C, E, T, S, U, V, W, B, H, M, L>,
    pen: &PenMath<P, Q>,
) -> (out: Vec<LineVertex>)
    requires
        index.len() == scene@.len(),
        primitives::can_draw(*math),
        vertices::can_trace(*pen),
        forall|p: Point| #[trigger] scaled.requires((p,)),
    ensures
        forall|d: spec_fn(Point) -> Point, rules: DrawRules, strokes: PenRules|
            #![trigger drawing::scales(*scaled, d), primitives::draws_by(*math, rules), vertices::traces_by(*pen, strokes)]
            drawing::scales(*scaled, d) && primitives::draws_by(*math, rules)
                && vertices::traces_by(*pen, strokes) ==> out@ == vertices::vertices(
                drawing::drawn_shapes(
                    scene@,
                    index.visible(*scene, visible_world_bounds, area, scene@.len()),
                    (LayerRules {
                        hidden: hidden_layers@,
                        modes: Map::empty(),
                        styles: Map::empty(),
                        mode: ClosedShapeDrawMode::Outline,
                        style: DEFAULT_HATCH_STYLE_PRESET,
                    }),
                    None,
                    d,
                    rules,
                ),
                strokes,
            ),
{
    let no_modes: LayerMap<ClosedShapeDrawMode> = LayerMap::new();
    build_scene_vertices(
        scene,
        index,
        visible_world_bounds,
        area,
        hidden_layers,
        &no_modes,
        ClosedShapeDrawMode::Outline,
        scaled,
        math,
        pen,
    )
}

/// The shapes that a query finds are shapes of the scene.
proof fn lemma_visible_in_scene(
    index: ShapeSpatialIndex,
    scene: Scene,
    visible: Bounds,
    area: CellSpan,
    count: nat,
)
    requires
        count <= scene@.len(),
        scene@.len() <= usize::MAX,
    ensures
        forall|k: int|
            0 <= k < index.visible(scene, visible, area, count).len() ==> (#[trigger] index.visible(
                scene,
                visible,
                area,
                count,
            )[k]) < count,
    decreases count,
{
    if count > 0 {
        lemma_visible_in_scene(index, scene, visible, area, (count - 1) as nat);
        let rest = index.visible(scene, visible, area, (count - 1) as nat);
        let all = index.visible(scene, visible, area, count);
        assert forall|k: int| 0 <= k < all.len() implies (#[trigger] all[k]) < count by {
            if k < rest.len() {
                assert(rest[k] < count - 1);
                assert(all[k] == rest[k]);
            }
        }
    }
}

/// The vertices of pieces that were cut to their tile earlier, without those of hidden layers.
pub fn build_scaled_scene_vertices_for_prepared_fragments_with_hatch_styles<
    N: Fn(Point, Point) -> bool,
    X: Fn(ClipEdge, Bounds, Point, Point) -> Point,
    C: Fn(Bounds, Point, Point) -> Option<(Point, Point)>,
    E: Fn(Bounds) -> i32,
    T: Fn(Bounds) -> usize,
    S: Fn(usize, usize, usize) -> usize,
    U: Fn(Bounds) -> usize,
    V: Fn(usize, usize, usize) -> usize,
    W: Fn(&Vec<Point>) -> Winding,
    B: Fn(&Vec<Point>, usize, usize, usize) -> bool,
    H: Fn(&Vec<Point>, usize, usize, usize, usize) -> bool,
    M: Fn(Bounds) -> (Point, Point, Point, Point),
    L: Fn(Bounds) -> (Point, Point),
    Z: Fn(Point) -> Point,
    P: Fn(Point, Point, i32) -> Option<(Point, Point, Point, Point)>,
    Q: Fn(i32) -> i32,
>(
    fragments: &Vec<PreparedTileFragment>,
    hidden_layers: &LayerSet,
    layer_draw_modes: &LayerMap<ClosedShapeDrawMode>,
    layer_hatch_styles: &LayerMap<HatchStylePreset>,
    draw_mode: ClosedShapeDrawMode,
    hatch_style: HatchStylePreset,
    scaled: &Z,
    math: &DrawMath<N, X, C, E, T, S, U, V, W, B, H, M, L>,
    pen: &PenMath<P, Q>,
) -> (out: Vec<LineVertex>)
    requires
        primitives::can_draw(*math),
        vertices::can_trace(*pen),
        forall|p: Point| #[trigger] scaled.requires((p,)),
    ensures
        forall|d: spec_fn(Point) -> Point, rules: DrawRules, strokes: PenRules|
            #![trigger drawing::scales(*scaled, d), primitives::draws_by(*math, rules), vertices::traces_by(*pen, strokes)]
            drawing::scales(*scaled, d) && primitives::draws_by(*math, rules)
                && vertices::traces_by(*pen, strokes) ==> out@ == vertices::vertices(
                drawing::drawn_fragments(
                    fragments@,
                    (LayerRules {
                        hidden: hidden_layers@,
                        modes: layer_draw_modes@,
                        styles: layer_hatch_styles@,
                        mode: draw_mode,
                        style: hatch_style,
                    }),
                    d,
                    rules,
                ),
                strokes,
            ),
{
    let drawn = draw_prepared_fragments(
        fragments,
        hidden_layers,
        layer_draw_modes,
        layer_hatch_styles,
        draw_mode,
        hatch_style,
        scaled,
        math,
    );
    emit_vertices(&drawn, pen)
}

/// The vertices of pieces that were cut to their tile earlier, without those of hidden layers, with
/// the hatch pattern that is used where none is asked for.
pub fn build_scaled_scene_vertices_for_prepared_fragments<
    N: Fn(Point, Point) -> bool,
    X: Fn(ClipEdge, Bounds, Point, Point) -> Point,
    C: Fn(Bounds, Point, Point) -> Option<(Point, Point)>,
    E: Fn(Bounds) -> i32,
    T: Fn(Bounds) -> usize,
    S: Fn(usize, usize, usize) -> usize,
    U: Fn(Bounds) -> usize,
    V: Fn(usize, usize, usize) -> usize,
    W: Fn(&Vec<Point>) -> Winding,
    B: Fn(&Vec<Point>, usize, usize, usize) -> bool,
    H: Fn(&Vec<Point>, usize, usize, usize, usize) -> bool,
    M: Fn(Bounds) -> (Point, Point, Point, Point),
    L: Fn(Bounds) -> (Point, Point),
    Z: Fn(Point) -> Point,
    P: Fn(Point, Point, i32) -> Option<(Point, Point, Point, Point)>,
    Q: Fn(i32) -> i32,
>(
    fragments: &Vec<PreparedTileFragment>,
    hidden_layers: &LayerSet,
    layer_draw_modes: &LayerMap<ClosedShapeDrawMode>,
    draw_mode: ClosedShapeDrawMode,
    scaled: &Z,
    math: &DrawMath<N, X, C, E, T, S, U, V, W, B, H, M, L>,
    pen: &PenMath<P, Q>,
) -> (out: Vec<LineVertex>)
    requires
        primitives::can_draw(*math),
        vertices::can_trace(*pen),
        forall|p: Point| #[trigger] scaled.requires((p,)),
    ensures
        forall|d: spec_fn(Point) -> Point, rules: DrawRules, strokes: PenRules|
            #![trigger drawing::scales(*scaled, d), primitives::draws_by(*math, rules), vertices::traces_by(*pen, strokes)]
            drawing::scales(*scaled, d) && primitives::draws_by(*math, rules)
                && vertices::traces_by(*pen, strokes) ==> out@ == vertices::vertices(
                drawing::drawn_fragments(
                    fragments@,
                    (LayerRules {
                        hidden: hidden_layers@,
                        modes: layer_draw_modes@,
                        styles: Map::empty(),
                        mode: draw_mode,
                        style: DEFAULT_HATCH_STYLE_PRESET,
                    }),
                    d,
                    rules,
                ),
                strokes,
            ),
{
    let no_styles: LayerMap<HatchStylePreset> = LayerMap::new();
    build_scaled_scene_vertices_for_prepared_fragments_with_hatch_styles(
        fragments,
        hidden_layers,
        layer_draw_modes,
        &no_styles,
        draw_mode,
        DEFAULT_HATCH_STYLE_PRESET,
        scaled,
        math,
        pen,
    )
}

/// The vertices of one layer of one tile of a scene. `area` is the tile on the screen, and `scaled`
/// brings points there.
pub fn build_scene_tile_vertices<
    N: Fn(Point, Point) -> bool,
    X: Fn(ClipEdge, Bounds, Point, Point) -> Point,
    C: Fn(Bounds, Point, Point) -> Option<(Point, Point)>,
    E: Fn(Bounds) -> i32,
    T: Fn(Bounds) -> usize,
    S: Fn(usize, usize, usize) -> usize,
    U: Fn(Bounds) -> usize,
    V: Fn(usize, usize, usize) -> usize,
    W: Fn(&Vec<Point>) -> Winding,
    B: Fn(&Vec<Point>, usize, usize, usize) -> bool,
    H: Fn(&Vec<Point>, usize, usize, usize, usize) -> bool,
    M: Fn(Bounds) -> (Point, Point, Point, Point),
    L: Fn(Bounds) -> (Point, Point),
    Z: Fn(Point) -> Point,
    P: Fn(Point, Point, i32) -> Option<(Point, Point, Point, Point)>,
    Q: Fn(i32) -> i32,
>(
    scene: &Scene,
    tile_grid: &TileGridIndex,
    prepared: &PreparedTileFragments,
    tile: TileId,
    layer: LayerId,
    draw_mode: ClosedShapeDrawMode,
    layer_draw_modes: &LayerMap<ClosedShapeDrawMode>,
    layer_hatch_styles: &LayerMap<HatchStylePreset>,
    hatch_style: HatchStylePreset,
    area: Bounds,
    scaled: &Z,
    math: &DrawMath<N, X, C, E, T, S, U, V, W, B, H, M, L>,
    pen: &PenMath<P, Q>,
) -> (out: Vec<LineVertex>)
    requires
        tiles::stays_in_scene(*tile_grid, tile, layer, scene@.len()),
        primitives::can_draw(*math),
        vertices::can_trace(*pen),
        forall|p: Point| #[trigger] scaled.requires((p,)),
    ensures
        forall|d: spec_fn(Point) -> Point, rules: DrawRules, strokes: PenRules|
            #![trigger drawing::scales(*scaled, d), primitives::draws_by(*math, rules), vertices::traces_by(*pen, strokes)]
            drawing::scales(*scaled, d) && primitives::draws_by(*math, rules)
                && vertices::traces_by(*pen, strokes) ==> out@ == vertices::vertices(
                tiles::scene_tile(
                    scene@,
                    *tile_grid,
                    *prepared,
                    tile,
                    layer,
                    (LayerRules {
                        hidden: Set::empty(),
                        modes: layer_draw_modes@,
                        styles: layer_hatch_styles@,
                        mode: draw_mode,
                        style: hatch_style,
                    }),
                    area,
                    d,
                    rules,
                ),
                strokes,
            ),
{
    let drawn = draw_scene_tile(
        scene,
        tile_grid,
        prepared,
        tile,
        layer,
        layer_draw_modes,
        layer_hatch_styles,
        draw_mode,
        hatch_style,
        area,
        scaled,
        math,
    );
    emit_vertices(&drawn, pen)
}

/// The vertices of one layer of one tile of a layout. `tile_bounds` is the tile in the layout and
/// `area` the tile on the screen; `scaled` brings points there, and the other functions place the
/// cells of the layout.
pub fn build_hierarchy_tile_vertices<
    N: Fn(Point, Point) -> bool,
    X: Fn(ClipEdge, Bounds, Point, Point) -> Point,
    C: Fn(Bounds, Point, Point) -> Option<(Point, Point)>,
    E: Fn(Bounds) -> i32,
    T: Fn(Bounds) -> usize,
    S: Fn(usize, usize, usize) -> usize,
    U: Fn(Bounds) -> usize,
    V: Fn(usize, usize, usize) -> usize,
    W: Fn(&Vec<Point>) -> Winding,
    B: Fn(&Vec<Point>, usize, usize, usize) -> bool,
    H: Fn(&Vec<Point>, usize, usize, usize, usize) -> bool,
    M: Fn(Bounds) -> (Point, Point, Point, Point),
    L: Fn(Bounds) -> (Point, Point),
    Z: Fn(Point) -> Point,
    P: Fn(Point, Point, i32) -> Option<(Point, Point, Point, Point)>,
    Q: Fn(i32) -> i32,
    WB: Fn(&Vec<PlacementStep>, Bounds) -> Bounds,
    SB: Fn(&Vec<PlacementStep>, LayoutCellId, usize) -> Bounds,
    SM: Fn(Bounds, SubtreeScreenLod) -> bool,
    PO: Fn(&ViewShape) -> PlacedOutline,
>(
    bundle: &LayoutBundle,
    base_options: LayoutViewBuildOptions,
    layer: LayerId,
    effective_mode: ClosedShapeDrawMode,
    effective_hatch_style: HatchStylePreset,
    tile_bounds: Bounds,
    area: Bounds,
    world: &WB,
    shape: &SB,
    small: &SM,
    outline: &PO,
    scaled: &Z,
    math: &DrawMath<N, X, C, E, T, S, U, V, W, B, H, M, L>,
    pen: &PenMath<P, Q>,
) -> (out: Vec<LineVertex>)
    requires
        view_builder::answers(*world, *shape, *small),
        forall|shape: &ViewShape| #[trigger] outline.requires((shape,)),
        primitives::can_draw(*math),
        vertices::can_trace(*pen),
        forall|p: Point| #[trigger] scaled.requires((p,)),
    ensures
        forall|
            at: Placing,
            put: spec_fn(ViewShapeModel) -> PlacedModel,
            d: spec_fn(Point) -> Point,
            rules: DrawRules,
            strokes: PenRules,
        |
            #![trigger view_builder::places(*world, *shape, *small, at), workset::draws(*outline, put), drawing::scales(*scaled, d), primitives::draws_by(*math, rules), vertices::traces_by(*pen, strokes)]
            view_builder::places(*world, *shape, *small, at) && workset::draws(*outline, put)
                && drawing::scales(*scaled, d) && primitives::draws_by(*math, rules)
                && vertices::traces_by(*pen, strokes) ==> out@ == vertices::vertices(
                workset::workset(
                    *bundle,
                    tiles::tile_options(base_options, tile_bounds, layer),
                    at,
                    put,
                ).map_values(
                    |s: scene::ShapeModel|
                        drawing::drawn(
                            s,
                            effective_mode,
                            effective_hatch_style,
                            Some(area),
                            d,
                            rules,
                        ),
                ),
                strokes,
            ),
{
    let drawn = draw_layout_tile(
        bundle,
        base_options,
        layer,
        effective_mode,
        effective_hatch_style,
        tile_bounds,
        area,
        world,
        shape,
        small,
        outline,
        scaled,
        math,
    );
    emit_vertices(&drawn, pen)
}

} // verus!
