//! What the shapes of a tile are drawn with.

use crate::layers::{LayerMap, LayerSet};
use crate::renderer::emission;
use crate::renderer::emission::shapes_to_draw;
use crate::renderer::fragments;
use crate::renderer::fragments::PreparedTileFragment;
use crate::renderer::geometry::{ClosedShapeDrawMode, HatchStylePreset};
use crate::renderer::polygon::{ClipEdge, Winding};
use crate::renderer::primitives;
use crate::renderer::primitives::{
    closed_shape_primitives, open_shape_primitives, prepared_fragment_primitives,
    prepared_line_primitives, DrawMath, DrawRules, Primitive,
};
use crate::scene;
use crate::scene::{Bounds, LayerId, Point, RectShape, Scene};
use vstd::prelude::*;

verus! {

/// What a shape is drawn with, and how.
#[derive(Debug)]
pub struct DrawnShape {
    pub layer: LayerId,
    /// The width of its lines in the layout, as a coordinate key.
    pub stroke_width_world: Option<i32>,
    pub style: HatchStylePreset,
    pub primitives: Vec<Primitive>,
}

/// What a shape is drawn with, apart from how it is stored.
pub struct DrawnModel {
    pub layer: LayerId,
    pub stroke_width_world: Option<i32>,
    pub style: HatchStylePreset,
    pub primitives: Seq<Primitive>,
}

impl View for DrawnShape {
    type V = DrawnModel;

    open spec fn view(&self) -> DrawnModel {
        DrawnModel {
            layer: self.layer,
            stroke_width_world: self.stroke_width_world,
            style: self.style,
            primitives: self.primitives@,
        }
    }
}

/// What the drawn shapes of a list are.
pub open spec fn drawn_models(drawn: Seq<DrawnShape>) -> Seq<DrawnModel> {
    drawn.map_values(|shape: DrawnShape| shape@)
}

/// Whether the function brings points to the screen in this way.
pub open spec fn scales<Z: Fn(Point) -> Point>(scaled: Z, d: spec_fn(Point) -> Point) -> bool {
    forall|p: Point, r: Point| #[trigger] scaled.ensures((p,), r) ==> r == d(p)
}

/// What a shape is drawn with.
pub open spec fn drawn(
    shape: scene::ShapeModel,
    mode: ClosedShapeDrawMode,
    style: HatchStylePreset,
    tile: Option<Bounds>,
    scaled: spec_fn(Point) -> Point,
    rules: DrawRules,
) -> DrawnModel {
    let points = shape.points.map_values(scaled);
    DrawnModel {
        layer: shape.layer,
        stroke_width_world: shape.stroke_width_world,
        style,
        primitives: if shape.closed {
            primitives::closed_shape(points, mode, tile, rules)
        } else {
            primitives::open_shape(points, tile, rules)
        },
    }
}

/// The layers of the shapes at these places.
pub open spec fn layers_at(shapes: Seq<scene::ShapeModel>, places: Seq<usize>) -> Seq<LayerId> {
    places.map_values(|place: usize| shapes[place as int].layer)
}

/// How the layers are drawn.
pub struct LayerRules {
    pub hidden: Set<LayerId>,
    pub modes: Map<LayerId, ClosedShapeDrawMode>,
    pub styles: Map<LayerId, HatchStylePreset>,
    pub mode: ClosedShapeDrawMode,
    pub style: HatchStylePreset,
}

/// What the shapes at these places are drawn with, without those of hidden layers.
pub open spec fn drawn_shapes(
    shapes: Seq<scene::ShapeModel>,
    places: Seq<usize>,
    layers: LayerRules,
    tile: Option<Bounds>,
    scaled: spec_fn(Point) -> Point,
    rules: DrawRules,
) -> Seq<DrawnModel> {
    emission::draw_items(
        layers_at(shapes, places),
        layers.hidden,
        layers.modes,
        layers.styles,
        layers.mode,
        layers.style,
    ).map_values(
        |item: emission::DrawItem|
            drawn(
                shapes[places[item.position as int] as int],
                item.mode,
                item.style,
                tile,
                scaled,
                rules,
            ),
    )
}

/// What a piece is drawn with that was cut to its tile earlier.
pub open spec fn drawn_fragment(
    piece: fragments::FragmentModel,
    mode: ClosedShapeDrawMode,
    style: HatchStylePreset,
    scaled: spec_fn(Point) -> Point,
    rules: DrawRules,
) -> DrawnModel {
    let points = piece.points.map_values(scaled);
    DrawnModel {
        layer: piece.layer,
        stroke_width_world: piece.stroke_width_world,
        style,
        primitives: if piece.closed {
            primitives::fragment(
                points,
                piece.outline_segments.map_values(
                    |edge: (Point, Point)| (scaled(edge.0), scaled(edge.1)),
                ),
                mode,
                rules,
            )
        } else {
            primitives::line_fragment(points, rules)
        },
    }
}

/// What pieces are drawn with that were cut to their tile earlier, without those of hidden layers.
pub open spec fn drawn_fragments(
    pieces: Seq<PreparedTileFragment>,
    layers: LayerRules,
    scaled: spec_fn(Point) -> Point,
    rules: DrawRules,
) -> Seq<DrawnModel> {
    emission::draw_items(
        pieces.map_values(|piece: PreparedTileFragment| piece.layer),
        layers.hidden,
        layers.modes,
        layers.styles,
        layers.mode,
        layers.style,
    ).map_values(
        |item: emission::DrawItem|
            drawn_fragment(
                pieces[item.position as int]@,
                item.mode,
                item.style,
                scaled,
                rules,
            ),
    )
}

fn scale_points<Z: Fn(Point) -> Point>(points: &Vec<Point>, scaled: &Z) -> (moved: Vec<Point>)
    requires
        forall|p: Point| #[trigger] scaled.requires((p,)),
    ensures
        forall|d: spec_fn(Point) -> Point| #[trigger]
            scales(*scaled, d) ==> moved@ == points@.map_values(d),
{
    let mut moved: Vec<Point> = Vec::new();
    let mut i: usize = 0;
    while i < points.len()
        invariant
            i <= points@.len(),
            moved@.len() == i,
            forall|p: Point| #[trigger] scaled.requires((p,)),
            forall|k: int| 0 <= k < i ==> scaled.ensures((points@[k],), #[trigger] moved@[k]),
        decreases points@.len() - i,
    {
        moved.push(scaled(points[i]));
        i += 1;
    }
    proof {
        assert forall|d: spec_fn(Point) -> Point| #[trigger] scales(*scaled, d) implies moved@
            == points@.map_values(d) by {
            assert(moved@ =~= points@.map_values(d));
        }
    }
    moved
}

fn scale_edges<Z: Fn(Point) -> Point>(edges: &Vec<(Point, Point)>, scaled: &Z) -> (moved: Vec<
    (Point, Point),
>)
    requires
        forall|p: Point| #[trigger] scaled.requires((p,)),
    ensures
        forall|d: spec_fn(Point) -> Point| #[trigger]
            scales(*scaled, d) ==> moved@ == edges@.map_values(
                |edge: (Point, Point)| (d(edge.0), d(edge.1)),
            ),
{
    let mut moved: Vec<(Point, Point)> = Vec::new();
    let mut i: usize = 0;
    while i < edges.len()
        invariant
            i <= edges@.len(),
            moved@.len() == i,
            forall|p: Point| #[trigger] scaled.requires((p,)),
            forall|k: int|
                0 <= k < i ==> scaled.ensures((edges@[k].0,), (#[trigger] moved@[k]).0)
                    && scaled.ensures((edges@[k].1,), moved@[k].1),
        decreases edges@.len() - i,
    {
        let edge: (Point, Point) = edges[i];
        let start = scaled(edge.0);
        let end = scaled(edge.1);
        moved.push((start, end));
        i += 1;
    }
    proof {
        assert forall|d: spec_fn(Point) -> Point| #[trigger] scales(*scaled, d) implies moved@
            == edges@.map_values(|edge: (Point, Point)| (d(edge.0), d(edge.1))) by {
            assert(moved@ =~= edges@.map_values(|edge: (Point, Point)| (d(edge.0), d(edge.1))));
        }
    }
    moved
}

fn draw_shape<
    N: Fn(Point, Point) -> bool,
    X: Fn(ClipEdge, Bounds, Point, Point) -> Point,
    C: Fn(Bounds, Point, Point) -> Option<(Point, Point)>,
    E: Fn(Bounds) -> i32,
    T: Fn(Bounds) -> usize,
    S: Fn(usize, usize, usize) -> usize,
    U: Fn(Bounds) -> usize,
    V: Fn(usize, usize, usize) -> usize,
    W: Fn(&Vec<Point>) -> Winding,
    B: Fn(&Vec<Point>, usize, usize, usize) -> bool,
    H: Fn(&Vec<Point>, usize, usize, usize, usize) -> bool,
    M: Fn(Bounds) -> (Point, Point, Point, Point),
    L: Fn(Bounds) -> (Point, Point),
    Z: Fn(Point) -> Point,
>(
    shape: &RectShape,
    mode: ClosedShapeDrawMode,
    style: HatchStylePreset,
    tile: Option<Bounds>,
    scaled: &Z,
    math: &DrawMath<N, X, C, E, T, S, U, V, W, B, H, M, L>,
) -> (out: DrawnShape)
    requires
        primitives::can_draw(*math),
        forall|p: Point| #[trigger] scaled.requires((p,)),
    ensures
        forall|d: spec_fn(Point) -> Point, rules: DrawRules|
            #![trigger scales(*scaled, d), primitives::draws_by(*math, rules)]
            scales(*scaled, d) && primitives::draws_by(*math, rules) ==> out@ == drawn(
                shape@,
                mode,
                style,
                tile,
                d,
                rules,
            ),
{
    let points = scale_points(&shape.points, scaled);
    let primitives = if shape.closed {
        closed_shape_primitives(&points, mode, tile, math)
    } else {
        open_shape_primitives(&points, tile, math)
    };
    DrawnShape {
        layer: shape.layer,
        stroke_width_world: shape.stroke_width_world,
        style,
        primitives,
    }
}

/// What the shapes at these places are drawn with, without those of hidden layers, each as its
/// layer says; all of each shape, or what of it lies in a tile. `scaled` brings points to the
/// screen.
pub fn draw_scene_shapes<
    N: Fn(Point, Point) -> bool,
    X: Fn(ClipEdge, Bounds, Point, Point) -> Point,
    C: Fn(Bounds, Point, Point) -> Option<(Point, Point)>,
    E: Fn(Bounds) -> i32,
    T: Fn(Bounds) -> usize,
    S: Fn(usize, usize, usize) -> usize,
    U: Fn(Bounds) -> usize,
    V: Fn(usize, usize, usize) -> usize,
    W: Fn(&Vec<Point>) -> Winding,
    B: Fn(&Vec<Point>, usize, usize, usize) -> bool,
    H: Fn(&Vec<Point>, usize, usize, usize, usize) -> bool,
    M: Fn(Bounds) -> (Point, Point, Point, Point),
    L: Fn(Bounds) -> (Point, Point),
    Z: Fn(Point) -> Point,
>(
    scene: &Scene,
    places: &Vec<usize>,
    hidden_layers: &LayerSet,
    layer_draw_modes: &LayerMap<ClosedShapeDrawMode>,
    layer_hatch_styles: &LayerMap<HatchStylePreset>,
    draw_mode: ClosedShapeDrawMode,
    hatch_style: HatchStylePreset,
    tile: Option<Bounds>,
    scaled: &Z,
    math: &DrawMath<N, X, C, E, T, S, U, V, W, B, H, M, L>,
) -> (out: Vec<DrawnShape>)
    requires
        forall|k: int| 0 <= k < places@.len() ==> (#[trigger] places@[k]) < scene@.len(),
        primitives::can_draw(*math),
        forall|p: Point| #[trigger] scaled.requires((p,)),
    ensures
        forall|d: spec_fn(Point) -> Point, rules: DrawRules|
            #![trigger scales(*scaled, d), primitives::draws_by(*math, rules)]
            scales(*scaled, d) && primitives::draws_by(*math, rules) ==> drawn_models(out@)
                == drawn_shapes(
                scene@,
                places@,
                (LayerRules {
                    hidden: hidden_layers@,
                    modes: layer_draw_modes@,
                    styles: layer_hatch_styles@,
                    mode: draw_mode,
                    style: hatch_style,
                }),
                tile,
                d,
                rules,
            ),
{
    let shapes = scene.shapes();
    let mut layer_of: Vec<LayerId> = Vec::new();
    let mut i: usize = 0;
    while i < places.len()
        invariant
            i <= places@.len(),
            shapes@.len() == scene@.len(),
            forall|k: int| 0 <= k < places@.len() ==> (#[trigger] places@[k]) < scene@.len(),
            forall|k: int| 0 <= k < shapes@.len() ==> (#[trigger] shapes@[k])@ == scene@[k],
            layer_of@ == layers_at(scene@, places@).take(i as int),
        decreases places@.len() - i,
    {
        let place: usize = places[i];
        layer_of.push(shapes[place].layer);
        assert(shapes@[place as int]@ == scene@[place as int]);
        assert(layer_of@ =~= layers_at(scene@, places@).take(i + 1));
        i += 1;
    }
    assert(layer_of@ =~= layers_at(scene@, places@));
    let items = shapes_to_draw(
        layer_of.as_slice(),
        hidden_layers,
        layer_draw_modes,
        layer_hatch_styles,
        draw_mode,
        hatch_style,
    );
    proof {
        lemma_positions(
            layer_of@,
            hidden_layers@,
            layer_draw_modes@,
            layer_hatch_styles@,
            draw_mode,
            hatch_style,
        );
    }
    let mut out: Vec<DrawnShape> = Vec::new();
    let mut j: usize = 0;
    while j < items.len()
        invariant
            j <= items@.len(),
            out@.len() == j,
            shapes@.len() == scene@.len(),
            forall|k: int| 0 <= k < places@.len() ==> (#[trigger] places@[k]) < scene@.len(),
            forall|k: int| 0 <= k < shapes@.len() ==> (#[trigger] shapes@[k])@ == scene@[k],
            forall|k: int| 0 <= k < items@.len() ==> (#[trigger] items@[k]).position < places@.len(),
            primitives::can_draw(*math),
            forall|p: Point| #[trigger] scaled.requires((p,)),
            forall|d: spec_fn(Point) -> Point, rules: DrawRules, k: int|
                #![trigger scales(*scaled, d), primitives::draws_by(*math, rules), out@[k]]
                scales(*scaled, d) && primitives::draws_by(*math, rules) && 0 <= k < j
                    ==> out@[k]@ == drawn(
                    scene@[places@[items@[k].position as int] as int],
                    items@[k].mode,
                    items@[k].style,
                    tile,
                    d,
                    rules,
                ),
        decreases items@.len() - j,
    {
        let item = items[j];
        let place: usize = places[item.position];
        let ghost before = out@;
        let made = draw_shape(&shapes[place], item.mode, item.style, tile, scaled, math);
        assert(shapes@[place as int]@ == scene@[place as int]);
        out.push(made);
        proof {
            assert forall|d: spec_fn(Point) -> Point, rules: DrawRules, k: int|
                #![trigger scales(*scaled, d), primitives::draws_by(*math, rules), out@[k]]
                scales(*scaled, d) && primitives::draws_by(*math, rules) && 0 <= k < j
                    + 1 implies out@[k]@ == drawn(
                scene@[places@[items@[k].position as int] as int],
                items@[k].mode,
                items@[k].style,
                tile,
                d,
                rules,
            ) by {
                if k < j {
                    assert(out@[k] == before[k]);
                }
            }
        }
        j += 1;
    }
    proof {
        let layers = LayerRules {
            hidden: hidden_layers@,
            modes: layer_draw_modes@,
            styles: layer_hatch_styles@,
            mode: draw_mode,
            style: hatch_style,
        };
        assert forall|d: spec_fn(Point) -> Point, rules: DrawRules|
            #![trigger scales(*scaled, d), primitives::draws_by(*math, rules)]
            scales(*scaled, d) && primitives::draws_by(*math, rules) implies drawn_models(out@)
            == drawn_shapes(scene@, places@, layers, tile, d, rules) by {
            assert(drawn_models(out@) =~= drawn_shapes(scene@, places@, layers, tile, d, rules));
        }
    }
    out
}

/// What the shapes of a scene are drawn with, all in the same way; all of each shape, or what of it
/// lies in a tile.
pub fn draw_all<
    N: Fn(Point, Point) -> bool,
    X: Fn(ClipEdge, Bounds, Point, Point) -> Point,
    C: Fn(Bounds, Point, Point) -> Option<(Point, Point)>,
    E: Fn(Bounds) -> i32,
    T: Fn(Bounds) -> usize,
    S: Fn(usize, usize, usize) -> usize,
    U: Fn(Bounds) -> usize,
    V: Fn(usize, usize, usize) -> usize,
    W: Fn(&Vec<Point>) -> Winding,
    B: Fn(&Vec<Point>, usize, usize, usize) -> bool,
    H: Fn(&Vec<Point>, usize, usize, usize, usize) -> bool,
    M: Fn(Bounds) -> (Point, Point, Point, Point),
    L: Fn(Bounds) -> (Point, Point),
    Z: Fn(Point) -> Point,
>(
    scene: &Scene,
    mode: ClosedShapeDrawMode,
    style: HatchStylePreset,
    tile: Option<Bounds>,
    scaled: &Z,
    math: &DrawMath<N, X, C, E, T, S, U, V, W, B, H, M, L>,
) -> (out: Vec<DrawnShape>)
    requires
        primitives::can_draw(*math),
        forall|p: Point| #[trigger] scaled.requires((p,)),
    ensures
        forall|d: spec_fn(Point) -> Point, rules: DrawRules|
            #![trigger scales(*scaled, d), primitives::draws_by(*math, rules)]
            scales(*scaled, d) && primitives::draws_by(*math, rules) ==> drawn_models(out@)
                == scene@.map_values(
                |s: scene::ShapeModel| drawn(s, mode, style, tile, d, rules),
            ),
{
    let shapes = scene.shapes();
    let mut out: Vec<DrawnShape> = Vec::new();
    let mut i: usize = 0;
    while i < shapes.len()
        invariant
            i <= shapes@.len(),
            out@.len() == i,
            shapes@.len() == scene@.len(),
            forall|k: int| 0 <= k < shapes@.len() ==> (#[trigger] shapes@[k])@ == scene@[k],
            primitives::can_draw(*math),
            forall|p: Point| #[trigger] scaled.requires((p,)),
            forall|d: spec_fn(Point) -> Point, rules: DrawRules, k: int|
                #![trigger scales(*scaled, d), primitives::draws_by(*math, rules), out@[k]]
                scales(*scaled, d) && primitives::draws_by(*math, rules) && 0 <= k < i
                    ==> out@[k]@ == drawn(scene@[k], mode, style, tile, d, rules),
        decreases shapes@.len() - i,
    {
        let ghost before = out@;
        let made = draw_shape(&shapes[i], mode, style, tile, scaled, math);
        assert(shapes@[i as int]@ == scene@[i as int]);
        out.push(made);
        proof {
            assert forall|d: spec_fn(Point) -> Point, rules: DrawRules, k: int|
                #![trigger scales(*scaled, d), primitives::draws_by(*math, rules), out@[k]]
                scales(*scaled, d) && primitives::draws_by(*math, rules) && 0 <= k < i
                    + 1 implies out@[k]@ == drawn(scene@[k], mode, style, tile, d, rules) by {
                if k < i {
                    assert(out@[k] == before[k]);
                }
            }
        }
        i += 1;
    }
    proof {
        assert forall|d: spec_fn(Point) -> Point, rules: DrawRules|
            #![trigger scales(*scaled, d), primitives::draws_by(*math, rules)]
            scales(*scaled, d) && primitives::draws_by(*math, rules) implies drawn_models(out@)
            == scene@.map_values(
            |s: scene::ShapeModel| drawn(s, mode, style, tile, d, rules),
        ) by {
            assert(drawn_models(out@) =~= scene@.map_values(
                |s: scene::ShapeModel| drawn(s, mode, style, tile, d, rules),
            ));
        }
    }
    out
}

/// The items to draw stand at places of the list.
proof fn lemma_positions(
    layer_of: Seq<LayerId>,
    hidden: Set<LayerId>,
    modes: Map<LayerId, ClosedShapeDrawMode>,
    styles: Map<LayerId, HatchStylePreset>,
    mode: ClosedShapeDrawMode,
    style: HatchStylePreset,
)
    requires
        layer_of.len() <= usize::MAX,
    ensures
        forall|k: int|
            0 <= k < emission::draw_items(layer_of, hidden, modes, styles, mode, style).len() ==> (
            #[trigger] emission::draw_items(
                layer_of,
                hidden,
                modes,
                styles,
                mode,
                style,
            )[k]).position < layer_of.len(),
    decreases layer_of.len(),
{
    if layer_of.len() > 0 {
        let init = layer_of.drop_last();
        lemma_positions(init, hidden, modes, styles, mode, style);
        let rest = emission::draw_items(init, hidden, modes, styles, mode, style);
        let all = emission::draw_items(layer_of, hidden, modes, styles, mode, style);
        assert forall|k: int| 0 <= k < all.len() implies (#[trigger] all[k]).position
            < layer_of.len() by {
            if k < rest.len() {
                assert(rest[k].position < init.len());
                assert(all[k] == rest[k]);
            }
        }
    }
}

fn draw_fragment<
    N: Fn(Point, Point) -> bool,
    X: Fn(ClipEdge, Bounds, Point, Point) -> Point,
    C: Fn(Bounds, Point, Point) -> Option<(Point, Point)>,
    E: Fn(Bounds) -> i32,
    T: Fn(Bounds) -> usize,
    S: Fn(usize, usize, usize) -> usize,
    U: Fn(Bounds) -> usize,
    V: Fn(usize, usize, usize) -> usize,
    W: Fn(&Vec<Point>) -> Winding,
    B: Fn(&Vec<Point>, usize, usize, usize) -> bool,
    H: Fn(&Vec<Point>, usize, usize, usize, usize) -> bool,
    M: Fn(Bounds) -> (Point, Point, Point, Point),
    L: Fn(Bounds) -> (Point, Point),
    Z: Fn(Point) -> Point,
>(
    piece: &PreparedTileFragment,
    mode: ClosedShapeDrawMode,
    style: HatchStylePreset,
    scaled: &Z,
    math: &DrawMath<N, X, C, E, T, S, U, V, W, B, H, M, L>,
) -> (out: DrawnShape)
    requires
        primitives::can_draw(*math),
        forall|p: Point| #[trigger] scaled.requires((p,)),
    ensures
        forall|d: spec_fn(Point) -> Point, rules: DrawRules|
            #![trigger scales(*scaled, d), primitives::draws_by(*math, rules)]
            scales(*scaled, d) && primitives::draws_by(*math, rules) ==> out@ == drawn_fragment(
                piece@,
                mode,
                style,
                d,
                rules,
            ),
{
    let points = scale_points(&piece.points, scaled);
    let primitives = if piece.closed {
        let outline = scale_edges(&piece.outline_segments, scaled);
        prepared_fragment_primitives(&points, &outline, mode, math)
    } else {
        prepared_line_primitives(&points, math)
    };
    DrawnShape {
        layer: piece.layer,
        stroke_width_world: piece.stroke_width_world,
        style,
        primitives,
    }
}

/// What pieces are drawn with that were cut to their tile earlier, without those of hidden layers,
/// each as its layer says.
pub fn draw_prepared_fragments<
    N: Fn(Point, Point) -> bool,
    X: Fn(ClipEdge, Bounds, Point, Point) -> Point,
    C: Fn(Bounds, Point, Point) -> Option<(Point, Point)>,
    E: Fn(Bounds) -> i32,
    T: Fn(Bounds) -> usize,
    S: Fn(usize, usize, usize) -> usize,
    U: Fn(Bounds) -> usize,
    V: Fn(usize, usize, usize) -> usize,
    W: Fn(&Vec<Point>) -> Winding,
    B: Fn(&Vec<Point>, usize, usize, usize) -> bool,
    H: Fn(&Vec<Point>, usize, usize, usize, usize) -> bool,
    M: Fn(Bounds) -> (Point, Point, Point, Point),
    L: Fn(Bounds) -> (Point, Point),
    Z: Fn(Point) -> Point,
>(
    pieces: &Vec<PreparedTileFragment>,
    hidden_layers: &LayerSet,
    layer_draw_modes: &LayerMap<ClosedShapeDrawMode>,
    layer_hatch_styles: &LayerMap<HatchStylePreset>,
    draw_mode: ClosedShapeDrawMode,
    hatch_style: HatchStylePreset,
    scaled: &Z,
    math: &DrawMath<N, X, C, E, T, S, U, V, W, B, H, M, L>,
) -> (out: Vec<DrawnShape>)
    requires
        primitives::can_draw(*math),
        forall|p: Point| #[trigger] scaled.requires((p,)),
    ensures
        forall|d: spec_fn(Point) -> Point, rules: DrawRules|
            #![trigger scales(*scaled, d), primitives::draws_by(*math, rules)]
            scales(*scaled, d) && primitives::draws_by(*math, rules) ==> drawn_models(out@)
                == drawn_fragments(
                pieces@,
                (LayerRules {
                    hidden: hidden_layers@,
                    modes: layer_draw_modes@,
                    styles: layer_hatch_styles@,
                    mode: draw_mode,
                    style: hatch_style,
                }),
                d,
                rules,
            ),
{
    let ghost layers_of = pieces@.map_values(|piece: PreparedTileFragment| piece.layer);
    let mut layer_of: Vec<LayerId> = Vec::new();
    let mut i: usize = 0;
    while i < pieces.len()
        invariant
            i <= pieces@.len(),
            layers_of == pieces@.map_values(|piece: PreparedTileFragment| piece.layer),
            layer_of@ == layers_of.take(i as int),
        decreases pieces@.len() - i,
    {
        layer_of.push(pieces[i].layer);
        assert(layer_of@ =~= layers_of.take(i + 1));
        i += 1;
    }
    assert(layer_of@ =~= layers_of);
    let items = shapes_to_draw(
        layer_of.as_slice(),
        hidden_layers,
        layer_draw_modes,
        layer_hatch_styles,
        draw_mode,
        hatch_style,
    );
    proof {
        lemma_positions(
            layer_of@,
            hidden_layers@,
            layer_draw_modes@,
            layer_hatch_styles@,
            draw_mode,
            hatch_style,
        );
    }
    let mut out: Vec<DrawnShape> = Vec::new();
    let mut j: usize = 0;
    while j < items.len()
        invariant
            j <= items@.len(),
            out@.len() == j,
            forall|k: int| 0 <= k < items@.len() ==> (#[trigger] items@[k]).position < pieces@.len(),
            primitives::can_draw(*math),
            forall|p: Point| #[trigger] scaled.requires((p,)),
            forall|d: spec_fn(Point) -> Point, rules: DrawRules, k: int|
                #![trigger scales(*scaled, d), primitives::draws_by(*math, rules), out@[k]]
                scales(*scaled, d) && primitives::draws_by(*math, rules) && 0 <= k < j
                    ==> out@[k]@ == drawn_fragment(
                    pieces@[items@[k].position as int]@,
                    items@[k].mode,
                    items@[k].style,
                    d,
                    rules,
                ),
        decreases items@.len() - j,
    {
        let item = items[j];
        let ghost before = out@;
        let made = draw_fragment(&pieces[item.position], item.mode, item.style, scaled, math);
        out.push(made);
        proof {
            assert forall|d: spec_fn(Point) -> Point, rules: DrawRules, k: int|
                #![trigger scales(*scaled, d), primitives::draws_by(*math, rules), out@[k]]
                scales(*scaled, d) && primitives::draws_by(*math, rules) && 0 <= k < j
                    + 1 implies out@[k]@ == drawn_fragment(
                pieces@[items@[k].position as int]@,
                items@[k].mode,
                items@[k].style,
                d,
                rules,
            ) by {
                if k < j {
                    assert(out@[k] == before[k]);
                }
            }
        }
        j += 1;
    }
    proof {
        let layers = LayerRules {
            hidden: hidden_layers@,
            modes: layer_draw_modes@,
            styles: layer_hatch_styles@,
            mode: draw_mode,
            style: hatch_style,
        };
        assert forall|d: spec_fn(Point) -> Point, rules: DrawRules|
            #![trigger scales(*scaled, d), primitives::draws_by(*math, rules)]
            scales(*scaled, d) && primitives::draws_by(*math, rules) implies drawn_models(out@)
            == drawn_fragments(pieces@, layers, d, rules) by {
            assert(drawn_models(out@) =~= drawn_fragments(pieces@, layers, d, rules));
        }
    }
    out
}

} // verus!
