//! The vertices that shapes are drawn with.

use crate::coords;
use crate::coords::{key_is_nan, ONE_KEY, TWO_KEY};
use crate::renderer::drawing;
use crate::renderer::drawing::{DrawnModel, DrawnShape};
use crate::renderer::geometry;
use crate::renderer::geometry::base_layer_rgb;
use crate::renderer::primitives::Primitive;
use crate::scene::{LayerId, Point};
use vstd::prelude::*;

verus! {

/// The width of the widest line on the screen, twelve, as a coordinate key.
pub const MAX_STROKE_SCREEN_WIDTH: i32 = 0x4140_0000;

/// One and a half, as a coordinate key.
pub const ONE_AND_A_HALF_KEY: i32 = 0x3fc0_0000;

/// What a vertex belongs to.
#[derive(Debug, Clone, Copy, PartialEq, Eq, Structural)]
pub enum VertexKind {
    /// A line; opaque.
    Outline,
    /// A hatched area; partly see-through.
    HatchFill,
}

/// A colour.
#[derive(Debug, Clone, Copy, PartialEq, Eq, Structural)]
pub struct Rgb {
    pub red: u8,
    pub green: u8,
    pub blue: u8,
}

/// The colour of a layer.
pub open spec fn colour_of(layer: LayerId) -> Rgb {
    let rgb = geometry::layer_rgb(layer);
    Rgb { red: rgb[0], green: rgb[1], blue: rgb[2] }
}

/// The colour of a layer.
pub fn layer_color(layer: LayerId) -> (colour: Rgb)
    ensures
        colour == colour_of(layer),
{
    let rgb = base_layer_rgb(layer);
    Rgb { red: rgb[0], green: rgb[1], blue: rgb[2] }
}

/// A vertex on the screen; three in a row make a triangle.
#[derive(Debug, Clone, Copy, PartialEq, Eq, Structural)]
pub struct LineVertex {
    pub position: Point,
    pub rgb: Rgb,
    pub kind: VertexKind,
    /// The hatch pattern by its tag; that of lines is of no account.
    pub hatch_style: u8,
}

/// The functions that lines are drawn with.
///
/// `strip` gives the corners of a line of some width, or nothing where the line has no length;
/// `on_screen` is the width on the screen of a line of the layout.
pub struct PenMath<P, Q> {
    pub strip: P,
    pub on_screen: Q,
}

/// What the functions compute.
pub struct PenRules {
    pub strip: spec_fn(Point, Point, i32) -> Option<(Point, Point, Point, Point)>,
    pub on_screen: spec_fn(i32) -> i32,
}

/// Whether the functions can be asked about everything.
pub open spec fn can_trace<
    P: Fn(Point, Point, i32) -> Option<(Point, Point, Point, Point)>,
    Q: Fn(i32) -> i32,
>(pen: PenMath<P, Q>) -> bool {
    &&& forall|a: Point, b: Point, w: i32| #[trigger] pen.strip.requires((a, b, w))
    &&& forall|w: i32| #[trigger] pen.on_screen.requires((w,))
}

/// Whether the functions compute by these rules.
pub open spec fn traces_by<
    P: Fn(Point, Point, i32) -> Option<(Point, Point, Point, Point)>,
    Q: Fn(i32) -> i32,
>(pen: PenMath<P, Q>, rules: PenRules) -> bool {
    &&& forall|a: Point, b: Point, w: i32, r: Option<(Point, Point, Point, Point)>| #[trigger]
        pen.strip.ensures((a, b, w), r) ==> r == (rules.strip)(a, b, w)
    &&& forall|w: i32, r: i32| #[trigger]
        pen.on_screen.ensures((w,), r) ==> r == (rules.on_screen)(w)
}

/// A width on the screen brought between one and the widest; no number stays none.
pub open spec fn held_width(width: i32) -> i32 {
    if coords::is_nan_key(width) {
        width
    } else if width < ONE_KEY {
        ONE_KEY
    } else if width > MAX_STROKE_SCREEN_WIDTH {
        MAX_STROKE_SCREEN_WIDTH
    } else {
        width
    }
}

/// The width of the lines of a shape on the screen.
pub open spec fn stroke_width(
    layer: LayerId,
    stroke: Option<i32>,
    on_screen: spec_fn(i32) -> i32,
) -> i32 {
    match stroke {
        Some(width) => held_width(on_screen(width)),
        None => if layer.layer == 1 && layer.datatype == 1 {
            TWO_KEY
        } else if layer.layer == 1 && layer.datatype == 2 {
            ONE_AND_A_HALF_KEY
        } else {
            ONE_KEY
        },
    }
}

/// Whether the function gives widths on the screen in this way.
pub open spec fn widens_by<Q: Fn(i32) -> i32>(on_screen: Q, d: spec_fn(i32) -> i32) -> bool {
    forall|w: i32, r: i32| #[trigger] on_screen.ensures((w,), r) ==> r == d(w)
}

/// The width of the lines of a shape on the screen: its own, or that of its layer.
pub fn stroke_width_for_layer<Q: Fn(i32) -> i32>(
    layer: LayerId,
    stroke_width_world: Option<i32>,
    on_screen: &Q,
) -> (width: i32)
    requires
        forall|w: i32| #[trigger] on_screen.requires((w,)),
    ensures
        forall|d: spec_fn(i32) -> i32| #[trigger]
            widens_by(*on_screen, d) ==> width == stroke_width(layer, stroke_width_world, d),
{
    match stroke_width_world {
        Some(world) => {
            let width: i32 = on_screen(world);
            if key_is_nan(width) {
                width
            } else if width < ONE_KEY {
                ONE_KEY
            } else if width > MAX_STROKE_SCREEN_WIDTH {
                MAX_STROKE_SCREEN_WIDTH
            } else {
                width
            }
        },
        None => if layer.layer == 1 && layer.datatype == 1 {
            TWO_KEY
        } else if layer.layer == 1 && layer.datatype == 2 {
            ONE_AND_A_HALF_KEY
        } else {
            ONE_KEY
        },
    }
}

/// A width of one at least.
pub open spec fn at_least_one(width: i32) -> i32 {
    if coords::is_nan_key(width) || width < ONE_KEY {
        ONE_KEY
    } else {
        width
    }
}

/// The vertex of a line.
pub open spec fn line_vertex(position: Point, rgb: Rgb) -> LineVertex {
    LineVertex { position, rgb, kind: VertexKind::Outline, hatch_style: 0 }
}

/// The two triangles of a line; none where the line has no length.
pub open spec fn segment_vertices(
    start: Point,
    end: Point,
    width: i32,
    rgb: Rgb,
    rules: PenRules,
) -> Seq<LineVertex> {
    match (rules.strip)(start, end, at_least_one(width)) {
        Some((a, b, c, d)) => seq![
            line_vertex(a, rgb),
            line_vertex(b, rgb),
            line_vertex(c, rgb),
            line_vertex(a, rgb),
            line_vertex(c, rgb),
            line_vertex(d, rgb),
        ],
        None => Seq::empty(),
    }
}

/// The vertices of one line or triangle.
pub open spec fn primitive_vertices(
    primitive: Primitive,
    width: i32,
    rgb: Rgb,
    style: u8,
    rules: PenRules,
) -> Seq<LineVertex> {
    match primitive {
        Primitive::Line(a, b) => segment_vertices(a, b, width, rgb, rules),
        Primitive::MarkLine(a, b) => segment_vertices(a, b, ONE_KEY, rgb, rules),
        Primitive::Area(a, b, c) => seq![
            LineVertex { position: a, rgb, kind: VertexKind::HatchFill, hatch_style: style },
            LineVertex { position: b, rgb, kind: VertexKind::HatchFill, hatch_style: style },
            LineVertex { position: c, rgb, kind: VertexKind::HatchFill, hatch_style: style },
        ],
    }
}

/// The vertices of lines and triangles, one after the other.
pub open spec fn primitives_vertices(
    primitives: Seq<Primitive>,
    width: i32,
    rgb: Rgb,
    style: u8,
    rules: PenRules,
) -> Seq<LineVertex>
    decreases primitives.len(),
{
    if primitives.len() == 0 {
        Seq::empty()
    } else {
        primitives_vertices(primitives.drop_last(), width, rgb, style, rules) + primitive_vertices(
            primitives.last(),
            width,
            rgb,
            style,
            rules,
        )
    }
}

/// The vertices that a shape is drawn with.
pub open spec fn shape_vertices(shape: DrawnModel, rules: PenRules) -> Seq<LineVertex> {
    primitives_vertices(
        shape.primitives,
        stroke_width(shape.layer, shape.stroke_width_world, rules.on_screen),
        colour_of(shape.layer),
        shape.style.tag(),
        rules,
    )
}

/// The vertices that shapes are drawn with, shape by shape.
pub open spec fn vertices(shapes: Seq<DrawnModel>, rules: PenRules) -> Seq<LineVertex>
    decreases shapes.len(),
{
    if shapes.len() == 0 {
        Seq::empty()
    } else {
        vertices(shapes.drop_last(), rules) + shape_vertices(shapes.last(), rules)
    }
}

/// Shapes that follow others add their vertices to those of the others.
pub proof fn law_vertices_follow(first: Seq<DrawnModel>, second: Seq<DrawnModel>, rules: PenRules)
    ensures
        vertices(first + second, rules) == vertices(first, rules) + vertices(second, rules),
    decreases second.len(),
{
    if second.len() == 0 {
        assert(first + second =~= first);
        assert(vertices(first, rules) + Seq::<LineVertex>::empty() =~= vertices(first, rules));
    } else {
        law_vertices_follow(first, second.drop_last(), rules);
        assert((first + second).drop_last() =~= first + second.drop_last());
        assert((first + second).last() == second.last());
        assert(vertices(first + second, rules) =~= vertices(first, rules) + vertices(
            second,
            rules,
        ));
    }
}

fn push_line_vertex(out: &mut Vec<LineVertex>, position: Point, rgb: Rgb)
    ensures
        final(out)@ == old(out)@.push(line_vertex(position, rgb)),
{
    out.push(LineVertex { position, rgb, kind: VertexKind::Outline, hatch_style: 0 });
}

/// Adds the two triangles of a line.
pub fn emit_segment<P: Fn(Point, Point, i32) -> Option<(Point, Point, Point, Point)>, Q: Fn(i32) -> i32>(
    out: &mut Vec<LineVertex>,
    start: Point,
    end: Point,
    width: i32,
    rgb: Rgb,
    pen: &PenMath<P, Q>,
)
    requires
        can_trace(*pen),
    ensures
        forall|rules: PenRules| #[trigger]
            traces_by(*pen, rules) ==> final(out)@ == old(out)@ + segment_vertices(
                start,
                end,
                width,
                rgb,
                rules,
            ),
{
    let ghost before = out@;
    let held: i32 = if key_is_nan(width) || width < ONE_KEY {
        ONE_KEY
    } else {
        width
    };
    let corners = (pen.strip)(start, end, held);
    match corners {
        Some((a, b, c, d)) => {
            push_line_vertex(out, a, rgb);
            push_line_vertex(out, b, rgb);
            push_line_vertex(out, c, rgb);
            push_line_vertex(out, a, rgb);
            push_line_vertex(out, c, rgb);
            push_line_vertex(out, d, rgb);
        },
        None => {},
    }
    proof {
        assert forall|rules: PenRules| #[trigger] traces_by(*pen, rules) implies out@ == before
            + segment_vertices(start, end, width, rgb, rules) by {
            assert(corners == (rules.strip)(start, end, at_least_one(width)));
            assert(out@ =~= before + segment_vertices(start, end, width, rgb, rules));
        }
    }
}

/// Adds the vertices of one line or triangle.
fn emit_primitive<
    P: Fn(Point, Point, i32) -> Option<(Point, Point, Point, Point)>,
    Q: Fn(i32) -> i32,
>(
    out: &mut Vec<LineVertex>,
    primitive: Primitive,
    width: i32,
    rgb: Rgb,
    style: u8,
    pen: &PenMath<P, Q>,
)
    requires
        can_trace(*pen),
    ensures
        forall|rules: PenRules| #[trigger]
            traces_by(*pen, rules) ==> final(out)@ == old(out)@ + primitive_vertices(
                primitive,
                width,
                rgb,
                style,
                rules,
            ),
{
    match primitive {
        Primitive::Line(a, b) => emit_segment(out, a, b, width, rgb, pen),
        Primitive::MarkLine(a, b) => emit_segment(out, a, b, ONE_KEY, rgb, pen),
        Primitive::Area(a, b, c) => {
            let ghost before = out@;
            out.push(
                LineVertex { position: a, rgb, kind: VertexKind::HatchFill, hatch_style: style },
            );
            out.push(
                LineVertex { position: b, rgb, kind: VertexKind::HatchFill, hatch_style: style },
            );
            out.push(
                LineVertex { position: c, rgb, kind: VertexKind::HatchFill, hatch_style: style },
            );
            proof {
                assert forall|rules: PenRules| #[trigger] traces_by(*pen, rules) implies out@
                    == before + primitive_vertices(primitive, width, rgb, style, rules) by {
                    assert(out@ =~= before + primitive_vertices(
                        primitive,
                        width,
                        rgb,
                        style,
                        rules,
                    ));
                }
            }
        },
    }
}

/// Adds the vertices that a shape is drawn with.
fn emit_shape<
    P: Fn(Point, Point, i32) -> Option<(Point, Point, Point, Point)>,
    Q: Fn(i32) -> i32,
>(out: &mut Vec<LineVertex>, shape: &DrawnShape, pen: &PenMath<P, Q>)
    requires
        can_trace(*pen),
    ensures
        forall|rules: PenRules| #[trigger]
            traces_by(*pen, rules) ==> final(out)@ == old(out)@ + shape_vertices(shape@, rules),
{
    let ghost before = out@;
    let width: i32 = stroke_width_for_layer(
        shape.layer,
        shape.stroke_width_world,
        &pen.on_screen,
    );
    let rgb = layer_color(shape.layer);
    let style: u8 = shape.style.as_tag();
    let mut i: usize = 0;
    proof {
        assert forall|rules: PenRules| #[trigger] traces_by(*pen, rules) implies out@ == before
            + primitives_vertices(shape.primitives@.take(0), width, rgb, style, rules) by {
            assert(out@ =~= before + Seq::<LineVertex>::empty());
        }
    }
    while i < shape.primitives.len()
        invariant
            i <= shape.primitives@.len(),
            can_trace(*pen),
            forall|rules: PenRules| #[trigger]
                traces_by(*pen, rules) ==> out@ == before + primitives_vertices(
                    shape.primitives@.take(i as int),
                    width,
                    rgb,
                    style,
                    rules,
                ),
        decreases shape.primitives@.len() - i,
    {
        let ghost held = out@;
        emit_primitive(out, shape.primitives[i], width, rgb, style, pen);
        proof {
            let done = shape.primitives@.take(i as int);
            let more = shape.primitives@.take(i + 1);
            assert(more.drop_last() =~= done);
            assert forall|rules: PenRules| #[trigger] traces_by(*pen, rules) implies out@ == before
                + primitives_vertices(more, width, rgb, style, rules) by {
                assert(out@ =~= before + primitives_vertices(more, width, rgb, style, rules));
            }
        }
        i += 1;
    }
    proof {
        assert(shape.primitives@.take(i as int) =~= shape.primitives@);
        assert forall|rules: PenRules| #[trigger] traces_by(*pen, rules) implies out@ == before
            + shape_vertices(shape@, rules) by {
            assert(widens_by(pen.on_screen, rules.on_screen));
        }
    }
}

/// The vertices that shapes are drawn with, shape by shape.
pub fn emit_vertices<
    P: Fn(Point, Point, i32) -> Option<(Point, Point, Point, Point)>,
    Q: Fn(i32) -> i32,
>(shapes: &Vec<DrawnShape>, pen: &PenMath<P, Q>) -> (out: Vec<LineVertex>)
    requires
        can_trace(*pen),
    ensures
        forall|rules: PenRules| #[trigger]
            traces_by(*pen, rules) ==> out@ == vertices(drawing::drawn_models(shapes@), rules),
{
    let ghost models = drawing::drawn_models(shapes@);
    let mut out: Vec<LineVertex> = Vec::new();
    let mut i: usize = 0;
    while i < shapes.len()
        invariant
            i <= shapes@.len(),
            models == drawing::drawn_models(shapes@),
            can_trace(*pen),
            forall|rules: PenRules| #[trigger]
                traces_by(*pen, rules) ==> out@ == vertices(models.take(i as int), rules),
        decreases shapes@.len() - i,
    {
        emit_shape(&mut out, &shapes[i], pen);
        proof {
            assert(models.take(i + 1).drop_last() =~= models.take(i as int));
            assert(models.take(i + 1).last() == shapes@[i as int]@);
        }
        i += 1;
    }
    assert(models.take(i as int) =~= models);
    out
}

} // verus!
