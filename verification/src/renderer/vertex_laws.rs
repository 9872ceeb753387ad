//! What holds of the vertices that shapes are drawn with.

use crate::coords;
use crate::coords::{ONE_KEY, TWO_KEY};
use crate::renderer::drawing::DrawnModel;
use crate::renderer::primitives::Primitive;
use crate::renderer::vertices;
use crate::renderer::vertices::{
    LineVertex, PenRules, Rgb, VertexKind, MAX_STROKE_SCREEN_WIDTH, ONE_AND_A_HALF_KEY,
};
use crate::scene::{LayerId, Point};
use vstd::prelude::*;

verus! {

/// Whether three vertices in a row are these three points, of one kind and colour.
pub open spec fn is_triangle(
    all: Seq<LineVertex>,
    from: int,
    a: Point,
    b: Point,
    c: Point,
    rgb: Rgb,
    kind: VertexKind,
) -> bool {
    &&& from + 3 <= all.len()
    &&& all[from].position == a
    &&& all[from + 1].position == b
    &&& all[from + 2].position == c
    &&& forall|k: int| from <= k < from + 3 ==> (#[trigger] all[k]).rgb == rgb && all[k].kind == kind
}

/// Whether the point is one of the vertices.
pub open spec fn is_drawn(all: Seq<LineVertex>, p: Point) -> bool {
    exists|k: int| 0 <= k < all.len() && (#[trigger] all[k]).position == p
}

/// The width that a strip is asked for: that of the line, or one where it is less or no number.
pub open spec fn asked_width(width: i32) -> i32 {
    if coords::at_most(ONE_KEY, width) {
        width
    } else {
        ONE_KEY
    }
}

/// A line is drawn with the two triangles that its strip is made of: one on the first three
/// corners going round, one on the other corner and its two neighbours, so that they share one
/// diagonal and every corner is drawn. Nothing is drawn of a line without a strip.
pub proof fn law_triangles_cover_the_strip(
    start: Point,
    end: Point,
    width: i32,
    rgb: Rgb,
    rules: PenRules,
)
    ensures
        ({
            let all = vertices::segment_vertices(start, end, width, rgb, rules);
            match (rules.strip)(start, end, asked_width(width)) {
                Some((a, b, c, d)) => {
                    &&& all.len() == 6
                    &&& is_triangle(all, 0, a, b, c, rgb, VertexKind::Outline)
                    &&& is_triangle(all, 3, a, c, d, rgb, VertexKind::Outline)
                    &&& is_drawn(all, a)
                    &&& is_drawn(all, b)
                    &&& is_drawn(all, c)
                    &&& is_drawn(all, d)
                    &&& forall|p: Point| #[trigger]
                        is_drawn(all, p) ==> p == a || p == b || p == c || p == d
                },
                None => all.len() == 0,
            }
        }),
{
    let all = vertices::segment_vertices(start, end, width, rgb, rules);
    if let Some((a, b, c, d)) = (rules.strip)(start, end, asked_width(width)) {
        assert(all[0].position == a);
        assert(all[1].position == b);
        assert(all[2].position == c);
        assert(all[5].position == d);
    }
}

/// A line is drawn as wide as the shape asks for, a line of a mark one wide, and a triangle of an
/// area with its three corners and the pattern of the shape.
pub proof fn law_primitives_are_drawn_as_what_they_are(
    a: Point,
    b: Point,
    c: Point,
    width: i32,
    rgb: Rgb,
    style: u8,
    rules: PenRules,
)
    ensures
        vertices::primitive_vertices(Primitive::Line(a, b), width, rgb, style, rules)
            == vertices::segment_vertices(a, b, width, rgb, rules),
        vertices::primitive_vertices(Primitive::MarkLine(a, b), width, rgb, style, rules)
            == vertices::segment_vertices(a, b, ONE_KEY, rgb, rules),
        ({
            let all = vertices::primitive_vertices(
                Primitive::Area(a, b, c),
                width,
                rgb,
                style,
                rules,
            );
            &&& all.len() == 3
            &&& is_triangle(all, 0, a, b, c, rgb, VertexKind::HatchFill)
            &&& forall|k: int| 0 <= k < 3 ==> (#[trigger] all[k]).hatch_style == style
        }),
{
}

/// The vertices of lines and triangles that follow others follow those of the others; those of one
/// alone are its own, and there are none without any.
pub proof fn law_primitives_follow(
    first: Seq<Primitive>,
    second: Seq<Primitive>,
    one: Primitive,
    width: i32,
    rgb: Rgb,
    style: u8,
    rules: PenRules,
)
    ensures
        vertices::primitives_vertices(first + second, width, rgb, style, rules)
            == vertices::primitives_vertices(first, width, rgb, style, rules)
            + vertices::primitives_vertices(second, width, rgb, style, rules),
        vertices::primitives_vertices(seq![one], width, rgb, style, rules)
            == vertices::primitive_vertices(one, width, rgb, style, rules),
        vertices::primitives_vertices(Seq::<Primitive>::empty(), width, rgb, style, rules).len()
            == 0,
    decreases second.len(),
{
    let alone = seq![one];
    assert(alone.drop_last() =~= Seq::<Primitive>::empty());
    assert(vertices::primitives_vertices(alone, width, rgb, style, rules)
        =~= vertices::primitive_vertices(one, width, rgb, style, rules)) by {
        reveal_with_fuel(vertices::primitives_vertices, 2);
    }
    let all = first + second;
    if second.len() == 0 {
        assert(all =~= first);
        assert(vertices::primitives_vertices(all, width, rgb, style, rules)
            =~= vertices::primitives_vertices(first, width, rgb, style, rules)
            + vertices::primitives_vertices(second, width, rgb, style, rules));
    } else {
        law_primitives_follow(first, second.drop_last(), one, width, rgb, style, rules);
        assert(all.drop_last() =~= first + second.drop_last());
        assert(all.last() == second.last());
        assert(vertices::primitives_vertices(all, width, rgb, style, rules)
            =~= vertices::primitives_vertices(first, width, rgb, style, rules)
            + vertices::primitives_vertices(second, width, rgb, style, rules));
    }
}

/// The lines of a shape with a width are as wide as that is on the screen, but no narrower than one
/// and no wider than twelve; those of other shapes are one wide, but for two layers.
pub proof fn law_stroke_width(layer: LayerId, world: i32, on_screen: spec_fn(i32) -> i32)
    ensures
        ({
            let asked = on_screen(world);
            let width = vertices::stroke_width(layer, Some(world), on_screen);
            &&& coords::at_most(ONE_KEY, asked) && coords::at_most(asked, MAX_STROKE_SCREEN_WIDTH)
                ==> width == asked
            &&& coords::exceeds(ONE_KEY, asked) ==> width == ONE_KEY
            &&& coords::exceeds(asked, MAX_STROKE_SCREEN_WIDTH) ==> width == 0x4140_0000
        }),
        ({
            let width = vertices::stroke_width(layer, None, on_screen);
            &&& layer == (LayerId { layer: 1, datatype: 1 }) ==> width == TWO_KEY
            &&& layer == (LayerId { layer: 1, datatype: 2 }) ==> width == ONE_AND_A_HALF_KEY
            &&& layer != (LayerId { layer: 1, datatype: 1 }) && layer != (LayerId {
                layer: 1,
                datatype: 2,
            }) ==> width == ONE_KEY
        }),
{
}

/// A shape is drawn with the vertices of its lines and triangles, in the colour of its layer, with
/// its width and its pattern, and shapes one after the other.
pub proof fn law_shapes_are_drawn_whole(shape: DrawnModel, rules: PenRules)
    ensures
        vertices::vertices(seq![shape], rules) == vertices::primitives_vertices(
            shape.primitives,
            vertices::stroke_width(shape.layer, shape.stroke_width_world, rules.on_screen),
            vertices::colour_of(shape.layer),
            shape.style.tag(),
            rules,
        ),
        vertices::vertices(Seq::empty(), rules).len() == 0,
{
    let one = seq![shape];
    assert(one.drop_last() =~= Seq::<DrawnModel>::empty());
    assert(vertices::vertices(one, rules) =~= vertices::shape_vertices(shape, rules)) by {
        reveal_with_fuel(vertices::vertices, 2);
    }
}

/// Three layers have colours of their own, green, blue and orange; that of any other is mixed from
/// its two numbers, with no part under forty.
pub proof fn law_layer_colours(layer: LayerId)
    ensures
        ({
            let colour = vertices::colour_of(layer);
            let own = |on: u32, datatype: u32| layer == (LayerId { layer: on, datatype });
            &&& own(1, 1) ==> colour == (Rgb { red: 80, green: 220, blue: 120 })
            &&& own(1, 2) ==> colour == (Rgb { red: 120, green: 150, blue: 255 })
            &&& own(70, 31) ==> colour == (Rgb { red: 250, green: 180, blue: 70 })
            &&& !own(1, 1) && !own(1, 2) && !own(70, 31) ==> {
                let seed = (((layer.layer * 1_103_515_245) % 0x1_0000_0000) as u32) ^ (((
                layer.datatype * 12_345) % 0x1_0000_0000) as u32);
                &&& colour.red == brightened(seed % 256)
                &&& colour.green == brightened((seed / 256) % 256)
                &&& colour.blue == brightened((seed / 65_536) % 256)
            }
        }),
{
    let seed = layer.layer.wrapping_mul(1_103_515_245) ^ layer.datatype.wrapping_mul(12_345);
    assert(((seed & 0xff) as u8) == seed % 256) by (bit_vector);
    assert((((seed >> 8) & 0xff) as u8) == (seed / 256) % 256) by (bit_vector);
    assert((((seed >> 16) & 0xff) as u8) == (seed / 65_536) % 256) by (bit_vector);
}

/// A part of a colour, forty brighter, as far as that goes.
pub open spec fn brightened(part: u32) -> int {
    if part + 40 > 255 {
        255
    } else {
        part + 40
    }
}

} // verus!
