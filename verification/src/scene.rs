//! Layers, shapes and scenes.

use crate::coords;
use crate::coords::{key_at_most, key_is_nan, keys_equal};
use crate::layers;
use crate::layers::LayerSet;
use crate::seqs;
use std::sync::Arc;
use vstd::prelude::*;

verus! {

/// A layer of the layout: layer number and datatype.
#[derive(Debug, Clone, Copy, PartialEq, Eq, Hash, PartialOrd, Ord, Structural)]
pub struct LayerId {
    pub layer: u32,
    pub datatype: u32,
}

/// A value that one layer has in place of the common one.
#[derive(Debug, Clone, Copy, PartialEq, Eq, Hash, PartialOrd, Ord)]
pub struct LayerDisplayOverride<T> {
    pub layer: LayerId,
    pub value: T,
}

/// A point, by the keys of its coordinates.
#[derive(Debug, Clone, Copy, PartialEq, Eq, Structural)]
pub struct Point {
    pub x: i32,
    pub y: i32,
}

/// Whether two points have the same coordinates.
pub open spec fn same_point(a: Point, b: Point) -> bool {
    coords::same_number(a.x, b.x) && coords::same_number(a.y, b.y)
}

/// Whether two points have the same coordinates.
pub fn points_equal(a: Point, b: Point) -> (equal: bool)
    ensures
        equal == same_point(a, b),
{
    keys_equal(a.x, b.x) && keys_equal(a.y, b.y)
}

/// An axis-parallel rectangle, by the keys of its edges.
#[derive(Debug, Clone, Copy, PartialEq, Eq, Structural)]
pub struct Bounds {
    pub min_x: i32,
    pub min_y: i32,
    pub max_x: i32,
    pub max_y: i32,
}

/// The smaller of two coordinates, or the one that is a number.
pub open spec fn least(a: i32, b: i32) -> i32 {
    if coords::is_nan_key(b) {
        a
    } else if coords::is_nan_key(a) || b < a {
        b
    } else {
        a
    }
}

/// The larger of two coordinates, or the one that is a number.
pub open spec fn greatest(a: i32, b: i32) -> i32 {
    if coords::is_nan_key(b) {
        a
    } else if coords::is_nan_key(a) || b > a {
        b
    } else {
        a
    }
}

fn lesser_key(a: i32, b: i32) -> (key: i32)
    ensures
        key == least(a, b),
{
    if key_is_nan(b) {
        a
    } else if key_is_nan(a) || b < a {
        b
    } else {
        a
    }
}

fn greater_key(a: i32, b: i32) -> (key: i32)
    ensures
        key == greatest(a, b),
{
    if key_is_nan(b) {
        a
    } else if key_is_nan(a) || b > a {
        b
    } else {
        a
    }
}

/// Whether all edges are numbers.
pub open spec fn has_numbers(bounds: Bounds) -> bool {
    &&& !coords::is_nan_key(bounds.min_x)
    &&& !coords::is_nan_key(bounds.min_y)
    &&& !coords::is_nan_key(bounds.max_x)
    &&& !coords::is_nan_key(bounds.max_y)
}

/// The smallest rectangle around two rectangles.
pub open spec fn bounds_union(a: Bounds, b: Bounds) -> Bounds {
    Bounds {
        min_x: least(a.min_x, b.min_x),
        min_y: least(a.min_y, b.min_y),
        max_x: greatest(a.max_x, b.max_x),
        max_y: greatest(a.max_y, b.max_y),
    }
}

/// The smallest rectangle around a list of rectangles; there is none around the empty list.
pub open spec fn union_of(s: Seq<Bounds>) -> Option<Bounds>
    decreases s.len(),
{
    if s.len() == 0 {
        None
    } else {
        match union_of(s.drop_last()) {
            None => Some(s.last()),
            Some(head) => Some(bounds_union(head, s.last())),
        }
    }
}

/// Whether one rectangle lies within another.
pub open spec fn within(inner: Bounds, outer: Bounds) -> bool {
    &&& coords::at_most(outer.min_x, inner.min_x)
    &&& coords::at_most(outer.min_y, inner.min_y)
    &&& coords::at_most(inner.max_x, outer.max_x)
    &&& coords::at_most(inner.max_y, outer.max_y)
}

/// Whether two rectangles touch or overlap.
pub open spec fn bounds_meet(a: Bounds, b: Bounds) -> bool {
    &&& coords::at_most(a.min_x, b.max_x)
    &&& coords::at_most(b.min_x, a.max_x)
    &&& coords::at_most(a.min_y, b.max_y)
    &&& coords::at_most(b.min_y, a.max_y)
}

/// The rectangle that a single point spans.
pub open spec fn point_bounds(p: Point) -> Bounds {
    Bounds { min_x: p.x, min_y: p.y, max_x: p.x, max_y: p.y }
}

/// The smallest rectangle around a list of points.
pub open spec fn points_bounds(points: Seq<Point>) -> Option<Bounds> {
    union_of(points.map_values(|p: Point| point_bounds(p)))
}

/// The rectangle around a list lies around each of its members, and within every rectangle that
/// does so too, where all edges are numbers.
pub proof fn law_union_is_least(s: Seq<Bounds>, outer: Bounds)
    requires
        s.len() > 0,
        forall|i: int| 0 <= i < s.len() ==> has_numbers(#[trigger] s[i]),
    ensures
        union_of(s) is Some,
        has_numbers(union_of(s)->0),
        forall|i: int| 0 <= i < s.len() ==> within(#[trigger] s[i], union_of(s)->0),
        (forall|i: int| 0 <= i < s.len() ==> within(#[trigger] s[i], outer)) ==> within(
            union_of(s)->0,
            outer,
        ),
    decreases s.len(),
{
    let init = s.drop_last();
    assert(has_numbers(s[s.len() - 1]));
    if init.len() > 0 {
        assert forall|i: int| 0 <= i < init.len() implies has_numbers(#[trigger] init[i]) by {
            assert(init[i] == s[i]);
        }
        law_union_is_least(init, outer);
        assert forall|i: int| 0 <= i < s.len() implies within(#[trigger] s[i], union_of(s)->0) by {
            if i < init.len() {
                assert(within(init[i], union_of(init)->0));
            }
        }
        if forall|i: int| 0 <= i < s.len() ==> within(#[trigger] s[i], outer) {
            assert forall|i: int| 0 <= i < init.len() implies within(#[trigger] init[i], outer) by {
                assert(within(s[i], outer));
            }
            assert(within(s[s.len() - 1], outer));
        }
    } else {
        if forall|i: int| 0 <= i < s.len() ==> within(#[trigger] s[i], outer) {
            assert(within(s[0], outer));
        }
    }
}

/// Meeting does not depend on the order of the rectangles, and what meets a rectangle meets
/// every rectangle around it.
pub proof fn law_meeting(a: Bounds, b: Bounds, outer: Bounds)
    ensures
        bounds_meet(a, b) <==> bounds_meet(b, a),
        bounds_meet(a, b) && within(b, outer) ==> bounds_meet(a, outer),
{
}

impl Bounds {
    /// The rectangle with these edges.
    pub fn new(min_x: i32, min_y: i32, max_x: i32, max_y: i32) -> (bounds: Self)
        ensures
            bounds == (Bounds { min_x, min_y, max_x, max_y }),
    {
        Bounds { min_x, min_y, max_x, max_y }
    }

    /// Whether the rectangles touch or overlap.
    pub fn intersects(self, other: Bounds) -> (meet: bool)
        ensures
            meet == bounds_meet(self, other),
    {
        key_at_most(self.min_x, other.max_x) && key_at_most(other.min_x, self.max_x)
            && key_at_most(self.min_y, other.max_y) && key_at_most(other.min_y, self.max_y)
    }

    /// The smallest rectangle around both.
    pub fn union(self, other: Bounds) -> (around: Bounds)
        ensures
            around == bounds_union(self, other),
    {
        Bounds {
            min_x: lesser_key(self.min_x, other.min_x),
            min_y: lesser_key(self.min_y, other.min_y),
            max_x: greater_key(self.max_x, other.max_x),
            max_y: greater_key(self.max_y, other.max_y),
        }
    }
}

/// Whether the first rectangle holds the second.
pub fn bounds_contains_bounds(container: Bounds, candidate: Bounds) -> (held: bool)
    ensures
        held == within(candidate, container),
{
    key_at_most(container.min_x, candidate.min_x) && key_at_most(container.min_y, candidate.min_y)
        && key_at_most(candidate.max_x, container.max_x) && key_at_most(
        candidate.max_y,
        container.max_y,
    )
}

/// The smallest rectangle around the points.
pub fn bounds_from_points(points: &[Point]) -> (bounds: Option<Bounds>)
    ensures
        bounds == points_bounds(points@),
{
    let ghost spanned = points@.map_values(|p: Point| point_bounds(p));
    let mut bounds: Option<Bounds> = None;
    let mut i: usize = 0;
    assert(spanned.take(0) =~= Seq::empty());
    while i < points.len()
        invariant
            i <= points@.len(),
            spanned == points@.map_values(|p: Point| point_bounds(p)),
            bounds == union_of(spanned.take(i as int)),
        decreases points@.len() - i,
    {
        let p = points[i];
        let own = Bounds { min_x: p.x, min_y: p.y, max_x: p.x, max_y: p.y };
        proof {
            assert(spanned.take(i + 1).drop_last() =~= spanned.take(i as int));
            assert(spanned.take(i + 1).last() == own);
        }
        bounds = match bounds {
            None => Some(own),
            Some(head) => Some(head.union(own)),
        };
        i += 1;
    }
    assert(spanned.take(i as int) =~= spanned);
    bounds
}

/// A shape of a scene.
#[derive(Debug)]
pub struct RectShape {
    pub layer: LayerId,
    /// The depth in the cell hierarchy at which the shape stands.
    pub hierarchy_level: u32,
    pub bounds: Bounds,
    pub points: Vec<Point>,
    /// Whether the points close into an area.
    pub closed: bool,
    /// The width of a line, as a coordinate key.
    pub stroke_width_world: Option<i32>,
}

/// What a shape is, apart from how it is stored.
pub struct ShapeModel {
    pub layer: LayerId,
    pub hierarchy_level: u32,
    pub bounds: Bounds,
    pub points: Seq<Point>,
    pub closed: bool,
    pub stroke_width_world: Option<i32>,
}

impl View for RectShape {
    type V = ShapeModel;

    open spec fn view(&self) -> ShapeModel {
        ShapeModel {
            layer: self.layer,
            hierarchy_level: self.hierarchy_level,
            bounds: self.bounds,
            points: self.points@,
            closed: self.closed,
            stroke_width_world: self.stroke_width_world,
        }
    }
}

/// A list with the same points.
pub fn copy_points(points: &[Point]) -> (copy: Vec<Point>)
    ensures
        copy@ == points@,
{
    let mut copy: Vec<Point> = Vec::new();
    let mut i: usize = 0;
    while i < points.len()
        invariant
            i <= points@.len(),
            copy@ == points@.take(i as int),
        decreases points@.len() - i,
    {
        copy.push(points[i]);
        assert(copy@ =~= points@.take(i + 1));
        i += 1;
    }
    assert(copy@ =~= points@);
    copy
}

impl Clone for RectShape {
    fn clone(&self) -> (copy: Self)
        ensures
            copy@ == self@,
    {
        RectShape {
            layer: self.layer,
            hierarchy_level: self.hierarchy_level,
            bounds: self.bounds,
            points: copy_points(self.points.as_slice()),
            closed: self.closed,
            stroke_width_world: self.stroke_width_world,
        }
    }
}

/// The corners of a rectangle, in drawing order.
pub open spec fn corners(bounds: Bounds) -> Seq<Point> {
    seq![
        Point { x: bounds.min_x, y: bounds.min_y },
        Point { x: bounds.max_x, y: bounds.min_y },
        Point { x: bounds.max_x, y: bounds.max_y },
        Point { x: bounds.min_x, y: bounds.max_y },
    ]
}

/// The corners of a rectangle, in drawing order.
pub fn rectangle_points(bounds: Bounds) -> (points: Vec<Point>)
    ensures
        points@ == corners(bounds),
{
    let mut points: Vec<Point> = Vec::new();
    points.push(Point { x: bounds.min_x, y: bounds.min_y });
    points.push(Point { x: bounds.max_x, y: bounds.min_y });
    points.push(Point { x: bounds.max_x, y: bounds.max_y });
    points.push(Point { x: bounds.min_x, y: bounds.max_y });
    assert(points@ =~= corners(bounds));
    points
}

/// The rectangle around points, with room for a line where there is one; without points that of
/// the origin.
pub open spec fn padded_bounds(
    points: Seq<Point>,
    stroke: Option<i32>,
    widened: spec_fn(Bounds, i32) -> Bounds,
) -> Bounds {
    let around = match points_bounds(points) {
        Some(bounds) => bounds,
        None => Bounds { min_x: 0, min_y: 0, max_x: 0, max_y: 0 },
    };
    match stroke {
        Some(width) => widened(around, width),
        None => around,
    }
}

/// Whether the function makes room for lines in this way.
pub open spec fn widens<F: Fn(Bounds, i32) -> Bounds>(
    widened: F,
    d: spec_fn(Bounds, i32) -> Bounds,
) -> bool {
    forall|bounds: Bounds, width: i32, r: Bounds| #[trigger]
        widened.ensures((bounds, width), r) ==> r == d(bounds, width)
}

impl RectShape {
    /// A shape through these points; `widened` makes room around a rectangle for a line of some
    /// width.
    pub fn from_points<F: Fn(Bounds, i32) -> Bounds>(
        layer: LayerId,
        points: Vec<Point>,
        closed: bool,
        hierarchy_level: u32,
        stroke_width_world: Option<i32>,
        widened: &F,
    ) -> (shape: Self)
        requires
            forall|bounds: Bounds, width: i32| #[trigger] widened.requires((bounds, width)),
        ensures
            forall|d: spec_fn(Bounds, i32) -> Bounds| #[trigger]
                widens(*widened, d) ==> shape@ == (ShapeModel {
                    layer,
                    hierarchy_level,
                    bounds: padded_bounds(points@, stroke_width_world, d),
                    points: points@,
                    closed,
                    stroke_width_world,
                }),
    {
        let around = match bounds_from_points(points.as_slice()) {
            Some(bounds) => bounds,
            None => Bounds::new(0, 0, 0, 0),
        };
        let bounds = match stroke_width_world {
            Some(width) => widened(around, width),
            None => around,
        };
        RectShape { layer, hierarchy_level, bounds, points, closed, stroke_width_world }
    }

    /// An open line at the top of the hierarchy.
    pub fn polyline<F: Fn(Bounds, i32) -> Bounds>(
        layer: LayerId,
        points: Vec<Point>,
        stroke_width_world: i32,
        widened: &F,
    ) -> (shape: Self)
        requires
            forall|bounds: Bounds, width: i32| #[trigger] widened.requires((bounds, width)),
        ensures
            forall|d: spec_fn(Bounds, i32) -> Bounds| #[trigger]
                widens(*widened, d) ==> shape@ == (ShapeModel {
                    layer,
                    hierarchy_level: 0,
                    bounds: padded_bounds(points@, Some(stroke_width_world), d),
                    points: points@,
                    closed: false,
                    stroke_width_world: Some(stroke_width_world),
                }),
    {
        RectShape::from_points(layer, points, false, 0, Some(stroke_width_world), widened)
    }

    /// A closed rectangle at the top of the hierarchy.
    pub fn rectangle(layer: LayerId, bounds: Bounds) -> (shape: Self)
        ensures
            shape@ == (ShapeModel {
                layer,
                hierarchy_level: 0,
                bounds,
                points: corners(bounds),
                closed: true,
                stroke_width_world: None,
            }),
    {
        RectShape {
            layer,
            hierarchy_level: 0,
            bounds,
            points: rectangle_points(bounds),
            closed: true,
            stroke_width_world: None,
        }
    }
}

/// Where the caller puts a shape.
#[derive(Debug)]
pub struct PlacedOutline {
    pub points: Vec<Point>,
    pub bounds: Bounds,
    /// The width of a line, as a coordinate key.
    pub stroke_width_world: Option<i32>,
}

/// Where a shape is put, apart from how it is stored.
pub struct PlacedModel {
    pub points: Seq<Point>,
    pub bounds: Bounds,
    pub stroke_width_world: Option<i32>,
}

impl View for PlacedOutline {
    type V = PlacedModel;

    open spec fn view(&self) -> PlacedModel {
        PlacedModel {
            points: self.points@,
            bounds: self.bounds,
            stroke_width_world: self.stroke_width_world,
        }
    }
}

/// How many shapes a scene has.
#[derive(Debug, Clone, Copy, PartialEq, Eq, Structural)]
pub struct SceneStats {
    pub shape_count: usize,
}

/// A flat list of shapes.
#[derive(Debug)]
pub struct Scene {
    shapes: Vec<RectShape>,
}

impl View for Scene {
    type V = Seq<ShapeModel>;

    closed spec fn view(&self) -> Seq<ShapeModel> {
        shape_models(self.shapes@)
    }
}

/// What the shapes of a list are.
pub open spec fn shape_models(shapes: Seq<RectShape>) -> Seq<ShapeModel> {
    shapes.map_values(|shape: RectShape| shape@)
}

/// The layers of the shapes, one by one.
pub open spec fn shape_layers(scene: Seq<ShapeModel>) -> Seq<LayerId> {
    scene.map_values(|shape: ShapeModel| shape.layer)
}

/// The rectangles around the shapes, one by one.
pub open spec fn shape_bounds(scene: Seq<ShapeModel>) -> Seq<Bounds> {
    scene.map_values(|shape: ShapeModel| shape.bounds)
}

/// How many points the shapes have together.
pub open spec fn point_count(scene: Seq<ShapeModel>) -> nat
    decreases scene.len(),
{
    if scene.len() == 0 {
        0
    } else {
        point_count(scene.drop_last()) + scene.last().points.len()
    }
}

/// The deepest level at which a shape stands, or zero where there is none.
pub open spec fn deepest_level(scene: Seq<ShapeModel>) -> u32
    decreases scene.len(),
{
    if scene.len() == 0 {
        0
    } else {
        let head = deepest_level(scene.drop_last());
        if scene.last().hierarchy_level > head {
            scene.last().hierarchy_level
        } else {
            head
        }
    }
}

/// The shapes on the levels from `min_level` to `max_level`.
pub open spec fn on_levels(
    scene: Seq<ShapeModel>,
    min_level: u32,
    max_level: u32,
) -> Seq<ShapeModel> {
    scene.filter(|shape: ShapeModel| min_level <= shape.hierarchy_level <= max_level)
}

proof fn lemma_point_count_take(scene: Seq<ShapeModel>, i: int)
    requires
        0 <= i < scene.len(),
    ensures
        point_count(scene.take(i + 1)) == point_count(scene.take(i)) + scene[i].points.len(),
        point_count(scene.take(i + 1)) <= point_count(scene),
    decreases scene.len() - i,
{
    assert(scene.take(i + 1).drop_last() =~= scene.take(i));
    if i + 1 == scene.len() {
        assert(scene.take(i + 1) =~= scene);
    } else {
        lemma_point_count_take(scene, i + 1);
    }
}

/// No shape stands deeper than the deepest level, and some shape stands there.
pub proof fn law_deepest_level(scene: Seq<ShapeModel>)
    ensures
        forall|i: int|
            0 <= i < scene.len() ==> (#[trigger] scene[i]).hierarchy_level <= deepest_level(scene),
        scene.len() > 0 ==> exists|i: int|
            0 <= i < scene.len() && (#[trigger] scene[i]).hierarchy_level == deepest_level(scene),
    decreases scene.len(),
{
    if scene.len() > 0 {
        let init = scene.drop_last();
        law_deepest_level(init);
        assert forall|i: int| 0 <= i < scene.len() implies (#[trigger] scene[i]).hierarchy_level
            <= deepest_level(scene) by {
            if i < init.len() {
                assert(init[i].hierarchy_level <= deepest_level(init));
            }
        }
        if scene.last().hierarchy_level > deepest_level(init) || init.len() == 0 {
            assert(scene[scene.len() - 1].hierarchy_level == deepest_level(scene));
        } else {
            let k = choose|k: int|
                0 <= k < init.len() && (#[trigger] init[k]).hierarchy_level == deepest_level(init);
            assert(scene[k].hierarchy_level == deepest_level(scene));
        }
    }
}

/// Filtering by the whole range of levels keeps every shape.
pub proof fn law_full_range_keeps_scene(scene: Seq<ShapeModel>, max_level: u32)
    requires
        max_level >= deepest_level(scene),
    ensures
        on_levels(scene, 0, max_level) == scene,
    decreases scene.len(),
{
    reveal(Seq::filter);
    if scene.len() > 0 {
        law_full_range_keeps_scene(scene.drop_last(), max_level);
        assert(scene.drop_last().push(scene.last()) =~= scene);
    }
}

/// Filtering by one range and then by another keeps what lies in both.
pub proof fn law_ranges_intersect(
    scene: Seq<ShapeModel>,
    min_a: u32,
    max_a: u32,
    min_b: u32,
    max_b: u32,
)
    ensures
        on_levels(on_levels(scene, min_a, max_a), min_b, max_b) == on_levels(
            scene,
            if min_a > min_b {
                min_a
            } else {
                min_b
            },
            if max_a < max_b {
                max_a
            } else {
                max_b
            },
        ),
    decreases scene.len(),
{
    reveal(Seq::filter);
    if scene.len() > 0 {
        law_ranges_intersect(scene.drop_last(), min_a, max_a, min_b, max_b);
        let inner = on_levels(scene.drop_last(), min_a, max_a);
        assert(inner.push(scene.last()).drop_last() =~= inner);
    }
}

impl Scene {
    /// The scene without shapes.
    pub fn empty() -> (scene: Self)
        ensures
            scene@ == Seq::<ShapeModel>::empty(),
    {
        let scene = Scene { shapes: Vec::new() };
        assert(scene@ =~= Seq::empty());
        scene
    }

    /// The scene of these shapes.
    pub fn from_shapes(shapes: Vec<RectShape>) -> (scene: Self)
        ensures
            scene@ == shape_models(shapes@),
    {
        Scene { shapes }
    }

    /// The shapes in order.
    pub fn shapes(&self) -> (shapes: &[RectShape])
        ensures
            shape_models(shapes@) == self@,
            shapes@.len() == self@.len(),
            forall|i: int| 0 <= i < shapes@.len() ==> (#[trigger] shapes@[i])@ == self@[i],
    {
        self.shapes.as_slice()
    }

    /// How many shapes there are.
    pub fn stats(&self) -> (stats: SceneStats)
        ensures
            stats.shape_count == self@.len(),
    {
        SceneStats { shape_count: self.shapes.len() }
    }

    /// The smallest rectangle around all shapes.
    pub fn bounds(&self) -> (bounds: Option<Bounds>)
        ensures
            bounds == union_of(shape_bounds(self@)),
    {
        let ghost all = shape_bounds(self@);
        let mut bounds: Option<Bounds> = None;
        let mut i: usize = 0;
        assert(all.take(0) =~= Seq::empty());
        while i < self.shapes.len()
            invariant
                i <= self.shapes@.len(),
                all == shape_bounds(self@),
                bounds == union_of(all.take(i as int)),
            decreases self.shapes@.len() - i,
        {
            let own = self.shapes[i].bounds;
            proof {
                assert(all.take(i + 1).drop_last() =~= all.take(i as int));
                assert(all.take(i + 1).last() == own);
            }
            bounds = match bounds {
                None => Some(own),
                Some(head) => Some(head.union(own)),
            };
            i += 1;
        }
        assert(all.take(i as int) =~= all);
        bounds
    }

    /// The layers that occur, in ascending order.
    pub fn layer_ids(&self) -> (ids: Vec<LayerId>)
        ensures
            layers::layers_ascend(ids@),
            ids@.to_set() == shape_layers(self@).to_set(),
            ids@ == layers::ascending(shape_layers(self@).to_set()),
    {
        let mut occurring: Vec<LayerId> = Vec::new();
        let mut i: usize = 0;
        while i < self.shapes.len()
            invariant
                i <= self.shapes@.len(),
                occurring@ == shape_layers(self@).take(i as int),
            decreases self.shapes@.len() - i,
        {
            occurring.push(self.shapes[i].layer);
            assert(occurring@ =~= shape_layers(self@).take(i + 1));
            i += 1;
        }
        assert(occurring@ =~= shape_layers(self@));
        LayerSet::from_layers(occurring.as_slice()).into_ids()
    }

    /// The deepest level at which a shape stands.
    pub fn max_hierarchy_level(&self) -> (level: u32)
        ensures
            level == deepest_level(self@),
    {
        let mut level: u32 = 0;
        let mut i: usize = 0;
        assert(self@.take(0) =~= Seq::empty());
        while i < self.shapes.len()
            invariant
                i <= self.shapes@.len(),
                level == deepest_level(self@.take(i as int)),
            decreases self.shapes@.len() - i,
        {
            proof {
                assert(self@.take(i + 1).drop_last() =~= self@.take(i as int));
                assert(self@.take(i + 1).last() == self.shapes@[i as int]@);
            }
            if self.shapes[i].hierarchy_level > level {
                level = self.shapes[i].hierarchy_level;
            }
            i += 1;
        }
        assert(self@.take(i as int) =~= self@);
        level
    }

    /// How many points the shapes have together.
    pub fn total_point_count(&self) -> (count: usize)
        requires
            point_count(self@) <= usize::MAX,
        ensures
            count == point_count(self@),
    {
        let mut count: usize = 0;
        let mut i: usize = 0;
        assert(self@.take(0) =~= Seq::empty());
        while i < self.shapes.len()
            invariant
                i <= self.shapes@.len(),
                point_count(self@) <= usize::MAX,
                count == point_count(self@.take(i as int)),
            decreases self.shapes@.len() - i,
        {
            proof {
                lemma_point_count_take(self@, i as int);
                assert(self@[i as int] == self.shapes@[i as int]@);
            }
            count += self.shapes[i].points.len();
            i += 1;
        }
        assert(self@.take(i as int) =~= self@);
        count
    }

    /// The scene of the shapes on the levels from `min_level` to `max_level`.
    pub fn filtered_by_hierarchy_range(&self, min_level: u32, max_level: u32) -> (scene: Self)
        ensures
            scene@ == on_levels(self@, min_level, max_level),
    {
        let ghost kept = |shape: ShapeModel| min_level <= shape.hierarchy_level <= max_level;
        let mut shapes: Vec<RectShape> = Vec::new();
        let mut i: usize = 0;
        proof {
            reveal(Seq::filter);
            assert(shape_models(shapes@) =~= self@.take(0).filter(kept));
        }
        while i < self.shapes.len()
            invariant
                i <= self.shapes@.len(),
                kept == (|shape: ShapeModel| min_level <= shape.hierarchy_level <= max_level),
                shape_models(shapes@) == self@.take(i as int).filter(kept),
            decreases self.shapes@.len() - i,
        {
            proof {
                seqs::lemma_filter_take(self@, i as int, kept);
                assert(self@[i as int] == self.shapes@[i as int]@);
            }
            let level: u32 = self.shapes[i].hierarchy_level;
            if level >= min_level && level <= max_level {
                let ghost before = shapes@;
                let shape = self.shapes[i].clone();
                shapes.push(shape);
                assert(shape_models(shapes@) =~= shape_models(before).push(shape@));
            }
            i += 1;
        }
        assert(self@.take(i as int) =~= self@);
        Scene { shapes }
    }
}

impl Clone for Scene {
    /// A scene of the same shapes.
    fn clone(&self) -> (copy: Self)
        ensures
            copy@ == self@,
    {
        let mut shapes: Vec<RectShape> = Vec::new();
        let mut i: usize = 0;
        assert(shape_models(shapes@) =~= self@.take(0));
        while i < self.shapes.len()
            invariant
                i <= self.shapes@.len(),
                shape_models(shapes@) == self@.take(i as int),
            decreases self.shapes@.len() - i,
        {
            let ghost before = shapes@;
            let shape = self.shapes[i].clone();
            shapes.push(shape);
            assert(self@[i as int] == self.shapes@[i as int]@);
            assert(shape_models(shapes@) =~= shape_models(before).push(shape@));
            assert(self@.take(i + 1) =~= self@.take(i as int).push(self@[i as int]));
            i += 1;
        }
        assert(self@.take(i as int) =~= self@);
        Scene { shapes }
    }
}

/// Another handle to the same value.
///
/// Calls `std::sync::Arc::clone`, of which it is claimed that the new pointer leads to the same
/// value as the old one.
#[verifier::external_body]
pub(crate) fn share<T>(handle: &Arc<T>) -> (copy: Arc<T>)
    ensures
        copy == *handle,
{
    Arc::clone(handle)
}

/// A scene with the name under which it is offered.
#[derive(Debug)]
pub struct SceneView {
    pub name: String,
    pub scene: Arc<Scene>,
}

/// The views of a file, one of them selected.
#[derive(Debug)]
pub struct SceneBundle {
    views: Vec<SceneView>,
    selected: usize,
}

impl SceneBundle {
    /// The views in order.
    pub closed spec fn listed(self) -> Seq<SceneView> {
        self.views@
    }

    /// The place of the selected view.
    pub closed spec fn selection(self) -> usize {
        self.selected
    }

    /// The bundle without views.
    pub fn empty() -> (bundle: Self)
        ensures
            bundle.listed().len() == 0,
            bundle.selection() == 0,
    {
        SceneBundle { views: Vec::new(), selected: 0 }
    }

    /// The bundle of these views, the first of them selected.
    pub fn new(views: Vec<SceneView>) -> (bundle: Self)
        ensures
            bundle.listed() == views@,
            bundle.selection() == 0,
    {
        SceneBundle { views, selected: 0 }
    }

    /// The bundle of one view.
    pub fn single(name: String, scene: Scene) -> (bundle: Self)
        ensures
            bundle.listed().len() == 1,
            bundle.listed()[0].name@ == name@,
            bundle.listed()[0].scene@ == scene@,
            bundle.selection() == 0,
    {
        let mut views: Vec<SceneView> = Vec::new();
        views.push(SceneView { name, scene: Arc::new(scene) });
        SceneBundle { views, selected: 0 }
    }

    /// The views in order.
    pub fn views(&self) -> (views: &[SceneView])
        ensures
            views@ == self.listed(),
    {
        self.views.as_slice()
    }

    /// The place of the selected view.
    pub fn selected_index(&self) -> (index: usize)
        ensures
            index == self.selection(),
    {
        self.selected
    }

    /// The selected view, where there is one.
    pub fn current_view(&self) -> (view: Option<&SceneView>)
        ensures
            view is Some <==> self.selection() < self.listed().len(),
            view matches Some(v) ==> *v == self.listed()[self.selection() as int],
    {
        if self.selected < self.views.len() {
            Some(&self.views[self.selected])
        } else {
            None
        }
    }

    /// The scene of the selected view.
    pub fn current_scene(&self) -> (scene: Option<&Scene>)
        ensures
            scene is Some <==> self.selection() < self.listed().len(),
            scene matches Some(s) ==> s@ == self.listed()[self.selection() as int].scene@,
    {
        if self.selected < self.views.len() {
            Some(&*self.views[self.selected].scene)
        } else {
            None
        }
    }

    /// A handle to the scene of the selected view.
    pub fn current_scene_handle(&self) -> (scene: Option<Arc<Scene>>)
        ensures
            scene is Some <==> self.selection() < self.listed().len(),
            scene matches Some(s) ==> s == self.listed()[self.selection() as int].scene,
    {
        if self.selected < self.views.len() {
            Some(share(&self.views[self.selected].scene))
        } else {
            None
        }
    }

    /// Puts the given scene into the selected view and empty scenes into the others.
    pub fn retain_only_selected_scene(&mut self, selected_scene: Arc<Scene>)
        ensures
            final(self).selection() == old(self).selection(),
            final(self).listed().len() == old(self).listed().len(),
            forall|i: int|
                0 <= i < old(self).listed().len() ==> {
                    let view = #[trigger] final(self).listed()[i];
                    &&& view.name == old(self).listed()[i].name
                    &&& i == old(self).selection() ==> view.scene == selected_scene
                    &&& i != old(self).selection() ==> view.scene@ == Seq::<ShapeModel>::empty()
                },
    {
        let ghost before = self.views@;
        let mut i: usize = 0;
        while i < self.views.len()
            invariant
                i <= self.views@.len(),
                self.views@.len() == before.len(),
                self.selected == old(self).selection(),
                before == old(self).listed(),
                forall|k: int| i <= k < before.len() ==> self.views@[k] == before[k],
                forall|k: int|
                    0 <= k < i ==> {
                        let view = #[trigger] self.views@[k];
                        &&& view.name == before[k].name
                        &&& k == self.selected ==> view.scene == selected_scene
                        &&& k != self.selected ==> view.scene@ == Seq::<ShapeModel>::empty()
                    },
            decreases self.views@.len() - i,
        {
            let scene: Arc<Scene> = if i == self.selected {
                share(&selected_scene)
            } else {
                Arc::new(Scene::empty())
            };
            let name = self.views[i].name.clone();
            self.views[i] = SceneView { name, scene };
            i += 1;
        }
    }

    /// Selects a view; tells whether the selection has changed.
    pub fn select(&mut self, index: usize) -> (changed: bool)
        ensures
            changed == (index < old(self).listed().len() && index != old(self).selection()),
            final(self).listed() == old(self).listed(),
            final(self).selection() == (if changed {
                index
            } else {
                old(self).selection()
            }),
    {
        if index >= self.views.len() || index == self.selected {
            return false;
        }
        self.selected = index;
        true
    }
}

} // verus!
