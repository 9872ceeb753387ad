//! What is drawn of a shape, and in how much detail.

use crate::coords;
use crate::coords::{key_at_most, key_exceeds};
use crate::layers::{LayerMap, LayerSet};
use crate::renderer::geometry::{
    effective_draw_mode, effective_hatch_style, ClosedShapeDrawMode, HatchStylePreset,
};
use crate::renderer::polygon;
use crate::renderer::polygon::normalized_closed_points;
use crate::scene;
use crate::scene::{bounds_from_points, copy_points, points_equal, Bounds, LayerId, Point};
use crate::seqs;
use vstd::prelude::*;

verus! {

/// From how many corners on a small closed shape is drawn with fewer.
pub const CLOSED_SHAPE_LOD_MIN_POINTS: usize = 64;

/// Up to which extent on the screen, 24, a closed shape is small enough for that; a coordinate key.
pub const CLOSED_SHAPE_LOD_MAX_SCREEN_EXTENT: i32 = 0x41c0_0000;

/// The fewest corners that the caller aims at for a closed shape.
pub const CLOSED_SHAPE_LOD_MIN_TARGET_POINTS: usize = 8;

/// The most corners that the caller aims at for a closed shape.
pub const CLOSED_SHAPE_LOD_MAX_TARGET_POINTS: usize = 24;

/// Up to which extent on the screen, 2, a shape is drawn as a mark; a coordinate key.
pub const TINY_SHAPE_MARKER_MAX_SCREEN_EXTENT: i32 = 0x4000_0000;

/// Up to which extent on the screen, 12, a closed shape is not filled; a coordinate key.
pub const SMALL_CLOSED_SHAPE_OUTLINE_ONLY_MAX_SCREEN_EXTENT: i32 = 0x4140_0000;

/// From how many points on a small line is drawn with fewer.
pub const POLYLINE_LOD_MIN_POINTS: usize = 64;

/// Up to which extent on the screen, 24, a line is small enough for that; a coordinate key.
pub const POLYLINE_LOD_MAX_SCREEN_EXTENT: i32 = 0x41c0_0000;

/// The fewest points that the caller aims at for a line.
pub const POLYLINE_LOD_MIN_TARGET_POINTS: usize = 6;

/// The most points that the caller aims at for a line.
pub const POLYLINE_LOD_MAX_TARGET_POINTS: usize = 20;

/// Whether a closed shape of so many corners and such an extent is drawn with fewer corners.
pub fn should_use_coarse_closed_shape_lod(point_count: usize, extent: i32) -> (coarse: bool)
    ensures
        coarse == (point_count >= CLOSED_SHAPE_LOD_MIN_POINTS && coords::at_most(
            extent,
            CLOSED_SHAPE_LOD_MAX_SCREEN_EXTENT,
        )),
{
    point_count >= CLOSED_SHAPE_LOD_MIN_POINTS && key_at_most(
        extent,
        CLOSED_SHAPE_LOD_MAX_SCREEN_EXTENT,
    )
}

/// Whether a shape of such an extent is drawn as a mark: one that does not exceed the limit, or that
/// has no extent to speak of. One without points is not drawn at all.
pub fn is_tiny_shape(point_count: usize, extent: i32) -> (tiny: bool)
    ensures
        tiny == (point_count > 0 && !coords::exceeds(extent, TINY_SHAPE_MARKER_MAX_SCREEN_EXTENT)),
{
    point_count > 0 && !key_exceeds(extent, TINY_SHAPE_MARKER_MAX_SCREEN_EXTENT)
}

/// Whether a closed shape is too small on the screen to be filled.
pub fn should_suppress_fill_for_small_closed_shape(point_count: usize, extent: i32) -> (suppress:
    bool)
    ensures
        suppress == (point_count > 0 && coords::at_most(
            extent,
            SMALL_CLOSED_SHAPE_OUTLINE_ONLY_MAX_SCREEN_EXTENT,
        )),
{
    point_count > 0 && key_at_most(extent, SMALL_CLOSED_SHAPE_OUTLINE_ONLY_MAX_SCREEN_EXTENT)
}

/// Whether the function answers every rectangle, and as `aim` says.
pub open spec fn decides_target<T: Fn(Bounds) -> usize>(
    target: &T,
    aim: spec_fn(Bounds) -> usize,
) -> bool {
    &&& forall|b: Bounds| #[trigger] target.requires((b,))
    &&& forall|b: Bounds, r: usize| #[trigger] target.ensures((b,), r) ==> r == aim(b)
}

/// Whether the function answers for every list length, aim and place, and as `pick` says.
pub open spec fn decides_sample<S: Fn(usize, usize, usize) -> usize>(
    sample: &S,
    pick: spec_fn(usize, usize, usize) -> usize,
) -> bool {
    &&& forall|n: usize, t: usize, i: usize| #[trigger] sample.requires((n, t, i))
    &&& forall|n: usize, t: usize, i: usize, r: usize| #[trigger]
        sample.ensures((n, t, i), r) ==> r == pick(n, t, i)
}

/// A number held between two others, the upper taken first where they cross.
pub open spec fn raised_then_lowered(n: usize, low: usize, high: usize) -> usize {
    let raised = if n < low {
        low
    } else {
        n
    };
    if raised > high {
        high
    } else {
        raised
    }
}

/// The sampled points from place `from` to before place `end`; no sample lies beyond `last`.
pub open spec fn samples(
    points: Seq<Point>,
    target: usize,
    pick: spec_fn(usize, usize, usize) -> usize,
    from: int,
    end: int,
    last: int,
) -> Seq<Point> {
    Seq::new(
        (if end > from {
            end - from
        } else {
            0
        }) as nat,
        |i: int|
            {
                let at = pick(points.len() as usize, target, (from + i) as usize);
                points[if at > last {
                    last
                } else {
                    at as int
                }]
            },
    )
}

/// A closed outline with fewer corners.
///
/// The tidied outline, where it has at least three corners: as it is where it has no more than
/// aimed at, else sampled without repetitions; as it is too where the sample has fewer than three.
pub open spec fn coarse_ring(
    points: Seq<Point>,
    same: spec_fn(Point, Point) -> bool,
    aim: spec_fn(Bounds) -> usize,
    pick: spec_fn(usize, usize, usize) -> usize,
) -> Option<Seq<Point>> {
    let corners = polygon::tidied(points, same);
    if corners.len() < 3 {
        None
    } else {
        let target = raised_then_lowered(
            aim(scene::points_bounds(corners).unwrap()),
            4,
            corners.len() as usize,
        );
        let kept = seqs::distinct(
            samples(corners, target, pick, 0, target as int, corners.len() - 1),
        );
        if corners.len() <= target || kept.len() < 3 {
            Some(corners)
        } else {
            Some(kept)
        }
    }
}

/// Whether the point is in the list.
fn has_point(points: &Vec<Point>, point: Point) -> (found: bool)
    ensures
        found == points@.contains(point),
{
    let mut i: usize = 0;
    while i < points.len()
        invariant
            i <= points@.len(),
            forall|k: int| 0 <= k < i ==> points@[k] != point,
        decreases points@.len() - i,
    {
        if points[i] == point {
            assert(points@[i as int] == point);
            return true;
        }
        i += 1;
    }
    false
}

/// Appends the sampled points that are not in the list yet.
fn append_samples<S: Fn(usize, usize, usize) -> usize>(
    list: &mut Vec<Point>,
    points: &Vec<Point>,
    target: usize,
    from: usize,
    end: usize,
    last: usize,
    sample: &S,
)
    requires
        last < points@.len(),
        forall|n: usize, t: usize, i: usize| #[trigger] sample.requires((n, t, i)),
    ensures
        forall|pick: spec_fn(usize, usize, usize) -> usize| #[trigger]
            decides_sample(sample, pick) ==> final(list)@ == seqs::append_new(
                old(list)@,
                samples(points@, target, pick, from as int, end as int, last as int),
            ),
        final(list)@.len() >= old(list)@.len(),
{
    let ghost start = list@;
    let mut i: usize = from;
    proof {
        assert forall|pick: spec_fn(usize, usize, usize) -> usize| #[trigger]
            decides_sample(sample, pick) implies list@ == seqs::append_new(
            start,
            samples(points@, target, pick, from as int, end as int, last as int).take(0),
        ) by {
            assert(samples(points@, target, pick, from as int, end as int, last as int).take(0)
                =~= Seq::<Point>::empty());
        }
    }
    while i < end
        invariant
            from <= i,
            i <= end || i == from,
            last < points@.len(),
            forall|n: usize, t: usize, i: usize| #[trigger] sample.requires((n, t, i)),
            list@.len() >= start.len(),
            forall|pick: spec_fn(usize, usize, usize) -> usize| #[trigger]
                decides_sample(sample, pick) ==> list@ == seqs::append_new(
                    start,
                    samples(points@, target, pick, from as int, end as int, last as int).take(
                        i - from,
                    ),
                ),
        decreases end - i,
    {
        let ghost before = list@;
        let answer: usize = sample(points.len(), target, i);
        let at: usize = if answer > last {
            last
        } else {
            answer
        };
        let point = points[at];
        if !has_point(list, point) {
            list.push(point);
        }
        proof {
            assert forall|pick: spec_fn(usize, usize, usize) -> usize| #[trigger]
                decides_sample(sample, pick) implies list@ == seqs::append_new(
                start,
                samples(points@, target, pick, from as int, end as int, last as int).take(
                    i + 1 - from,
                ),
            ) by {
                let all = samples(points@, target, pick, from as int, end as int, last as int);
                assert(answer == pick(points@.len() as usize, target, i));
                assert(all[i - from] == point);
                assert(before == seqs::append_new(start, all.take(i - from)));
                seqs::lemma_append_new_take(start, all, i - from);
            }
        }
        i += 1;
    }
    proof {
        assert forall|pick: spec_fn(usize, usize, usize) -> usize| #[trigger]
            decides_sample(sample, pick) implies list@ == seqs::append_new(
            start,
            samples(points@, target, pick, from as int, end as int, last as int),
        ) by {
            let all = samples(points@, target, pick, from as int, end as int, last as int);
            assert(all.take(i - from) =~= all);
        }
    }
}

/// A closed outline with fewer corners; none where it has fewer than three.
///
/// `target` says how many corners to aim at for an outline in a rectangle, `sample` which corner of
/// so many is taken at a place when so many are aimed at.
pub fn coarse_closed_shape_points<
    N: Fn(Point, Point) -> bool,
    T: Fn(Bounds) -> usize,
    S: Fn(usize, usize, usize) -> usize,
>(points: &[Point], near: &N, target: &T, sample: &S) -> (coarse: Option<Vec<Point>>)
    requires
        forall|a: Point, b: Point| #[trigger] near.requires((a, b)),
        forall|b: Bounds| #[trigger] target.requires((b,)),
        forall|n: usize, t: usize, i: usize| #[trigger] sample.requires((n, t, i)),
    ensures
        forall|
            same: spec_fn(Point, Point) -> bool,
            aim: spec_fn(Bounds) -> usize,
            pick: spec_fn(usize, usize, usize) -> usize,
        | #[trigger]
            polygon::decides_near(near, same) && #[trigger] decides_target(target, aim)
                && #[trigger] decides_sample(sample, pick) ==> match coarse {
                Some(list) => coarse_ring(points@, same, aim, pick) == Some(list@),
                None => coarse_ring(points@, same, aim, pick) is None,
            },
{
    let corners = normalized_closed_points(points, near);
    if corners.len() < 3 {
        return None;
    }
    let bounds = match bounds_from_points(&corners) {
        Some(bounds) => bounds,
        None => {
            proof {
                lemma_points_have_bounds(corners@);
            }
            return None;
        },
    };
    let aimed: usize = target(bounds);
    let raised: usize = if aimed < 4 {
        4
    } else {
        aimed
    };
    let goal: usize = if raised > corners.len() {
        corners.len()
    } else {
        raised
    };
    if corners.len() <= goal {
        return Some(corners);
    }
    let mut kept: Vec<Point> = Vec::new();
    append_samples(&mut kept, &corners, goal, 0, goal, corners.len() - 1, sample);
    if kept.len() < 3 {
        return Some(corners);
    }
    Some(kept)
}

proof fn lemma_points_have_bounds(points: Seq<Point>)
    requires
        points.len() > 0,
    ensures
        scene::points_bounds(points) is Some,
{
    let spanned = points.map_values(|p: Point| scene::point_bounds(p));
    assert(spanned.len() > 0);
}

/// A line with fewer points.
///
/// None for a line of few points or of a large extent. As it is where it has no more points than
/// aimed at, else the first point, the samples between without repetitions, and the last point
/// where it is not the last one taken; as it is too where fewer than two are left.
pub open spec fn coarse_line(
    points: Seq<Point>,
    extent_of: spec_fn(Bounds) -> i32,
    aim: spec_fn(Bounds) -> usize,
    pick: spec_fn(usize, usize, usize) -> usize,
) -> Option<Seq<Point>> {
    if points.len() < POLYLINE_LOD_MIN_POINTS {
        None
    } else {
        let bounds = scene::points_bounds(points).unwrap();
        if coords::exceeds(extent_of(bounds), POLYLINE_LOD_MAX_SCREEN_EXTENT) {
            None
        } else {
            let target = raised_then_lowered(aim(bounds), 2, points.len() as usize);
            let kept = seqs::append_new(
                seq![points[0]],
                samples(points, target, pick, 1, target - 1, points.len() - 2),
            );
            let ended = if !scene::same_point(kept.last(), points.last()) {
                kept.push(points.last())
            } else {
                kept
            };
            if points.len() <= target || ended.len() < 2 {
                Some(points)
            } else {
                Some(ended)
            }
        }
    }
}

/// Whether the function answers every rectangle, and as `extent_of` says.
pub open spec fn decides_extent<E: Fn(Bounds) -> i32>(
    extent: &E,
    extent_of: spec_fn(Bounds) -> i32,
) -> bool {
    &&& forall|b: Bounds| #[trigger] extent.requires((b,))
    &&& forall|b: Bounds, r: i32| #[trigger] extent.ensures((b,), r) ==> r == extent_of(b)
}

/// A line with fewer points; none where it is to be drawn as it is.
pub fn coarse_open_polyline_points<
    E: Fn(Bounds) -> i32,
    T: Fn(Bounds) -> usize,
    S: Fn(usize, usize, usize) -> usize,
>(points: &Vec<Point>, extent: &E, target: &T, sample: &S) -> (coarse: Option<Vec<Point>>)
    requires
        forall|b: Bounds| #[trigger] extent.requires((b,)),
        forall|b: Bounds| #[trigger] target.requires((b,)),
        forall|n: usize, t: usize, i: usize| #[trigger] sample.requires((n, t, i)),
    ensures
        points@.len() < POLYLINE_LOD_MIN_POINTS ==> coarse is None,
        forall|
            extent_of: spec_fn(Bounds) -> i32,
            aim: spec_fn(Bounds) -> usize,
            pick: spec_fn(usize, usize, usize) -> usize,
        | #[trigger]
            decides_extent(extent, extent_of) && #[trigger] decides_target(target, aim)
                && #[trigger] decides_sample(sample, pick) ==> match coarse {
                Some(list) => coarse_line(points@, extent_of, aim, pick) == Some(list@),
                None => coarse_line(points@, extent_of, aim, pick) is None,
            },
{
    if points.len() < POLYLINE_LOD_MIN_POINTS {
        return None;
    }
    let bounds = match bounds_from_points(points) {
        Some(bounds) => bounds,
        None => {
            proof {
                lemma_points_have_bounds(points@);
            }
            return None;
        },
    };
    let size: i32 = extent(bounds);
    if key_exceeds(size, POLYLINE_LOD_MAX_SCREEN_EXTENT) {
        return None;
    }
    let aimed: usize = target(bounds);
    let raised: usize = if aimed < 2 {
        2
    } else {
        aimed
    };
    let goal: usize = if raised > points.len() {
        points.len()
    } else {
        raised
    };
    if points.len() <= goal {
        return Some(copy_points(points));
    }
    let mut kept: Vec<Point> = Vec::new();
    kept.push(points[0]);
    assert(kept@ =~= seq![points@[0]]);
    append_samples(&mut kept, points, goal, 1, goal - 1, points.len() - 2, sample);
    if !points_equal(kept[kept.len() - 1], points[points.len() - 1]) {
        kept.push(points[points.len() - 1]);
    }
    if kept.len() < 2 {
        return Some(copy_points(points));
    }
    Some(kept)
}

/// One thing to draw of a shape.
#[derive(Debug, Clone, Copy, PartialEq, Eq, Structural)]
pub enum DrawStep {
    /// A mark in place of the shape.
    Marker,
    /// The lines of the outline with fewer corners.
    CoarseOutline,
    /// The parts of the outline that lie in the tile.
    ClippedOutline,
    /// The parts of the outline that were cut to the tile earlier.
    StoredOutline,
    /// The lines of the outline.
    FullOutline,
    /// The area of the outline with fewer corners.
    CoarseFill,
    /// The area of the outline.
    FullFill,
}

/// What stands for the outline of a closed shape.
pub open spec fn outline_steps(coarse: bool, plain: Seq<DrawStep>) -> Seq<DrawStep> {
    if coarse {
        seq![DrawStep::CoarseOutline]
    } else {
        plain
    }
}

/// What stands for the area of a closed shape.
pub open spec fn fill_steps(coarse: bool, fill_len: nat) -> Seq<DrawStep> {
    if coarse {
        seq![DrawStep::CoarseFill]
    } else if fill_len >= 3 {
        seq![DrawStep::FullFill]
    } else {
        Seq::empty()
    }
}

/// What is drawn of a closed shape, given what stands for its outline and its area. A small shape
/// whose outline is drawn anyway is not hatched.
pub open spec fn area_steps(
    mode: ClosedShapeDrawMode,
    small: bool,
    outline: Seq<DrawStep>,
    fill: Seq<DrawStep>,
) -> Seq<DrawStep> {
    match mode {
        ClosedShapeDrawMode::Outline => outline,
        ClosedShapeDrawMode::Hatch => fill,
        ClosedShapeDrawMode::HatchOutline => if small {
            outline
        } else {
            fill + outline
        },
    }
}

/// The outline of a closed shape in full: cut to the tile, or all of it where there is no tile.
pub open spec fn plain_outline(in_tile: bool, outline_len: nat) -> Seq<DrawStep> {
    if in_tile {
        seq![DrawStep::ClippedOutline]
    } else if outline_len >= 3 {
        seq![DrawStep::FullOutline]
    } else {
        Seq::empty()
    }
}

fn push_area_steps(
    steps: &mut Vec<DrawStep>,
    mode: ClosedShapeDrawMode,
    small: bool,
    outline: Option<DrawStep>,
    fill: Option<DrawStep>,
)
    ensures
        final(steps)@ == old(steps)@ + area_steps(mode, small, optional(outline), optional(fill)),
{
    let ghost before = steps@;
    let hatched = mode == ClosedShapeDrawMode::Hatch || (mode == ClosedShapeDrawMode::HatchOutline
        && !small);
    if hatched {
        if let Some(step) = fill {
            steps.push(step);
        }
    }
    if mode != ClosedShapeDrawMode::Hatch {
        if let Some(step) = outline {
            steps.push(step);
        }
    }
    assert(steps@ =~= before + area_steps(mode, small, optional(outline), optional(fill)));
}

/// The list of the one thing, or of none.
pub open spec fn optional(step: Option<DrawStep>) -> Seq<DrawStep> {
    match step {
        Some(step) => seq![step],
        None => Seq::empty(),
    }
}

/// What is drawn of a closed shape.
///
/// `tiny` and `small` say how large the shape is on the screen, `coarse` whether there is an
/// outline with fewer corners, `in_tile` whether the shape is drawn for one tile. The corners are
/// counted after tidying, those of the area also after cutting to the tile.
pub fn closed_shape_steps(
    mode: ClosedShapeDrawMode,
    tiny: bool,
    small: bool,
    coarse: bool,
    in_tile: bool,
    outline_len: usize,
    fill_len: usize,
) -> (steps: Vec<DrawStep>)
    ensures
        steps@ == (if tiny {
            seq![DrawStep::Marker]
        } else {
            area_steps(
                mode,
                small,
                outline_steps(coarse, plain_outline(in_tile, outline_len as nat)),
                fill_steps(coarse, fill_len as nat),
            )
        }),
{
    let mut steps: Vec<DrawStep> = Vec::new();
    if tiny {
        steps.push(DrawStep::Marker);
        assert(steps@ =~= seq![DrawStep::Marker]);
        return steps;
    }
    let outline = if coarse {
        Some(DrawStep::CoarseOutline)
    } else if in_tile {
        Some(DrawStep::ClippedOutline)
    } else if outline_len >= 3 {
        Some(DrawStep::FullOutline)
    } else {
        None
    };
    let fill = if coarse {
        Some(DrawStep::CoarseFill)
    } else if fill_len >= 3 {
        Some(DrawStep::FullFill)
    } else {
        None
    };
    push_area_steps(&mut steps, mode, small, outline, fill);
    assert(optional(outline) =~= outline_steps(coarse, plain_outline(in_tile, outline_len as nat)));
    assert(optional(fill) =~= fill_steps(coarse, fill_len as nat));
    assert(steps@ =~= area_steps(mode, small, optional(outline), optional(fill)));
    steps
}

/// What is drawn of a closed piece that was cut to its tile earlier.
pub fn prepared_fragment_steps(
    mode: ClosedShapeDrawMode,
    tiny: bool,
    small: bool,
    coarse: bool,
    fill_len: usize,
) -> (steps: Vec<DrawStep>)
    ensures
        steps@ == (if tiny {
            seq![DrawStep::Marker]
        } else {
            area_steps(
                mode,
                small,
                outline_steps(coarse, seq![DrawStep::StoredOutline]),
                fill_steps(coarse, fill_len as nat),
            )
        }),
{
    let mut steps: Vec<DrawStep> = Vec::new();
    if tiny {
        steps.push(DrawStep::Marker);
        assert(steps@ =~= seq![DrawStep::Marker]);
        return steps;
    }
    let outline = Some(
        if coarse {
            DrawStep::CoarseOutline
        } else {
            DrawStep::StoredOutline
        },
    );
    let fill = if coarse {
        Some(DrawStep::CoarseFill)
    } else if fill_len >= 3 {
        Some(DrawStep::FullFill)
    } else {
        None
    };
    push_area_steps(&mut steps, mode, small, outline, fill);
    assert(optional(outline) =~= outline_steps(coarse, seq![DrawStep::StoredOutline]));
    assert(optional(fill) =~= fill_steps(coarse, fill_len as nat));
    assert(steps@ =~= area_steps(mode, small, optional(outline), optional(fill)));
    steps
}

/// What is drawn of a line; nothing where it has fewer than two points.
pub fn open_shape_step(point_count: usize, tiny: bool, coarse: bool, in_tile: bool) -> (step: Option<
    DrawStep,
>)
    ensures
        step == (if point_count < 2 {
            None
        } else if tiny {
            Some(DrawStep::Marker)
        } else if coarse {
            Some(DrawStep::CoarseOutline)
        } else if in_tile {
            Some(DrawStep::ClippedOutline)
        } else {
            Some(DrawStep::FullOutline)
        }),
{
    if point_count < 2 {
        None
    } else if tiny {
        Some(DrawStep::Marker)
    } else if coarse {
        Some(DrawStep::CoarseOutline)
    } else if in_tile {
        Some(DrawStep::ClippedOutline)
    } else {
        Some(DrawStep::FullOutline)
    }
}

/// Whether the mark in place of a closed shape is an area rather than lines.
pub fn marker_is_filled(mode: ClosedShapeDrawMode) -> (filled: bool)
    ensures
        filled == (mode != ClosedShapeDrawMode::Outline),
{
    match mode {
        ClosedShapeDrawMode::Outline => false,
        ClosedShapeDrawMode::Hatch => true,
        ClosedShapeDrawMode::HatchOutline => true,
    }
}

/// A shape that is drawn only by its outline is never hatched, one that is only hatched never gets
/// an outline, and one of which both is drawn is hatched first, unless it is small.
pub proof fn law_modes_draw_what_they_name(small: bool, outline: Seq<DrawStep>, fill: Seq<DrawStep>)
    ensures
        area_steps(ClosedShapeDrawMode::Outline, small, outline, fill) == outline,
        area_steps(ClosedShapeDrawMode::Hatch, small, outline, fill) == fill,
        area_steps(ClosedShapeDrawMode::HatchOutline, small, outline, fill) == (if small {
            outline
        } else {
            fill + outline
        }),
{
}

/// A shape to draw: its place in the list, and how it is drawn.
#[derive(Debug, Clone, Copy, PartialEq, Eq, Structural)]
pub struct DrawItem {
    pub position: usize,
    pub mode: ClosedShapeDrawMode,
    pub style: HatchStylePreset,
}

/// How a shape of the layer is drawn.
pub open spec fn item_for(
    position: int,
    layer: LayerId,
    modes: Map<LayerId, ClosedShapeDrawMode>,
    styles: Map<LayerId, HatchStylePreset>,
    mode: ClosedShapeDrawMode,
    style: HatchStylePreset,
) -> DrawItem {
    DrawItem {
        position: position as usize,
        mode: if modes.dom().contains(layer) {
            modes[layer]
        } else {
            mode
        },
        style: if styles.dom().contains(layer) {
            styles[layer]
        } else {
            style
        },
    }
}

/// Of shapes with these layers those that are not hidden, with how each is drawn.
pub open spec fn draw_items(
    layer_of: Seq<LayerId>,
    hidden: Set<LayerId>,
    modes: Map<LayerId, ClosedShapeDrawMode>,
    styles: Map<LayerId, HatchStylePreset>,
    mode: ClosedShapeDrawMode,
    style: HatchStylePreset,
) -> Seq<DrawItem>
    decreases layer_of.len(),
{
    if layer_of.len() == 0 {
        Seq::empty()
    } else {
        let rest = draw_items(layer_of.drop_last(), hidden, modes, styles, mode, style);
        if hidden.contains(layer_of.last()) {
            rest
        } else {
            rest.push(item_for(layer_of.len() - 1, layer_of.last(), modes, styles, mode, style))
        }
    }
}

/// Of shapes with these layers those that are not hidden, with how each is drawn: as its layer
/// says, or by default.
pub fn shapes_to_draw(
    layer_of: &[LayerId],
    hidden_layers: &LayerSet,
    layer_draw_modes: &LayerMap<ClosedShapeDrawMode>,
    layer_hatch_styles: &LayerMap<HatchStylePreset>,
    draw_mode: ClosedShapeDrawMode,
    hatch_style: HatchStylePreset,
) -> (items: Vec<DrawItem>)
    ensures
        items@ == draw_items(
            layer_of@,
            hidden_layers@,
            layer_draw_modes@,
            layer_hatch_styles@,
            draw_mode,
            hatch_style,
        ),
{
    let mut items: Vec<DrawItem> = Vec::new();
    let mut i: usize = 0;
    while i < layer_of.len()
        invariant
            i <= layer_of@.len(),
            items@ == draw_items(
                layer_of@.take(i as int),
                hidden_layers@,
                layer_draw_modes@,
                layer_hatch_styles@,
                draw_mode,
                hatch_style,
            ),
        decreases layer_of@.len() - i,
    {
        let layer = layer_of[i];
        if !hidden_layers.contains(layer) {
            items.push(
                DrawItem {
                    position: i,
                    mode: effective_draw_mode(layer, draw_mode, layer_draw_modes),
                    style: effective_hatch_style(layer, hatch_style, layer_hatch_styles),
                },
            );
        }
        proof {
            assert(layer_of@.take(i + 1).drop_last() =~= layer_of@.take(i as int));
        }
        i += 1;
    }
    proof {
        assert(layer_of@.take(layer_of@.len() as int) =~= layer_of@);
    }
    items
}

/// No shape of a hidden layer is drawn, and every other is.
pub proof fn law_hidden_layers_are_not_drawn(
    layer_of: Seq<LayerId>,
    hidden: Set<LayerId>,
    modes: Map<LayerId, ClosedShapeDrawMode>,
    styles: Map<LayerId, HatchStylePreset>,
    mode: ClosedShapeDrawMode,
    style: HatchStylePreset,
    position: usize,
)
    requires
        layer_of.len() <= usize::MAX,
        position < layer_of.len(),
    ensures
        hidden.contains(layer_of[position as int]) <==> !exists|k: int|
            0 <= k < draw_items(layer_of, hidden, modes, styles, mode, style).len()
                && #[trigger] draw_items(layer_of, hidden, modes, styles, mode, style)[k].position
                == position,
{
    lemma_draw_items(layer_of, hidden, modes, styles, mode, style, position);
}

proof fn lemma_draw_items(
    layer_of: Seq<LayerId>,
    hidden: Set<LayerId>,
    modes: Map<LayerId, ClosedShapeDrawMode>,
    styles: Map<LayerId, HatchStylePreset>,
    mode: ClosedShapeDrawMode,
    style: HatchStylePreset,
    position: usize,
)
    requires
        layer_of.len() <= usize::MAX,
    ensures
        (exists|k: int|
            0 <= k < draw_items(layer_of, hidden, modes, styles, mode, style).len()
                && #[trigger] draw_items(layer_of, hidden, modes, styles, mode, style)[k].position
                == position) <==> position < layer_of.len() && !hidden.contains(
            layer_of[position as int],
        ),
    decreases layer_of.len(),
{
    let items = draw_items(layer_of, hidden, modes, styles, mode, style);
    if layer_of.len() > 0 {
        let head = layer_of.drop_last();
        let rest = draw_items(head, hidden, modes, styles, mode, style);
        lemma_draw_items(head, hidden, modes, styles, mode, style, position);
        if position < layer_of.len() && !hidden.contains(layer_of[position as int]) {
            if position < head.len() {
                let k = choose|k: int|
                    0 <= k < rest.len() && #[trigger] rest[k].position == position;
                assert(items[k].position == position);
            } else {
                assert(items[rest.len() as int].position == position);
            }
        }
        if exists|k: int| 0 <= k < items.len() && #[trigger] items[k].position == position {
            let k = choose|k: int| 0 <= k < items.len() && #[trigger] items[k].position == position;
            if k < rest.len() {
                assert(rest[k].position == position);
            }
        }
    }
}

} // verus!
