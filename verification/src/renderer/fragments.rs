//! Large shapes, cut to the tiles that they cover ahead of drawing.

use crate::counters;
use crate::counters::{capped_product, capped_sum};
use crate::layers;
use crate::renderer::geometry::TileId;
use crate::renderer::grid::{CellSpan, TileGridIndex};
use crate::renderer::polygon;
use crate::renderer::polygon::{
    clip_closed_polygon_to_bounds, clipped_closed_outline_segments, clipped_segments,
    normalized_closed_points, outline_segments, ClipEdge,
};
use crate::renderer::table;
use crate::renderer::table::TileLayerTable;
use crate::scene;
use crate::scene::{Bounds, LayerId, Point, RectShape, Scene};
use vstd::prelude::*;

verus! {

/// From how many tiles on a shape is cut ahead of drawing.
pub const LARGE_SHAPE_PRE_FRAGMENT_TILE_THRESHOLD: usize = 4;

/// The most pieces that are kept.
pub const DEFAULT_PREPARED_FRAGMENT_BUDGET: usize = 200_000;

/// The most points that the pieces may be expected to hold.
pub const DEFAULT_PREPARED_POINT_BUDGET: usize = 4_000_000;

/// How many pieces, and how many points in them, may be kept.
#[derive(Debug, Clone, Copy, PartialEq, Eq, Structural)]
pub struct PreparedFragmentBudget {
    pub max_fragments: usize,
    pub max_point_copies: usize,
}

impl PreparedFragmentBudget {
    /// A budget of so many pieces and points.
    pub fn new(max_fragments: usize, max_point_copies: usize) -> (budget: Self)
        ensures
            budget == (PreparedFragmentBudget { max_fragments, max_point_copies }),
    {
        PreparedFragmentBudget { max_fragments, max_point_copies }
    }

    /// The budget that is used where none is asked for.
    pub fn generous_default() -> (budget: Self)
        ensures
            budget == (PreparedFragmentBudget {
                max_fragments: DEFAULT_PREPARED_FRAGMENT_BUDGET,
                max_point_copies: DEFAULT_PREPARED_POINT_BUDGET,
            }),
    {
        PreparedFragmentBudget::new(DEFAULT_PREPARED_FRAGMENT_BUDGET, DEFAULT_PREPARED_POINT_BUDGET)
    }
}

/// The part of a shape that lies in one tile.
#[derive(Debug)]
pub struct PreparedTileFragment {
    pub layer: LayerId,
    pub points: Vec<Point>,
    pub closed: bool,
    /// The width of a line, as a coordinate key.
    pub stroke_width_world: Option<i32>,
    /// The parts of the shape's own edges that lie in the tile.
    pub outline_segments: Vec<(Point, Point)>,
}

/// What a piece is, apart from how it is stored.
#[verifier::ext_equal]
pub struct FragmentModel {
    pub layer: LayerId,
    pub points: Seq<Point>,
    pub closed: bool,
    pub stroke_width_world: Option<i32>,
    pub outline_segments: Seq<(Point, Point)>,
}

impl View for PreparedTileFragment {
    type V = FragmentModel;

    open spec fn view(&self) -> FragmentModel {
        FragmentModel {
            layer: self.layer,
            points: self.points@,
            closed: self.closed,
            stroke_width_world: self.stroke_width_world,
            outline_segments: self.outline_segments@,
        }
    }
}

/// What the pieces of a list are.
pub open spec fn models(fragments: Seq<PreparedTileFragment>) -> Seq<FragmentModel> {
    fragments.map_values(|fragment: PreparedTileFragment| fragment@)
}

/// How many pieces a shape is expected to make.
pub open spec fn expected_fragments(closed: bool, point_count: nat, tile_span: nat) -> nat {
    if closed {
        tile_span
    } else if point_count == 0 {
        0
    } else {
        tile_span * (point_count - 1) as nat
    }
}

/// How many points the pieces of a shape are expected to hold.
pub open spec fn expected_points(closed: bool, point_count: nat, tile_span: nat) -> nat {
    if closed {
        tile_span * point_count
    } else {
        expected_fragments(closed, point_count, tile_span) * 2
    }
}

/// How many pieces a shape is expected to make, as far as a `usize` counts.
pub fn estimated_fragment_count_for_shape(closed: bool, point_count: usize, tile_span: usize) -> (count:
    usize)
    ensures
        count == counters::capped(expected_fragments(closed, point_count as nat, tile_span as nat)),
{
    if closed {
        tile_span
    } else {
        let lines: usize = point_count.saturating_sub(1);
        assert(point_count == 0 ==> tile_span * lines == 0) by (nonlinear_arith)
            requires
                point_count == 0 ==> lines == 0,
        ;
        capped_product(tile_span, lines)
    }
}

/// How many points the pieces of a shape are expected to hold, as far as a `usize` counts.
pub fn estimated_point_copies_for_shape(closed: bool, point_count: usize, tile_span: usize) -> (count:
    usize)
    ensures
        count == counters::capped(expected_points(closed, point_count as nat, tile_span as nat)),
{
    if closed {
        capped_product(tile_span, point_count)
    } else {
        capped_product(estimated_fragment_count_for_shape(closed, point_count, tile_span), 2)
    }
}

/// The arithmetic that cutting rests on.
pub struct PlaneMath {
    /// Whether two points coincide.
    pub same: spec_fn(Point, Point) -> bool,
    /// Where an edge crosses a side of a rectangle.
    pub meet: spec_fn(ClipEdge, Bounds, Point, Point) -> Point,
    /// What of a line lies in a rectangle.
    pub cut: spec_fn(Bounds, Point, Point) -> Option<(Point, Point)>,
    /// The rectangle of a tile.
    pub bounds_of: spec_fn(TileId) -> Bounds,
}

/// Whether the functions answer every question.
pub open spec fn can_answer<
    N: Fn(Point, Point) -> bool,
    X: Fn(ClipEdge, Bounds, Point, Point) -> Point,
    C: Fn(Bounds, Point, Point) -> Option<(Point, Point)>,
    B: Fn(TileId) -> Bounds,
>(near: &N, cross: &X, clip: &C, tile_bounds: &B) -> bool {
    &&& forall|a: Point, b: Point| #[trigger] near.requires((a, b))
    &&& forall|e: ClipEdge, r: Bounds, a: Point, b: Point| #[trigger] cross.requires((e, r, a, b))
    &&& forall|r: Bounds, a: Point, b: Point| #[trigger] clip.requires((r, a, b))
    &&& forall|t: TileId| #[trigger] tile_bounds.requires((t,))
}

/// Whether the functions answer every question, and as `math` says.
pub open spec fn answers<
    N: Fn(Point, Point) -> bool,
    X: Fn(ClipEdge, Bounds, Point, Point) -> Point,
    C: Fn(Bounds, Point, Point) -> Option<(Point, Point)>,
    B: Fn(TileId) -> Bounds,
>(near: &N, cross: &X, clip: &C, tile_bounds: &B, math: PlaneMath) -> bool {
    &&& polygon::decides_near(near, math.same)
    &&& polygon::decides_cross(cross, math.meet)
    &&& polygon::decides_clip(clip, math.cut)
    &&& forall|t: TileId| #[trigger] tile_bounds.requires((t,))
    &&& forall|t: TileId, r: Bounds| #[trigger]
        tile_bounds.ensures((t,), r) ==> r == (math.bounds_of)(t)
}

/// The piece that a line of an open shape makes.
pub open spec fn line_piece(shape: scene::ShapeModel, line: (Point, Point)) -> FragmentModel {
    FragmentModel {
        layer: shape.layer,
        points: seq![line.0, line.1],
        closed: false,
        stroke_width_world: shape.stroke_width_world,
        outline_segments: Seq::empty(),
    }
}

/// The pieces of a shape in a rectangle: of a closed shape what is left of its area, where that
/// has at least three corners; of an open one what is left of each of its lines.
pub open spec fn pieces_in(shape: scene::ShapeModel, bounds: Bounds, math: PlaneMath) -> Seq<
    FragmentModel,
> {
    if shape.closed {
        let left = polygon::tidied(
            polygon::cut_polygon(shape.points, bounds, math.same, math.meet),
            math.same,
        );
        if left.len() >= 3 {
            seq![
                FragmentModel {
                    layer: shape.layer,
                    points: left,
                    closed: true,
                    stroke_width_world: shape.stroke_width_world,
                    outline_segments: polygon::cut_edges(
                        polygon::ring_edges(polygon::tidied(shape.points, math.same)),
                        bounds,
                        math.cut,
                    ),
                },
            ]
        } else {
            Seq::empty()
        }
    } else {
        polygon::cut_edges(polygon::outline_lines(shape.points, false), bounds, math.cut).map_values(
            |line: (Point, Point)| line_piece(shape, line),
        )
    }
}

/// The pieces with the tile that they lie in.
pub open spec fn placed(tile: TileId, pieces: Seq<FragmentModel>) -> Seq<(TileId, FragmentModel)> {
    pieces.map_values(|piece: FragmentModel| (tile, piece))
}

/// The pieces of a shape in these tiles, tile by tile.
pub open spec fn shape_pieces(
    shape: scene::ShapeModel,
    tiles: Seq<TileId>,
    math: PlaneMath,
) -> Seq<(TileId, FragmentModel)>
    decreases tiles.len(),
{
    if tiles.len() == 0 {
        Seq::empty()
    } else {
        shape_pieces(shape, tiles.drop_last(), math) + placed(
            tiles.last(),
            pieces_in(shape, (math.bounds_of)(tiles.last()), math),
        )
    }
}

/// How many points the pieces hold.
pub open spec fn points_in(pieces: Seq<(TileId, FragmentModel)>) -> nat
    decreases pieces.len(),
{
    if pieces.len() == 0 {
        0
    } else {
        points_in(pieces.drop_last()) + pieces.last().1.points.len()
    }
}

/// The pieces of a tile and layer, in order.
pub open spec fn pieces_at(
    pieces: Seq<(TileId, FragmentModel)>,
    tile: TileId,
    layer: LayerId,
) -> Seq<FragmentModel>
    decreases pieces.len(),
{
    if pieces.len() == 0 {
        Seq::empty()
    } else {
        let rest = pieces_at(pieces.drop_last(), tile, layer);
        if pieces.last().0 == tile && pieces.last().1.layer == layer {
            rest.push(pieces.last().1)
        } else {
            rest
        }
    }
}

/// How far cutting the shapes of a scene has come.
pub struct Preparation {
    pub pieces: Seq<(TileId, FragmentModel)>,
    pub shapes: Seq<u32>,
    pub used_fragments: usize,
    pub used_points: usize,
}

/// The least number of tiles that a shape must cover, never under two.
pub open spec fn effective_span(min_tile_span: usize) -> usize {
    if min_tile_span < 2 {
        2
    } else {
        min_tile_span
    }
}

/// Whether a shape is cut: it covers enough tiles, and what it is expected to make fits in what is
/// left of the budget.
pub open spec fn admitted(
    prep: Preparation,
    shape: scene::ShapeModel,
    tile_span: nat,
    min_tile_span: usize,
    budget: PreparedFragmentBudget,
) -> bool {
    &&& tile_span >= effective_span(min_tile_span)
    &&& counters::capped(
        prep.used_fragments as nat + counters::capped(
            expected_fragments(shape.closed, shape.points.len(), tile_span),
        ) as nat,
    ) <= budget.max_fragments
    &&& counters::capped(
        prep.used_points as nat + counters::capped(
            expected_points(shape.closed, shape.points.len(), tile_span),
        ) as nat,
    ) <= budget.max_point_copies
}

/// The next shape is cut, where it is admitted; it counts where it makes a piece.
pub open spec fn prepare_next(
    prep: Preparation,
    index: int,
    shape: scene::ShapeModel,
    tiles: Seq<TileId>,
    min_tile_span: usize,
    budget: PreparedFragmentBudget,
    math: PlaneMath,
) -> Preparation {
    let pieces = shape_pieces(shape, tiles, math);
    if !admitted(prep, shape, tiles.len(), min_tile_span, budget) || pieces.len() == 0 {
        prep
    } else {
        Preparation {
            pieces: prep.pieces + pieces,
            shapes: prep.shapes.push(index as u32),
            used_fragments: counters::capped(prep.used_fragments as nat + pieces.len()),
            used_points: counters::capped(prep.used_points as nat + points_in(pieces)),
        }
    }
}

/// The first `count` shapes of the scene, cut one after the other.
pub open spec fn prepared(
    scene: Seq<scene::ShapeModel>,
    index: TileGridIndex,
    spans: Seq<CellSpan>,
    min_tile_span: usize,
    budget: PreparedFragmentBudget,
    math: PlaneMath,
    count: nat,
) -> Preparation
    decreases count,
{
    if count == 0 {
        Preparation {
            pieces: Seq::empty(),
            shapes: Seq::empty(),
            used_fragments: 0,
            used_points: 0,
        }
    } else {
        prepare_next(
            prepared(scene, index, spans, min_tile_span, budget, math, (count - 1) as nat),
            count - 1,
            scene[count - 1],
            index.tiles_in(spans[count - 1]),
            min_tile_span,
            budget,
            math,
        )
    }
}

/// Whether the numbers ascend.
pub open spec fn indices_ascend(indices: Seq<u32>) -> bool {
    forall|j: int, k: int|
        0 <= j < k < indices.len() ==> (#[trigger] indices[j]) < (#[trigger] indices[k])
}

/// The pieces of large shapes, by tile and layer.
#[derive(Debug)]
pub struct PreparedTileFragments {
    table: TileLayerTable<PreparedTileFragment>,
    shape_indices: Vec<u32>,
    fragment_count: usize,
}

impl Default for PreparedTileFragments {
    /// No pieces.
    fn default() -> (none: Self)
        ensures
            none.shapes() == Seq::<u32>::empty(),
            none.piece_count() == 0,
            forall|tile: TileId, layer: LayerId| #[trigger]
                none.fragments(tile, layer) == Seq::<PreparedTileFragment>::empty(),
    {
        PreparedTileFragments {
            table: TileLayerTable::new(1, 1),
            shape_indices: Vec::new(),
            fragment_count: 0,
        }
    }
}

impl PreparedTileFragments {
    #[verifier::type_invariant]
    spec fn in_order(self) -> bool {
        &&& self.table.wf()
        &&& indices_ascend(self.shape_indices@)
    }

    /// The pieces of a tile and layer.
    pub closed spec fn fragments(self, tile: TileId, layer: LayerId) -> Seq<PreparedTileFragment> {
        self.table.items(tile, layer)
    }

    /// The layers of a tile that have pieces, in ascending order.
    pub closed spec fn layers(self, tile: TileId) -> Seq<LayerId> {
        self.table.tile_layers(tile)
    }

    /// The shapes that were cut, in scene order.
    pub closed spec fn shapes(self) -> Seq<u32> {
        self.shape_indices@
    }

    /// How many pieces there are.
    pub closed spec fn piece_count(self) -> usize {
        self.fragment_count
    }

    /// Whether these are the pieces that cutting made.
    pub open spec fn holds(self, prep: Preparation) -> bool {
        &&& forall|tile: TileId, layer: LayerId|
            models(#[trigger] self.fragments(tile, layer)) == pieces_at(prep.pieces, tile, layer)
        &&& self.shapes() == prep.shapes
        &&& self.piece_count() == counters::capped(prep.pieces.len())
    }

    /// How many shapes were cut.
    pub fn prepared_shape_count(&self) -> (count: usize)
        ensures
            count == self.shapes().len(),
    {
        self.shape_indices.len()
    }

    /// How many tiles have pieces.
    pub fn prepared_tile_count(&self) -> (count: usize)
        ensures
            count == Set::new(|tile: TileId| self.layers(tile).len() > 0).len(),
    {
        proof {
            use_type_invariant(&*self);
            assert(Set::new(|tile: TileId| self.layers(tile).len() > 0)
                =~= self.table.occupied());
        }
        self.table.tile_count()
    }

    /// How many pieces there are.
    pub fn prepared_fragment_count(&self) -> (count: usize)
        ensures
            count == self.piece_count(),
    {
        self.fragment_count
    }

    /// Whether the shape was cut.
    pub fn contains_shape(&self, index: u32) -> (found: bool)
        ensures
            found == self.shapes().contains(index),
    {
        proof {
            use_type_invariant(&*self);
        }
        let mut low: usize = 0;
        let mut high: usize = self.shape_indices.len();
        while low < high
            invariant
                low <= high <= self.shape_indices@.len(),
                indices_ascend(self.shape_indices@),
                forall|k: int| 0 <= k < low ==> (#[trigger] self.shape_indices@[k]) < index,
                forall|k: int|
                    high <= k < self.shape_indices@.len() ==> (#[trigger] self.shape_indices@[k])
                        >= index,
            decreases high - low,
        {
            let mid: usize = low + (high - low) / 2;
            if self.shape_indices[mid] < index {
                low = mid + 1;
            } else {
                high = mid;
            }
        }
        if low < self.shape_indices.len() && self.shape_indices[low] == index {
            assert(self.shape_indices@[low as int] == index);
            true
        } else {
            proof {
                if self.shape_indices@.contains(index) {
                    let k = choose|k: int|
                        0 <= k < self.shape_indices@.len() && self.shape_indices@[k] == index;
                    assert(k >= low);
                    if k > low {
                        assert(self.shape_indices@[low as int] < self.shape_indices@[k]);
                    }
                }
            }
            false
        }
    }

    /// The shapes that were cut, in scene order.
    pub fn shape_indices(&self) -> (indices: &Vec<u32>)
        ensures
            indices@ == self.shapes(),
    {
        &self.shape_indices
    }

    /// The layers of a tile that have pieces, in ascending order.
    pub fn layers_for_tile(&self, tile_id: TileId) -> (ids: Vec<LayerId>)
        ensures
            ids@ == self.layers(tile_id),
            layers::layers_ascend(ids@),
            forall|layer: LayerId| #[trigger]
                ids@.contains(layer) <==> self.fragments(tile_id, layer).len() > 0,
    {
        proof {
            use_type_invariant(&*self);
            self.table.lemma_tile_layers(tile_id);
        }
        self.table.layers_of(tile_id)
    }

    /// The pieces of a tile and layer, where there are some.
    pub fn fragments_for_tile_layer(&self, tile_id: TileId, layer: LayerId) -> (fragments: Option<
        &Vec<PreparedTileFragment>,
    >)
        ensures
            fragments is Some <==> self.fragments(tile_id, layer).len() > 0,
            fragments matches Some(list) ==> list@ == self.fragments(tile_id, layer),
    {
        proof {
            use_type_invariant(&*self);
        }
        self.table.items_of(tile_id, layer)
    }
}

/// Files one more piece, and keeps the table in step with the list of pieces.
fn file_piece(
    table: &mut TileLayerTable<PreparedTileFragment>,
    tile: TileId,
    fragment: PreparedTileFragment,
)
    requires
        old(table).wf(),
        table::on_grid(tile, old(table).col_count(), old(table).row_count()),
    ensures
        final(table).wf(),
        final(table).col_count() == old(table).col_count(),
        final(table).row_count() == old(table).row_count(),
        forall|pieces: Seq<(TileId, FragmentModel)>| #[trigger]
            filed(*old(table), pieces) ==> filed(*final(table), pieces.push((tile, fragment@))),
{
    let layer = fragment.layer;
    let ghost before = *table;
    let ghost model = fragment@;
    table.add(tile, layer, fragment);
    proof {
        assert forall|pieces: Seq<(TileId, FragmentModel)>| #[trigger] filed(
            before,
            pieces,
        ) implies filed(*table, pieces.push((tile, model))) by {
            let more = pieces.push((tile, model));
            assert(more.drop_last() =~= pieces);
            assert forall|t: TileId, l: LayerId| models(#[trigger] table.items(t, l)) == pieces_at(
                more,
                t,
                l,
            ) by {
                assert(models(before.items(t, l)) == pieces_at(pieces, t, l));
                if t == tile && l == layer {
                    assert(models(table.items(t, l)) =~= models(before.items(t, l)).push(model));
                }
            }
        }
    }
}

/// Whether the table holds these pieces.
pub open spec fn filed(
    table: TileLayerTable<PreparedTileFragment>,
    pieces: Seq<(TileId, FragmentModel)>,
) -> bool {
    forall|tile: TileId, layer: LayerId|
        models(#[trigger] table.items(tile, layer)) == pieces_at(pieces, tile, layer)
}

proof fn lemma_points_in_add(a: Seq<(TileId, FragmentModel)>, b: Seq<(TileId, FragmentModel)>)
    ensures
        points_in(a + b) == points_in(a) + points_in(b),
    decreases b.len(),
{
    if b.len() == 0 {
        assert(a + b =~= a);
    } else {
        assert((a + b).drop_last() =~= a + b.drop_last());
        lemma_points_in_add(a, b.drop_last());
    }
}

/// Files the pieces of a shape in one tile; says how many there are, and how many points they
/// hold.
fn cut_into_tile<
    N: Fn(Point, Point) -> bool,
    X: Fn(ClipEdge, Bounds, Point, Point) -> Point,
    C: Fn(Bounds, Point, Point) -> Option<(Point, Point)>,
    B: Fn(TileId) -> Bounds,
>(
    table: &mut TileLayerTable<PreparedTileFragment>,
    shape: &RectShape,
    tile: TileId,
    near: &N,
    cross: &X,
    clip: &C,
    tile_bounds: &B,
) -> (made: (usize, usize))
    requires
        old(table).wf(),
        table::on_grid(tile, old(table).col_count(), old(table).row_count()),
        can_answer(near, cross, clip, tile_bounds),
    ensures
        final(table).wf(),
        final(table).col_count() == old(table).col_count(),
        final(table).row_count() == old(table).row_count(),
        forall|math: PlaneMath, pieces: Seq<(TileId, FragmentModel)>| #[trigger]
            answers(near, cross, clip, tile_bounds, math) && #[trigger] filed(*old(table), pieces)
                ==> filed(
                *final(table),
                pieces + placed(tile, pieces_in(shape@, (math.bounds_of)(tile), math)),
            ),
        forall|math: PlaneMath| #[trigger]
            answers(near, cross, clip, tile_bounds, math) ==> {
                let here = placed(tile, pieces_in(shape@, (math.bounds_of)(tile), math));
                made.0 == counters::capped(here.len()) && made.1 == counters::capped(points_in(here))
            },
{
    let ghost start = *table;
    let bounds = tile_bounds(tile);
    if shape.closed {
        let cut = clip_closed_polygon_to_bounds(&shape.points, bounds, near, cross);
        let left = normalized_closed_points(&cut, near);
        if left.len() < 3 {
            proof {
                assert forall|math: PlaneMath, pieces: Seq<(TileId, FragmentModel)>| #[trigger]
                    answers(near, cross, clip, tile_bounds, math) && #[trigger] filed(
                        start,
                        pieces,
                    ) implies filed(
                    *table,
                    pieces + placed(tile, pieces_in(shape@, (math.bounds_of)(tile), math)),
                ) by {
                    let here = placed(tile, pieces_in(shape@, bounds, math));
                    assert(here.len() == 0);
                    assert(pieces + here =~= pieces);
                }
            }
            return (0, 0);
        }
        let count: usize = left.len();
        let outline = clipped_closed_outline_segments(&shape.points, bounds, near, clip);
        let fragment = PreparedTileFragment {
            layer: shape.layer,
            points: left,
            closed: true,
            stroke_width_world: shape.stroke_width_world,
            outline_segments: outline,
        };
        let ghost model = fragment@;
        file_piece(table, tile, fragment);
        proof {
            assert forall|math: PlaneMath, pieces: Seq<(TileId, FragmentModel)>| #[trigger] answers(
                near,
                cross,
                clip,
                tile_bounds,
                math,
            ) && #[trigger] filed(start, pieces) implies filed(
                *table,
                pieces + placed(tile, pieces_in(shape@, (math.bounds_of)(tile), math)),
            ) by {
                let here = placed(tile, pieces_in(shape@, bounds, math));
                assert(here =~= seq![(tile, model)]);
                assert(pieces + here =~= pieces.push((tile, model)));
            }
            assert forall|math: PlaneMath| #[trigger]
                answers(near, cross, clip, tile_bounds, math) implies {
                let here = placed(tile, pieces_in(shape@, (math.bounds_of)(tile), math));
                1 == counters::capped(here.len()) && count == counters::capped(points_in(here))
            } by {
                let here = placed(tile, pieces_in(shape@, bounds, math));
                assert(here =~= seq![(tile, model)]);
                reveal_with_fuel(points_in, 2);
                assert(here.drop_last() =~= Seq::<(TileId, FragmentModel)>::empty());
            }
        }
        return (1, count);
    }
    let lines = outline_segments(&shape.points, false);
    let left = clipped_segments(&lines, bounds, clip);
    let mut i: usize = 0;
    let mut points: usize = 0;
    proof {
        assert(line_pieces(shape@, tile, left@, 0) =~= Seq::<(TileId, FragmentModel)>::empty());
        assert forall|pieces: Seq<(TileId, FragmentModel)>| #[trigger] filed(
            start,
            pieces,
        ) implies filed(*table, pieces + line_pieces(shape@, tile, left@, 0)) by {
            assert(pieces + line_pieces(shape@, tile, left@, 0) =~= pieces);
        }
    }
    while i < left.len()
        invariant
            i <= left@.len(),
            table.wf(),
            table.col_count() == start.col_count(),
            table.row_count() == start.row_count(),
            table::on_grid(tile, start.col_count(), start.row_count()),
            forall|pieces: Seq<(TileId, FragmentModel)>| #[trigger]
                filed(start, pieces) ==> filed(
                    *table,
                    pieces + line_pieces(shape@, tile, left@, i as int),
                ),
            points == counters::capped(points_in(line_pieces(shape@, tile, left@, i as int))),
        decreases left@.len() - i,
    {
        let mut ends: Vec<Point> = Vec::new();
        ends.push(left[i].0);
        ends.push(left[i].1);
        let fragment = PreparedTileFragment {
            layer: shape.layer,
            points: ends,
            closed: false,
            stroke_width_world: shape.stroke_width_world,
            outline_segments: Vec::new(),
        };
        let ghost model = fragment@;
        let ghost mid = *table;
        file_piece(table, tile, fragment);
        points = capped_sum(points, 2);
        proof {
            let done = line_pieces(shape@, tile, left@, i as int);
            let more = line_pieces(shape@, tile, left@, i + 1);
            assert(model =~= line_piece(shape@, left@[i as int]));
            assert(more =~= done.push((tile, model)));
            assert(more.drop_last() =~= done);
            assert forall|pieces: Seq<(TileId, FragmentModel)>| #[trigger] filed(
                start,
                pieces,
            ) implies filed(*table, pieces + more) by {
                assert(filed(mid, pieces + done));
                assert(pieces + more =~= (pieces + done).push((tile, model)));
            }
        }
        i += 1;
    }
    proof {
        assert forall|math: PlaneMath, pieces: Seq<(TileId, FragmentModel)>| #[trigger] answers(
            near,
            cross,
            clip,
            tile_bounds,
            math,
        ) && #[trigger] filed(start, pieces) implies filed(
            *table,
            pieces + placed(tile, pieces_in(shape@, (math.bounds_of)(tile), math)),
        ) by {
            let here = placed(tile, pieces_in(shape@, bounds, math));
            assert(here =~= line_pieces(shape@, tile, left@, left@.len() as int));
        }
        assert forall|math: PlaneMath| #[trigger]
            answers(near, cross, clip, tile_bounds, math) implies {
            let here = placed(tile, pieces_in(shape@, (math.bounds_of)(tile), math));
            left@.len() == counters::capped(here.len()) && points == counters::capped(points_in(here))
        } by {
            let here = placed(tile, pieces_in(shape@, bounds, math));
            assert(here =~= line_pieces(shape@, tile, left@, left@.len() as int));
        }
    }
    (left.len(), points)
}

/// The pieces that the first `count` of these lines make.
spec fn line_pieces(
    shape: scene::ShapeModel,
    tile: TileId,
    lines: Seq<(Point, Point)>,
    count: int,
) -> Seq<(TileId, FragmentModel)> {
    Seq::new(count as nat, |i: int| (tile, line_piece(shape, lines[i])))
}

/// Files the pieces of a shape in these tiles; says how many there are, and how many points they
/// hold.
fn cut_into_tiles<
    N: Fn(Point, Point) -> bool,
    X: Fn(ClipEdge, Bounds, Point, Point) -> Point,
    C: Fn(Bounds, Point, Point) -> Option<(Point, Point)>,
    B: Fn(TileId) -> Bounds,
>(
    table: &mut TileLayerTable<PreparedTileFragment>,
    shape: &RectShape,
    tiles: &Vec<TileId>,
    near: &N,
    cross: &X,
    clip: &C,
    tile_bounds: &B,
) -> (made: (usize, usize))
    requires
        old(table).wf(),
        forall|k: int|
            0 <= k < tiles@.len() ==> table::on_grid(
                #[trigger] tiles@[k],
                old(table).col_count(),
                old(table).row_count(),
            ),
        can_answer(near, cross, clip, tile_bounds),
    ensures
        final(table).wf(),
        final(table).col_count() == old(table).col_count(),
        final(table).row_count() == old(table).row_count(),
        forall|math: PlaneMath, pieces: Seq<(TileId, FragmentModel)>| #[trigger]
            answers(near, cross, clip, tile_bounds, math) && #[trigger] filed(*old(table), pieces)
                ==> filed(*final(table), pieces + shape_pieces(shape@, tiles@, math)),
        forall|math: PlaneMath| #[trigger]
            answers(near, cross, clip, tile_bounds, math) ==> made.0 == counters::capped(
                shape_pieces(shape@, tiles@, math).len(),
            ) && made.1 == counters::capped(points_in(shape_pieces(shape@, tiles@, math))),
{
    let ghost start = *table;
    let mut fragment_total: usize = 0;
    let mut point_total: usize = 0;
    let mut i: usize = 0;
    proof {
        assert(tiles@.take(0) =~= Seq::<TileId>::empty());
        assert forall|math: PlaneMath, pieces: Seq<(TileId, FragmentModel)>| #[trigger] answers(
            near,
            cross,
            clip,
            tile_bounds,
            math,
        ) && #[trigger] filed(start, pieces) implies filed(
            *table,
            pieces + shape_pieces(shape@, tiles@.take(0), math),
        ) by {
            assert(pieces + shape_pieces(shape@, tiles@.take(0), math) =~= pieces);
        }
    }
    while i < tiles.len()
        invariant
            i <= tiles@.len(),
            table.wf(),
            table.col_count() == start.col_count(),
            table.row_count() == start.row_count(),
            forall|k: int|
                0 <= k < tiles@.len() ==> table::on_grid(
                    #[trigger] tiles@[k],
                    start.col_count(),
                    start.row_count(),
                ),
            can_answer(near, cross, clip, tile_bounds),
            forall|math: PlaneMath, pieces: Seq<(TileId, FragmentModel)>| #[trigger]
                answers(near, cross, clip, tile_bounds, math) && #[trigger] filed(start, pieces)
                    ==> filed(
                    *table,
                    pieces + shape_pieces(shape@, tiles@.take(i as int), math),
                ),
            forall|math: PlaneMath| #[trigger]
                answers(near, cross, clip, tile_bounds, math) ==> fragment_total == counters::capped(
                    shape_pieces(shape@, tiles@.take(i as int), math).len(),
                ) && point_total == counters::capped(
                    points_in(shape_pieces(shape@, tiles@.take(i as int), math)),
                ),
        decreases tiles@.len() - i,
    {
        let ghost mid = *table;
        let tile = tiles[i];
        let made = cut_into_tile(table, shape, tile, near, cross, clip, tile_bounds);
        let ghost fragments_before = fragment_total;
        let ghost points_before = point_total;
        fragment_total = capped_sum(fragment_total, made.0);
        point_total = capped_sum(point_total, made.1);
        proof {
            let head = tiles@.take(i + 1);
            assert(head.drop_last() =~= tiles@.take(i as int));
            assert(head.last() == tile);
            assert forall|math: PlaneMath, pieces: Seq<(TileId, FragmentModel)>| #[trigger] answers(
                near,
                cross,
                clip,
                tile_bounds,
                math,
            ) && #[trigger] filed(start, pieces) implies filed(
                *table,
                pieces + shape_pieces(shape@, head, math),
            ) by {
                let done = shape_pieces(shape@, tiles@.take(i as int), math);
                let here = placed(tile, pieces_in(shape@, (math.bounds_of)(tile), math));
                assert(filed(mid, pieces + done));
                assert(pieces + (done + here) =~= (pieces + done) + here);
            }
            assert forall|math: PlaneMath| #[trigger] answers(
                near,
                cross,
                clip,
                tile_bounds,
                math,
            ) implies fragment_total == counters::capped(shape_pieces(shape@, head, math).len())
                && point_total == counters::capped(points_in(shape_pieces(shape@, head, math))) by {
                let done = shape_pieces(shape@, tiles@.take(i as int), math);
                let here = placed(tile, pieces_in(shape@, (math.bounds_of)(tile), math));
                lemma_points_in_add(done, here);
            }
        }
        i += 1;
    }
    proof {
        assert(tiles@.take(tiles@.len() as int) =~= tiles@);
    }
    (fragment_total, point_total)
}

/// Cuts the shapes that cover enough tiles to those tiles, as far as the default budget allows.
pub fn prepare_large_shape_tile_fragments<
    N: Fn(Point, Point) -> bool,
    X: Fn(ClipEdge, Bounds, Point, Point) -> Point,
    C: Fn(Bounds, Point, Point) -> Option<(Point, Point)>,
    B: Fn(TileId) -> Bounds,
>(
    scene: &Scene,
    tile_grid: &TileGridIndex,
    spans: &[CellSpan],
    min_tile_span: usize,
    near: &N,
    cross: &X,
    clip: &C,
    tile_bounds: &B,
) -> (kept: PreparedTileFragments)
    requires
        spans@.len() == scene@.len(),
        scene@.len() <= u32::MAX,
        can_answer(near, cross, clip, tile_bounds),
    ensures
        forall|math: PlaneMath| #[trigger]
            answers(near, cross, clip, tile_bounds, math) ==> kept.holds(
                prepared(
                    scene@,
                    *tile_grid,
                    spans@,
                    min_tile_span,
                    (PreparedFragmentBudget {
                        max_fragments: DEFAULT_PREPARED_FRAGMENT_BUDGET,
                        max_point_copies: DEFAULT_PREPARED_POINT_BUDGET,
                    }),
                    math,
                    scene@.len(),
                ),
            ),
{
    prepare_large_shape_tile_fragments_with_budget(
        scene,
        tile_grid,
        spans,
        min_tile_span,
        PreparedFragmentBudget::generous_default(),
        near,
        cross,
        clip,
        tile_bounds,
    )
}

/// Cuts the shapes that cover enough tiles to those tiles, as far as the budget allows.
///
/// Each shape comes with the columns and rows that its box touches. A shape whose pieces are
/// expected to exceed what is left of the budget is passed over, and smaller ones after it may
/// still be cut.
pub fn prepare_large_shape_tile_fragments_with_budget<
    N: Fn(Point, Point) -> bool,
    X: Fn(ClipEdge, Bounds, Point, Point) -> Point,
    C: Fn(Bounds, Point, Point) -> Option<(Point, Point)>,
    B: Fn(TileId) -> Bounds,
>(
    scene: &Scene,
    tile_grid: &TileGridIndex,
    spans: &[CellSpan],
    min_tile_span: usize,
    budget: PreparedFragmentBudget,
    near: &N,
    cross: &X,
    clip: &C,
    tile_bounds: &B,
) -> (kept: PreparedTileFragments)
    requires
        spans@.len() == scene@.len(),
        scene@.len() <= u32::MAX,
        can_answer(near, cross, clip, tile_bounds),
    ensures
        forall|math: PlaneMath| #[trigger]
            answers(near, cross, clip, tile_bounds, math) ==> kept.holds(
                prepared(
                    scene@,
                    *tile_grid,
                    spans@,
                    min_tile_span,
                    budget,
                    math,
                    scene@.len(),
                ),
            ),
{
    let span: usize = if min_tile_span < 2 {
        2
    } else {
        min_tile_span
    };
    let divisions: u32 = tile_grid.divisions();
    let side: i32 = divisions as i32;
    let mut table: TileLayerTable<PreparedTileFragment> = TileLayerTable::new(side, side);
    let mut shape_indices: Vec<u32> = Vec::new();
    let mut used_fragments: usize = 0;
    let mut used_points: usize = 0;
    let shapes = scene.shapes();
    let mut i: usize = 0;
    proof {
        assert forall|tile: TileId, layer: LayerId| models(#[trigger] table.items(tile, layer))
            == pieces_at(Seq::empty(), tile, layer) by {
            assert(models(table.items(tile, layer)) =~= Seq::<FragmentModel>::empty());
        }
    }
    while i < shapes.len()
        invariant
            i <= shapes@.len(),
            shapes@.len() == scene@.len(),
            spans@.len() == scene@.len(),
            scene@.len() <= u32::MAX,
            forall|k: int| 0 <= k < shapes@.len() ==> (#[trigger] shapes@[k])@ == scene@[k],
            can_answer(near, cross, clip, tile_bounds),
            span == effective_span(min_tile_span),
            side == tile_grid.side(),
            0 < side <= 1024,
            table.wf(),
            table.col_count() == side,
            table.row_count() == side,
            indices_ascend(shape_indices@),
            forall|k: int| 0 <= k < shape_indices@.len() ==> (#[trigger] shape_indices@[k]) < i,
            forall|math: PlaneMath| #[trigger]
                answers(near, cross, clip, tile_bounds, math) ==> {
                    let prep = prepared(
                        scene@,
                        *tile_grid,
                        spans@,
                        min_tile_span,
                        budget,
                        math,
                        i as nat,
                    );
                    &&& filed(table, prep.pieces)
                    &&& shape_indices@ == prep.shapes
                    &&& used_fragments == prep.used_fragments
                    &&& used_fragments == counters::capped(prep.pieces.len())
                    &&& used_points == prep.used_points
                },
        decreases shapes@.len() - i,
    {
        let shape = &shapes[i];
        assert(shape@ == scene@[i as int]);
        let tiles = tile_grid.tile_ids_for_bounds(spans[i]);
        let fragments_expected: usize = estimated_fragment_count_for_shape(
            shape.closed,
            shape.points.len(),
            tiles.len(),
        );
        let points_expected: usize = estimated_point_copies_for_shape(
            shape.closed,
            shape.points.len(),
            tiles.len(),
        );
        let fits = tiles.len() >= span && capped_sum(used_fragments, fragments_expected)
            <= budget.max_fragments && capped_sum(used_points, points_expected)
            <= budget.max_point_copies;
        let ghost earlier_table = table;
        let ghost earlier_indices = shape_indices@;
        let ghost earlier_fragments = used_fragments;
        let ghost earlier_points = used_points;
        if fits {
            proof {
                assert forall|k: int| 0 <= k < tiles@.len() implies table::on_grid(
                    #[trigger] tiles@[k],
                    side,
                    side,
                ) by {
                    assert(tiles@.contains(tiles@[k]));
                }
            }
            let made = cut_into_tiles(&mut table, shape, &tiles, near, cross, clip, tile_bounds);
            if made.0 > 0 {
                shape_indices.push(i as u32);
                used_fragments = capped_sum(used_fragments, made.0);
                used_points = capped_sum(used_points, made.1);
            }
        }
        proof {
            assert forall|math: PlaneMath| #[trigger]
                answers(near, cross, clip, tile_bounds, math) implies {
                let prep = prepared(
                    scene@,
                    *tile_grid,
                    spans@,
                    min_tile_span,
                    budget,
                    math,
                    (i + 1) as nat,
                );
                &&& filed(table, prep.pieces)
                &&& shape_indices@ == prep.shapes
                &&& used_fragments == prep.used_fragments
                &&& used_fragments == counters::capped(prep.pieces.len())
                &&& used_points == prep.used_points
            } by {
                let prep = prepared(
                    scene@,
                    *tile_grid,
                    spans@,
                    min_tile_span,
                    budget,
                    math,
                    i as nat,
                );
                assert(filed(earlier_table, prep.pieces));
                let pieces = shape_pieces(shape@, tiles@, math);
                assert(fits == admitted(prep, shape@, tiles@.len(), min_tile_span, budget));
                if fits {
                    if pieces.len() == 0 {
                        assert(prep.pieces + pieces =~= prep.pieces);
                    }
                }
            }
        }
        i += 1;
    }
    let kept = PreparedTileFragments { table, shape_indices, fragment_count: used_fragments };
    proof {
        assert forall|math: PlaneMath| #[trigger]
            answers(near, cross, clip, tile_bounds, math) implies kept.holds(
            prepared(
                scene@,
                *tile_grid,
                spans@,
                min_tile_span,
                budget,
                math,
                scene@.len(),
            ),
        ) by {
            let prep = prepared(
                scene@,
                *tile_grid,
                spans@,
                min_tile_span,
                budget,
                math,
                scene@.len(),
            );
            assert(filed(table, prep.pieces));
            assert forall|tile: TileId, layer: LayerId|
                models(#[trigger] kept.fragments(tile, layer)) == pieces_at(
                    prep.pieces,
                    tile,
                    layer,
                ) by {
                assert(models(table.items(tile, layer)) == pieces_at(prep.pieces, tile, layer));
            }
        }
    }
    kept
}

proof fn lemma_cut_edges_len(
    edges: Seq<(Point, Point)>,
    bounds: Bounds,
    cut: spec_fn(Bounds, Point, Point) -> Option<(Point, Point)>,
)
    ensures
        polygon::cut_edges(edges, bounds, cut).len() <= edges.len(),
    decreases edges.len(),
{
    if edges.len() > 0 {
        lemma_cut_edges_len(edges.drop_last(), bounds, cut);
    }
}

proof fn lemma_shape_pieces_len(shape: scene::ShapeModel, tiles: Seq<TileId>, math: PlaneMath)
    ensures
        shape_pieces(shape, tiles, math).len() <= expected_fragments(
            shape.closed,
            shape.points.len(),
            tiles.len(),
        ),
    decreases tiles.len(),
{
    let n = tiles.len();
    let m = shape.points.len();
    if n > 0 {
        lemma_shape_pieces_len(shape, tiles.drop_last(), math);
        let bounds = (math.bounds_of)(tiles.last());
        lemma_cut_edges_len(polygon::outline_lines(shape.points, false), bounds, math.cut);
        if !shape.closed && m > 0 {
            assert((n - 1) * (m - 1) + (m - 1) == n * (m - 1)) by (nonlinear_arith);
        }
    } else if !shape.closed && m > 0 {
        assert(n * (m - 1) == 0) by (nonlinear_arith)
            requires
                n == 0,
        ;
    }
}

/// Cutting never keeps more pieces than the budget allows.
pub proof fn law_budget_is_kept(
    scene: Seq<scene::ShapeModel>,
    index: TileGridIndex,
    spans: Seq<CellSpan>,
    min_tile_span: usize,
    budget: PreparedFragmentBudget,
    math: PlaneMath,
    count: nat,
)
    ensures
        counters::capped(
            prepared(scene, index, spans, min_tile_span, budget, math, count).pieces.len(),
        ) <= budget.max_fragments,
        prepared(scene, index, spans, min_tile_span, budget, math, count).used_fragments == counters::capped(
            prepared(scene, index, spans, min_tile_span, budget, math, count).pieces.len(),
        ),
    decreases count,
{
    if count > 0 {
        law_budget_is_kept(scene, index, spans, min_tile_span, budget, math, (count - 1) as nat);
        lemma_shape_pieces_len(scene[count - 1], index.tiles_in(spans[count - 1]), math);
    }
}

/// The shapes that were cut are listed in scene order, each once, and each covers enough tiles.
pub proof fn law_prepared_shapes(
    scene: Seq<scene::ShapeModel>,
    index: TileGridIndex,
    spans: Seq<CellSpan>,
    min_tile_span: usize,
    budget: PreparedFragmentBudget,
    math: PlaneMath,
    count: nat,
)
    requires
        count <= u32::MAX,
    ensures
        ({
            let shapes = prepared(scene, index, spans, min_tile_span, budget, math, count).shapes;
            &&& forall|k: int|
                0 <= k < shapes.len() ==> (#[trigger] shapes[k]) < count && index.tiles_in(
                    spans[shapes[k] as int],
                ).len() >= effective_span(min_tile_span)
            &&& indices_ascend(shapes)
        }),
    decreases count,
{
    if count > 0 {
        law_prepared_shapes(scene, index, spans, min_tile_span, budget, math, (count - 1) as nat);
        let before = prepared(
            scene,
            index,
            spans,
            min_tile_span,
            budget,
            math,
            (count - 1) as nat,
        ).shapes;
        let shapes = prepared(scene, index, spans, min_tile_span, budget, math, count).shapes;
        if shapes != before {
            assert(shapes == before.push((count - 1) as u32));
            assert forall|k: int| 0 <= k < shapes.len() implies (#[trigger] shapes[k]) < count
                && index.tiles_in(spans[shapes[k] as int]).len() >= effective_span(
                min_tile_span,
            ) by {
                if k < before.len() {
                    assert(shapes[k] == before[k]);
                } else {
                    assert(shapes[k] as int == count - 1);
                }
            }
        }
    }
}

} // verus!
