//! The uniform grids over a scene: one that finds shapes, one that groups them by tile.

use crate::coords;
use crate::layers;
use crate::renderer::geometry::{clamp_tile_grid_divisions, encode_shape_index, TileId};
use crate::renderer::geometry;
use crate::renderer::table;
use crate::renderer::table::TileLayerTable;
use crate::scene;
use crate::scene::{Bounds, LayerId, Scene};
use crate::seqs;
use vstd::prelude::*;

verus! {

/// The most columns and rows that the shape grid has.
pub const MAX_SHAPE_GRID_SIDE: i32 = 32;

/// The columns and rows that a box touches, before they are held to a grid.
#[derive(Debug, Clone, Copy, PartialEq, Eq, Structural)]
pub struct CellSpan {
    pub min_col: i32,
    pub max_col: i32,
    pub min_row: i32,
    pub max_row: i32,
}

/// The nearest of the cells `0 .. count`.
pub open spec fn held(cell: i32, count: i32) -> i32 {
    if cell < 0 {
        0
    } else if cell > count - 1 {
        (count - 1) as i32
    } else {
        cell
    }
}

/// The nearest of the cells `0 .. count`.
pub fn hold_cell(cell: i32, count: i32) -> (near: i32)
    requires
        count > 0,
    ensures
        near == held(cell, count),
        0 <= near < count,
{
    if cell < 0 {
        0
    } else if cell > count - 1 {
        count - 1
    } else {
        cell
    }
}

/// Whether the span, held to the grid, takes the tile in.
pub open spec fn covers(span: CellSpan, cols: i32, rows: i32, tile: TileId) -> bool {
    &&& held(span.min_col, cols) <= tile.col <= held(span.max_col, cols)
    &&& held(span.min_row, rows) <= tile.row <= held(span.max_row, rows)
}

/// Whether two spans, held to the grid, have a tile in common.
pub open spec fn spans_meet(a: CellSpan, b: CellSpan, cols: i32, rows: i32) -> bool {
    exists|tile: TileId| #[trigger] covers(a, cols, rows, tile) && covers(b, cols, rows, tile)
}

/// Whether the tiles stand column by column, each column from its lowest row.
pub open spec fn tiles_ascend(tiles: Seq<TileId>) -> bool {
    forall|i: int, j: int|
        0 <= i < j < tiles.len() ==> tile_before(#[trigger] tiles[i], #[trigger] tiles[j])
}

/// Whether one tile stands before the other.
pub open spec fn tile_before(a: TileId, b: TileId) -> bool {
    a.col < b.col || (a.col == b.col && a.row < b.row)
}

/// Of the first `count` shapes, those of the layer that the tile takes in, in scene order.
pub open spec fn tile_bucket(
    layer_of: Seq<LayerId>,
    spans: Seq<CellSpan>,
    count: nat,
    cols: i32,
    rows: i32,
    tile: TileId,
    layer: LayerId,
) -> Seq<u32>
    decreases count,
{
    if count == 0 {
        Seq::empty()
    } else {
        let rest = tile_bucket(layer_of, spans, (count - 1) as nat, cols, rows, tile, layer);
        if layer_of[count - 1] == layer && covers(spans[count - 1], cols, rows, tile) {
            rest.push((count - 1) as u32)
        } else {
            rest
        }
    }
}

/// A shape that stands in a bucket is one of the counted shapes, of the layer and in the tile.
pub proof fn lemma_tile_bucket(
    layer_of: Seq<LayerId>,
    spans: Seq<CellSpan>,
    count: nat,
    cols: i32,
    rows: i32,
    tile: TileId,
    layer: LayerId,
)
    requires
        count <= u32::MAX + 1,
    ensures
        forall|i: u32| #[trigger]
            tile_bucket(layer_of, spans, count, cols, rows, tile, layer).contains(i) <==> (i < count
                && layer_of[i as int] == layer && covers(spans[i as int], cols, rows, tile)),
        forall|a: int, b: int|
            0 <= a < b < tile_bucket(layer_of, spans, count, cols, rows, tile, layer).len() ==> (
            #[trigger] tile_bucket(layer_of, spans, count, cols, rows, tile, layer)[a])
                < #[trigger] tile_bucket(layer_of, spans, count, cols, rows, tile, layer)[b],
    decreases count,
{
    let bucket = tile_bucket(layer_of, spans, count, cols, rows, tile, layer);
    if count > 0 {
        let rest = tile_bucket(layer_of, spans, (count - 1) as nat, cols, rows, tile, layer);
        lemma_tile_bucket(layer_of, spans, (count - 1) as nat, cols, rows, tile, layer);
        let last = (count - 1) as u32;
        assert(last == count - 1);
        assert forall|i: u32| #[trigger] bucket.contains(i) <==> (i < count && layer_of[i as int]
            == layer && covers(spans[i as int], cols, rows, tile)) by {
            assert(rest.contains(i) <==> (i < count - 1 && layer_of[i as int] == layer && covers(
                spans[i as int],
                cols,
                rows,
                tile,
            )));
            seqs::lemma_push_contains(rest, last, i);
        }
        assert forall|a: int, b: int| 0 <= a < b < bucket.len() implies (#[trigger] bucket[a])
            < #[trigger] bucket[b] by {
            if b == rest.len() {
                assert(rest.contains(rest[a]));
            }
        }
    }
}

/// Files each shape under its layer in every tile that its span takes in.
fn fill_table(layer_of: &Vec<LayerId>, spans: &[CellSpan], cols: i32, rows: i32) -> (filled:
    TileLayerTable<u32>)
    requires
        layer_of@.len() == spans@.len(),
        spans@.len() <= u32::MAX,
        0 < cols <= 1024,
        0 < rows <= 1024,
    ensures
        filled.wf(),
        filled.col_count() == cols,
        filled.row_count() == rows,
        forall|tile: TileId, layer: LayerId|
            table::on_grid(tile, cols, rows) ==> #[trigger] filled.items(tile, layer)
                == tile_bucket(layer_of@, spans@, spans@.len(), cols, rows, tile, layer),
        forall|tile: TileId, layer: LayerId|
            !table::on_grid(tile, cols, rows) ==> (#[trigger] filled.items(tile, layer)).len() == 0,
{
    let mut filled: TileLayerTable<u32> = TileLayerTable::new(cols, rows);
    let mut i: usize = 0;
    while i < spans.len()
        invariant
            i <= spans@.len(),
            layer_of@.len() == spans@.len(),
            spans@.len() <= u32::MAX,
            0 < cols <= 1024,
            0 < rows <= 1024,
            filled.wf(),
            filled.col_count() == cols,
            filled.row_count() == rows,
            forall|tile: TileId, layer: LayerId|
                table::on_grid(tile, cols, rows) ==> #[trigger] filled.items(tile, layer)
                    == tile_bucket(layer_of@, spans@, i as nat, cols, rows, tile, layer),
            forall|tile: TileId, layer: LayerId|
                !table::on_grid(tile, cols, rows) ==> (#[trigger] filled.items(tile, layer)).len()
                    == 0,
        decreases spans@.len() - i,
    {
        let layer = layer_of[i];
        let index: u32 = encode_shape_index(i);
        let min_col: i32 = hold_cell(spans[i].min_col, cols);
        let max_col: i32 = hold_cell(spans[i].max_col, cols);
        let min_row: i32 = hold_cell(spans[i].min_row, rows);
        let max_row: i32 = hold_cell(spans[i].max_row, rows);
        let mut col: i32 = min_col;
        while col <= max_col
            invariant
                i < spans@.len(),
                layer_of@.len() == spans@.len(),
                spans@.len() <= u32::MAX,
                0 < cols <= 1024,
                0 < rows <= 1024,
                layer == layer_of@[i as int],
                index == i,
                min_col == held(spans@[i as int].min_col, cols),
                max_col == held(spans@[i as int].max_col, cols),
                min_row == held(spans@[i as int].min_row, rows),
                max_row == held(spans@[i as int].max_row, rows),
                0 <= min_col < cols,
                0 <= max_col < cols,
                0 <= min_row < rows,
                0 <= max_row < rows,
                min_col <= col,
                col <= max_col + 1 || col == min_col,
                filled.wf(),
                filled.col_count() == cols,
                filled.row_count() == rows,
                forall|t: TileId, l: LayerId|
                    table::on_grid(t, cols, rows) ==> #[trigger] filled.items(t, l)
                        == tile_bucket(
                        layer_of@,
                        spans@,
                        if covers(spans@[i as int], cols, rows, t) && t.col < col {
                            (i + 1) as nat
                        } else {
                            i as nat
                        },
                        cols,
                        rows,
                        t,
                        l,
                    ),
                forall|t: TileId, l: LayerId|
                    !table::on_grid(t, cols, rows) ==> (#[trigger] filled.items(t, l)).len() == 0,
            decreases max_col - col + 1,
        {
            let mut row: i32 = min_row;
            while row <= max_row
                invariant
                    i < spans@.len(),
                    layer_of@.len() == spans@.len(),
                    spans@.len() <= u32::MAX,
                    0 < cols <= 1024,
                    0 < rows <= 1024,
                    layer == layer_of@[i as int],
                    index == i,
                    min_col == held(spans@[i as int].min_col, cols),
                    max_col == held(spans@[i as int].max_col, cols),
                    min_row == held(spans@[i as int].min_row, rows),
                    max_row == held(spans@[i as int].max_row, rows),
                    0 <= min_col <= col <= max_col < cols,
                    0 <= min_row < rows,
                    0 <= max_row < rows,
                    min_row <= row,
                    row <= max_row + 1 || row == min_row,
                    filled.wf(),
                    filled.col_count() == cols,
                    filled.row_count() == rows,
                    forall|t: TileId, l: LayerId|
                        table::on_grid(t, cols, rows) ==> #[trigger] filled.items(t, l)
                            == tile_bucket(
                            layer_of@,
                            spans@,
                            if covers(spans@[i as int], cols, rows, t) && (t.col < col || (t.col
                                == col && t.row < row)) {
                                (i + 1) as nat
                            } else {
                                i as nat
                            },
                            cols,
                            rows,
                            t,
                            l,
                        ),
                    forall|t: TileId, l: LayerId|
                        !table::on_grid(t, cols, rows) ==> (#[trigger] filled.items(t, l)).len()
                            == 0,
                decreases max_row - row + 1,
            {
                filled.add(TileId { col, row }, layer, index);
                row += 1;
            }
            col += 1;
        }
        i += 1;
    }
    filled
}

/// The tiles of a grid that a span takes in, column by column, each column from its lowest row.
fn tiles_of_span(table: &TileLayerTable<u32>, every_tile: bool, span: CellSpan) -> (tiles: Vec<
    TileId,
>)
    requires
        table.wf(),
    ensures
        tiles_ascend(tiles@),
        forall|tile: TileId| #[trigger]
            tiles@.contains(tile) <==> (covers(span, table.col_count(), table.row_count(), tile)
                && (every_tile || table.tile_layers(tile).len() > 0)),
{
    let cols: i32 = table.cols();
    let rows: i32 = table.rows();
    let min_col: i32 = hold_cell(span.min_col, cols);
    let max_col: i32 = hold_cell(span.max_col, cols);
    let min_row: i32 = hold_cell(span.min_row, rows);
    let max_row: i32 = hold_cell(span.max_row, rows);
    let mut tiles: Vec<TileId> = Vec::new();
    let mut col: i32 = min_col;
    while col <= max_col
        invariant
            table.wf(),
            cols == table.col_count(),
            rows == table.row_count(),
            0 < cols <= 1024,
            0 < rows <= 1024,
            min_col == held(span.min_col, cols),
            max_col == held(span.max_col, cols),
            min_row == held(span.min_row, rows),
            max_row == held(span.max_row, rows),
            0 <= min_col < cols,
            0 <= max_col < cols,
            0 <= min_row < rows,
            0 <= max_row < rows,
            min_col <= col,
            col <= max_col + 1 || col == min_col,
            tiles_ascend(tiles@),
            forall|tile: TileId| #[trigger]
                tiles@.contains(tile) <==> (covers(span, cols, rows, tile) && tile.col < col && (
                every_tile || table.tile_layers(tile).len() > 0)),
        decreases max_col - col + 1,
    {
        let mut row: i32 = min_row;
        while row <= max_row
            invariant
                table.wf(),
                cols == table.col_count(),
                rows == table.row_count(),
                0 < cols <= 1024,
                0 < rows <= 1024,
                min_col == held(span.min_col, cols),
                max_col == held(span.max_col, cols),
                min_row == held(span.min_row, rows),
                max_row == held(span.max_row, rows),
                0 <= min_col <= col <= max_col < cols,
                0 <= min_row < rows,
                0 <= max_row < rows,
                min_row <= row,
                row <= max_row + 1 || row == min_row,
                tiles_ascend(tiles@),
                forall|tile: TileId| #[trigger]
                    tiles@.contains(tile) <==> (covers(span, cols, rows, tile) && (tile.col < col
                        || (tile.col == col && tile.row < row)) && (every_tile
                        || table.tile_layers(tile).len() > 0)),
            decreases max_row - row + 1,
        {
            let tile = TileId { col, row };
            let ghost before = tiles@;
            if every_tile || table.has_tile(tile) {
                tiles.push(tile);
                proof {
                    assert forall|i: int, j: int| 0 <= i < j < tiles@.len() implies tile_before(
                        #[trigger] tiles@[i],
                        #[trigger] tiles@[j],
                    ) by {
                        if j == before.len() {
                            assert(before.contains(before[i]));
                        }
                    }
                    assert forall|t: TileId| #[trigger] tiles@.contains(t) <==> (before.contains(t)
                        || t == tile) by {
                        seqs::lemma_push_contains(before, tile, t);
                    }
                }
            }
            row += 1;
        }
        col += 1;
    }
    tiles
}

/// The side of the grid of an area without shapes.
pub open spec fn area_side(divisions: u32) -> i32 {
    if divisions == 0 {
        1
    } else if divisions > geometry::MAX_TILE_GRID_DIVISIONS {
        geometry::MAX_TILE_GRID_DIVISIONS as i32
    } else {
        divisions as i32
    }
}

/// The side of the grid of an area without shapes: as asked, of one tile at least.
pub fn area_grid_side(divisions: u32) -> (side: i32)
    ensures
        side == area_side(divisions),
{
    if divisions == 0 {
        1
    } else if divisions > geometry::MAX_TILE_GRID_DIVISIONS {
        geometry::MAX_TILE_GRID_DIVISIONS as i32
    } else {
        divisions as i32
    }
}

/// The shapes of a scene, and its layers, by tile.
#[derive(Debug)]
pub struct TileGridIndex {
    table: TileLayerTable<u32>,
    /// Whether a tile without shapes is a tile of the index too.
    every_tile: bool,
}

/// The layer of each shape, in scene order.
fn collect_shape_layers(scene: &Scene) -> (layer_of: Vec<LayerId>)
    ensures
        layer_of@ == scene::shape_layers(scene@),
{
    let shapes = scene.shapes();
    let mut layer_of: Vec<LayerId> = Vec::new();
    let mut i: usize = 0;
    while i < shapes.len()
        invariant
            i <= shapes@.len(),
            shapes@.len() == scene@.len(),
            forall|k: int| 0 <= k < shapes@.len() ==> (#[trigger] shapes@[k])@ == scene@[k],
            layer_of@ == scene::shape_layers(scene@).take(i as int),
        decreases shapes@.len() - i,
    {
        assert(shapes@[i as int]@ == scene@[i as int]);
        layer_of.push(shapes[i].layer);
        assert(layer_of@ =~= scene::shape_layers(scene@).take(i + 1));
        i += 1;
    }
    assert(layer_of@ =~= scene::shape_layers(scene@));
    layer_of
}

impl TileGridIndex {
    #[verifier::type_invariant]
    spec fn in_order(self) -> bool {
        &&& self.table.wf()
        &&& self.table.col_count() == self.table.row_count()
        &&& 1 <= self.table.col_count() <= geometry::MAX_TILE_GRID_DIVISIONS
    }

    /// How many columns, and how many rows, of tiles there are.
    pub closed spec fn side(self) -> i32 {
        self.table.col_count()
    }

    /// The shapes of a layer that the tile takes in, in scene order.
    pub closed spec fn bucket(self, tile: TileId, layer: LayerId) -> Seq<u32> {
        self.table.items(tile, layer)
    }

    /// The layers that the tile has shapes of, in ascending order.
    pub closed spec fn layers(self, tile: TileId) -> Seq<LayerId> {
        self.table.tile_layers(tile)
    }

    /// Whether the tile is one of the index.
    pub closed spec fn has(self, tile: TileId) -> bool {
        self.table.tile_layers(tile).len() > 0 || (self.every_tile && table::on_grid(
            tile,
            self.table.col_count(),
            self.table.row_count(),
        ))
    }

    /// The index at the default density.
    pub fn build(scene: &Scene, spans: &[CellSpan]) -> (index: Self)
        requires
            spans@.len() == scene@.len(),
            spans@.len() <= u32::MAX,
        ensures
            index.indexes(*scene, spans@, geometry::DEFAULT_TILE_GRID_DIVISIONS as i32),
    {
        Self::build_with_divisions(scene, spans, geometry::DEFAULT_TILE_GRID_DIVISIONS)
    }

    /// Whether this is the index of the scene, with these spans, on a grid of this side.
    pub open spec fn indexes(self, scene: Scene, spans: Seq<CellSpan>, side: i32) -> bool {
        &&& self.side() == side
        &&& forall|tile: TileId, layer: LayerId|
            table::on_grid(tile, side, side) ==> #[trigger] self.bucket(tile, layer) == tile_bucket(
                scene::shape_layers(scene@),
                spans,
                spans.len(),
                side,
                side,
                tile,
                layer,
            )
        &&& forall|tile: TileId, layer: LayerId|
            !table::on_grid(tile, side, side) ==> (#[trigger] self.bucket(tile, layer)).len() == 0
        &&& forall|tile: TileId|
            layers::layers_ascend(#[trigger] self.layers(tile)) && (self.has(tile) <==> self.layers(
                tile,
            ).len() > 0)
        &&& forall|tile: TileId, layer: LayerId| #[trigger]
            self.layers(tile).contains(layer) <==> self.bucket(tile, layer).len() > 0
    }

    /// The index at a density, which is first brought into the range that the grid supports.
    ///
    /// Each shape comes with the columns and rows that its box touches.
    pub fn build_with_divisions(scene: &Scene, spans: &[CellSpan], divisions: u32) -> (index: Self)
        requires
            spans@.len() == scene@.len(),
            spans@.len() <= u32::MAX,
        ensures
            index.indexes(
                *scene,
                spans@,
                geometry::clamped_divisions(divisions) as i32,
            ),
    {
        let layer_of = collect_shape_layers(scene);
        let side: i32 = clamp_tile_grid_divisions(divisions);
        let filled = fill_table(&layer_of, spans, side, side);
        let index = TileGridIndex { table: filled, every_tile: false };
        proof {
            assert forall|tile: TileId| layers::layers_ascend(#[trigger] index.layers(tile)) && (
            index.has(tile) <==> index.layers(tile).len() > 0) by {
                filled.lemma_tile_layers(tile);
            }
            assert forall|tile: TileId, layer: LayerId| #[trigger]
                index.layers(tile).contains(layer) <==> index.bucket(tile, layer).len() > 0 by {
                filled.lemma_tile_layers(tile);
            }
        }
        index
    }

    /// The index of an area without shapes: every tile is listed, and none has a layer. The area
    /// may be a single tile.
    pub fn build_for_bounds(divisions: u32) -> (index: Self)
        ensures
            index.side() == area_side(divisions),
            forall|tile: TileId| #[trigger]
                index.has(tile) <==> table::on_grid(tile, index.side(), index.side()),
            forall|tile: TileId| (#[trigger] index.layers(tile)).len() == 0,
            forall|tile: TileId, layer: LayerId| (#[trigger] index.bucket(tile, layer)).len() == 0,
    {
        let side: i32 = area_grid_side(divisions);
        let empty: TileLayerTable<u32> = TileLayerTable::new(side, side);
        let index = TileGridIndex { table: empty, every_tile: true };
        proof {
            assert forall|tile: TileId| (#[trigger] index.layers(tile)).len() == 0 by {
                empty.lemma_tile_layers(tile);
                if index.layers(tile).len() > 0 {
                    assert(index.layers(tile).contains(index.layers(tile)[0]));
                    assert(empty.items(tile, index.layers(tile)[0]).len() > 0);
                }
            }
            assert forall|tile: TileId| #[trigger] index.has(tile) <==> table::on_grid(
                tile,
                index.side(),
                index.side(),
            ) by {
                assert(index.layers(tile).len() == 0);
            }
        }
        index
    }

    /// How many columns, and how many rows, of tiles there are.
    pub fn divisions(&self) -> (divisions: u32)
        ensures
            divisions == self.side(),
            1 <= divisions <= geometry::MAX_TILE_GRID_DIVISIONS,
    {
        proof {
            use_type_invariant(&*self);
        }
        self.table.cols() as u32
    }

    /// Whether the tile is one of the index.
    pub fn has_tile(&self, tile_id: TileId) -> (found: bool)
        ensures
            found == self.has(tile_id),
    {
        proof {
            use_type_invariant(&*self);
        }
        self.table.has_tile(tile_id) || (self.every_tile && 0 <= tile_id.col && tile_id.col
            < self.table.cols() && 0 <= tile_id.row && tile_id.row < self.table.rows())
    }

    /// The layers that the tile has shapes of, in ascending order.
    pub fn layers_for_tile(&self, tile_id: TileId) -> (ids: Vec<LayerId>)
        ensures
            ids@ == self.layers(tile_id),
            layers::layers_ascend(ids@),
            forall|layer: LayerId| #[trigger]
                ids@.contains(layer) <==> self.bucket(tile_id, layer).len() > 0,
    {
        proof {
            use_type_invariant(&*self);
            self.table.lemma_tile_layers(tile_id);
        }
        self.table.layers_of(tile_id)
    }

    /// The shapes of a layer that the tile takes in, in scene order.
    pub fn shape_indices_for_tile_layer(&self, tile_id: TileId, layer: LayerId) -> (indices: Vec<
        u32,
    >)
        ensures
            indices@ == self.bucket(tile_id, layer),
    {
        proof {
            use_type_invariant(&*self);
        }
        let mut indices: Vec<u32> = Vec::new();
        match self.table.items_of(tile_id, layer) {
            Some(bucket) => {
                let mut i: usize = 0;
                while i < bucket.len()
                    invariant
                        i <= bucket@.len(),
                        indices@ == bucket@.take(i as int),
                    decreases bucket@.len() - i,
                {
                    indices.push(bucket[i]);
                    assert(indices@ =~= bucket@.take(i + 1));
                    i += 1;
                }
                assert(indices@ =~= bucket@);
            },
            None => {
                assert(indices@ =~= self.bucket(tile_id, layer));
            },
        }
        indices
    }

    /// The tiles of the index that a span takes in, column by column.
    pub open spec fn tiles_in(self, span: CellSpan) -> Seq<TileId> {
        choose|tiles: Seq<TileId>|
            #![trigger tiles_ascend(tiles)]
            tiles_ascend(tiles) && forall|tile: TileId| #[trigger]
                tiles.contains(tile) <==> covers(span, self.side(), self.side(), tile) && self.has(
                    tile,
                )
    }

    /// The tiles of the index that a span takes in, column by column.
    pub fn tile_ids_for_bounds(&self, span: CellSpan) -> (tiles: Vec<TileId>)
        ensures
            tiles@ == self.tiles_in(span),
            tiles_ascend(tiles@),
            forall|tile: TileId| #[trigger]
                tiles@.contains(tile) <==> covers(span, self.side(), self.side(), tile) && self.has(
                    tile,
                ),
    {
        proof {
            use_type_invariant(&*self);
        }
        let tiles = tiles_of_span(&self.table, self.every_tile, span);
        proof {
            law_ascending_tiles_are_unique(tiles@, self.tiles_in(span));
        }
        tiles
    }
}

/// The tiles of a column from one row to before another that have a property.
spec fn column_tiles(col: int, from: int, to: int, p: spec_fn(TileId) -> bool) -> Seq<TileId>
    decreases to - from,
{
    if from >= to {
        Seq::empty()
    } else {
        let rest = column_tiles(col, from, to - 1, p);
        let last = TileId { col: col as i32, row: (to - 1) as i32 };
        if p(last) {
            rest.push(last)
        } else {
            rest
        }
    }
}

/// The tiles of some columns and rows that have a property, column by column.
spec fn block_tiles(
    from_col: int,
    to_col: int,
    from_row: int,
    to_row: int,
    p: spec_fn(TileId) -> bool,
) -> Seq<TileId>
    decreases to_col - from_col,
{
    if from_col >= to_col {
        Seq::empty()
    } else {
        block_tiles(from_col, to_col - 1, from_row, to_row, p) + column_tiles(
            to_col - 1,
            from_row,
            to_row,
            p,
        )
    }
}

proof fn lemma_column_tiles(col: int, from: int, to: int, p: spec_fn(TileId) -> bool)
    requires
        i32::MIN <= col <= i32::MAX,
        i32::MIN <= from,
        to <= i32::MAX + 1,
    ensures
        tiles_ascend(column_tiles(col, from, to, p)),
        forall|tile: TileId| #[trigger]
            column_tiles(col, from, to, p).contains(tile) <==> tile.col == col && from <= tile.row
                < to && p(tile),
    decreases to - from,
{
    let all = column_tiles(col, from, to, p);
    if from < to {
        lemma_column_tiles(col, from, to - 1, p);
        let rest = column_tiles(col, from, to - 1, p);
        let last = TileId { col: col as i32, row: (to - 1) as i32 };
        assert forall|i: int, j: int| 0 <= i < j < all.len() implies tile_before(
            #[trigger] all[i],
            #[trigger] all[j],
        ) by {
            if j < rest.len() {
                assert(tile_before(rest[i], rest[j]));
            } else {
                assert(rest.contains(rest[i]));
            }
        }
        assert forall|tile: TileId| #[trigger] all.contains(tile) <==> tile.col == col && from
            <= tile.row < to && p(tile) by {
            if p(last) {
                seqs::lemma_push_contains(rest, last, tile);
            }
            assert(rest.contains(tile) <==> tile.col == col && from <= tile.row < to - 1 && p(
                tile,
            ));
        }
    }
}

proof fn lemma_block_tiles(
    from_col: int,
    to_col: int,
    from_row: int,
    to_row: int,
    p: spec_fn(TileId) -> bool,
)
    requires
        i32::MIN <= from_col,
        to_col <= i32::MAX + 1,
        i32::MIN <= from_row,
        to_row <= i32::MAX + 1,
    ensures
        tiles_ascend(block_tiles(from_col, to_col, from_row, to_row, p)),
        forall|tile: TileId| #[trigger]
            block_tiles(from_col, to_col, from_row, to_row, p).contains(tile) <==> from_col
                <= tile.col < to_col && from_row <= tile.row < to_row && p(tile),
    decreases to_col - from_col,
{
    let all = block_tiles(from_col, to_col, from_row, to_row, p);
    if from_col < to_col {
        lemma_block_tiles(from_col, to_col - 1, from_row, to_row, p);
        lemma_column_tiles(to_col - 1, from_row, to_row, p);
        let rest = block_tiles(from_col, to_col - 1, from_row, to_row, p);
        let column = column_tiles(to_col - 1, from_row, to_row, p);
        assert forall|i: int, j: int| 0 <= i < j < all.len() implies tile_before(
            #[trigger] all[i],
            #[trigger] all[j],
        ) by {
            if j < rest.len() {
                assert(tile_before(rest[i], rest[j]));
            } else if i >= rest.len() {
                assert(tile_before(column[i - rest.len()], column[j - rest.len()]));
            } else {
                assert(rest.contains(rest[i]));
                assert(column.contains(column[j - rest.len()]));
            }
        }
        assert forall|tile: TileId| #[trigger] all.contains(tile) <==> from_col <= tile.col < to_col
            && from_row <= tile.row < to_row && p(tile) by {
            assert(rest.contains(tile) <==> from_col <= tile.col < to_col - 1 && from_row
                <= tile.row < to_row && p(tile));
            assert(column.contains(tile) <==> tile.col == to_col - 1 && from_row <= tile.row
                < to_row && p(tile));
            if all.contains(tile) {
                let k = choose|k: int| 0 <= k < all.len() && all[k] == tile;
                if k < rest.len() {
                    assert(rest[k] == tile);
                } else {
                    assert(column[k - rest.len()] == tile);
                }
            }
            if rest.contains(tile) {
                let k = choose|k: int| 0 <= k < rest.len() && rest[k] == tile;
                assert(all[k] == tile);
            }
            if column.contains(tile) {
                let k = choose|k: int| 0 <= k < column.len() && column[k] == tile;
                assert(all[rest.len() + k] == tile);
            }
        }
    }
}

/// The tiles of a span stand column by column, and are those of the index that the span covers.
pub proof fn law_tiles_of_a_span(index: TileGridIndex, span: CellSpan)
    ensures
        tiles_ascend(index.tiles_in(span)),
        forall|tile: TileId| #[trigger]
            index.tiles_in(span).contains(tile) <==> covers(span, index.side(), index.side(), tile)
                && index.has(tile),
{
    let side = index.side();
    let p = |tile: TileId| covers(span, side, side, tile) && index.has(tile);
    let tiles = block_tiles(
        held(span.min_col, side) as int,
        held(span.max_col, side) + 1,
        held(span.min_row, side) as int,
        held(span.max_row, side) + 1,
        p,
    );
    lemma_block_tiles(
        held(span.min_col, side) as int,
        held(span.max_col, side) + 1,
        held(span.min_row, side) as int,
        held(span.max_row, side) + 1,
        p,
    );
    assert(tiles_ascend(tiles) && forall|tile: TileId| #[trigger]
        tiles.contains(tile) <==> covers(span, side, side, tile) && index.has(tile));
}

/// Tiles that stand column by column are told by which tiles they are.
pub proof fn law_ascending_tiles_are_unique(a: Seq<TileId>, b: Seq<TileId>)
    requires
        tiles_ascend(a),
        tiles_ascend(b),
        forall|tile: TileId| #[trigger] a.contains(tile) <==> b.contains(tile),
    ensures
        a == b,
    decreases a.len(),
{
    if a.len() == 0 {
        if b.len() > 0 {
            assert(b.contains(b[0]));
            assert(a.contains(b[0]));
        }
        assert(a =~= b);
    } else {
        assert(a.contains(a.last()));
        assert(b.contains(a.last()));
        let j = choose|j: int| 0 <= j < b.len() && b[j] == a.last();
        assert(b.contains(b.last()));
        assert(a.contains(b.last()));
        let i = choose|i: int| 0 <= i < a.len() && a[i] == b.last();
        if i < a.len() - 1 {
            assert(tile_before(a[i], a[a.len() - 1]));
            if j < b.len() - 1 {
                assert(tile_before(b[j], b[b.len() - 1]));
            }
        }
        assert(a.last() == b.last());
        let a1 = a.drop_last();
        let b1 = b.drop_last();
        assert forall|tile: TileId| #[trigger] a1.contains(tile) <==> b1.contains(tile) by {
            if a1.contains(tile) {
                let k = choose|k: int| 0 <= k < a1.len() && a1[k] == tile;
                assert(a[k] == tile);
                assert(tile_before(a[k], a[a.len() - 1]));
                assert(a.contains(tile));
                assert(b.contains(tile));
                let m = choose|m: int| 0 <= m < b.len() && b[m] == tile;
                assert(b1[m] == tile);
            }
            if b1.contains(tile) {
                let k = choose|k: int| 0 <= k < b1.len() && b1[k] == tile;
                assert(b[k] == tile);
                assert(tile_before(b[k], b[b.len() - 1]));
                assert(b.contains(tile));
                assert(a.contains(tile));
                let m = choose|m: int| 0 <= m < a.len() && a[m] == tile;
                assert(a1[m] == tile);
            }
        }
        law_ascending_tiles_are_unique(a1, b1);
        assert(a =~= a1.push(a.last()));
        assert(b =~= b1.push(b.last()));
    }
}

/// Whether these are the tiles of the index that the visible area touches, column by column.
pub open spec fn are_visible_tiles(
    tiles: Seq<TileId>,
    index: TileGridIndex,
    visible: CellSpan,
) -> bool {
    &&& tiles_ascend(tiles)
    &&& forall|tile: TileId| #[trigger]
        tiles.contains(tile) <==> covers(visible, index.side(), index.side(), tile) && index.has(
            tile,
        )
}

/// The tiles of the index that the visible area touches, column by column.
pub open spec fn visible_tiles(index: TileGridIndex, visible: CellSpan) -> Seq<TileId> {
    choose|tiles: Seq<TileId>| are_visible_tiles(tiles, index, visible)
}

/// The tiles of the index that the visible area touches, column by column.
pub fn query_visible_tiles(index: &TileGridIndex, visible: CellSpan) -> (tiles: Vec<TileId>)
    ensures
        are_visible_tiles(tiles@, *index, visible),
        tiles@ == visible_tiles(*index, visible),
{
    let tiles = index.tile_ids_for_bounds(visible);
    proof {
        let named = visible_tiles(*index, visible);
        assert(are_visible_tiles(tiles@, *index, visible));
        assert(are_visible_tiles(named, *index, visible));
        assert forall|tile: TileId| #[trigger] tiles@.contains(tile) <==> named.contains(tile) by {}
        law_ascending_tiles_are_unique(tiles@, named);
    }
    tiles
}

/// What one search for visible shapes came across.
#[derive(Debug, Clone, Copy, PartialEq, Eq, Structural)]
pub struct ShapeQueryStats {
    pub bucket_hits: usize,
    pub candidate_shapes: usize,
    pub visible_shapes: usize,
}

impl Default for ShapeQueryStats {
    fn default() -> (stats: Self)
        ensures
            stats == (ShapeQueryStats { bucket_hits: 0, candidate_shapes: 0, visible_shapes: 0 }),
    {
        ShapeQueryStats { bucket_hits: 0, candidate_shapes: 0, visible_shapes: 0 }
    }
}

/// The visible shapes of a scene, and what the search for them came across.
#[derive(Debug)]
pub struct VisibleShapeQuery {
    pub indices: Vec<usize>,
    pub stats: ShapeQueryStats,
}

impl Default for VisibleShapeQuery {
    fn default() -> (query: Self)
        ensures
            query.indices@.len() == 0,
            query.stats == (ShapeQueryStats {
                bucket_hits: 0,
                candidate_shapes: 0,
                visible_shapes: 0,
            }),
    {
        VisibleShapeQuery { indices: Vec::new(), stats: ShapeQueryStats::default() }
    }
}

/// The side of the shape grid: the least square that has a cell for each shape, within limits.
pub open spec fn is_grid_side(side: i32, shape_count: nat) -> bool {
    &&& 1 <= side <= MAX_SHAPE_GRID_SIDE
    &&& side < MAX_SHAPE_GRID_SIDE ==> side * side >= shape_count
    &&& side > 1 ==> (side - 1) * (side - 1) < shape_count
}

/// The side of the shape grid: the least square that has a cell for each shape, within limits.
pub fn grid_side(shape_count: usize) -> (side: i32)
    ensures
        is_grid_side(side, shape_count as nat),
{
    let mut side: i32 = 1;
    let mut square: usize = 1;
    assert((1 - 1) * (1 - 1) == 0 && 1 * 1 == 1) by (nonlinear_arith);
    while side < MAX_SHAPE_GRID_SIDE && square < shape_count
        invariant
            1 <= side <= MAX_SHAPE_GRID_SIDE,
            square == side * side,
            square <= 1024,
            side > 1 ==> (side - 1) * (side - 1) < shape_count,
        decreases MAX_SHAPE_GRID_SIDE - side,
    {
        assert((side + 1) * (side + 1) == side * side + 2 * side + 1) by (nonlinear_arith);
        assert((side + 1) * (side + 1) <= 1024) by (nonlinear_arith)
            requires
                1 <= side < 32,
        ;
        square += 2 * (side as usize) + 1;
        side += 1;
    }
    side
}

/// A uniform grid that finds the shapes near an area.
#[derive(Debug)]
pub struct ShapeSpatialIndex {
    table: TileLayerTable<u32>,
    shape_count: usize,
}

/// The layer under which the shape grid, which does not tell layers apart, files every shape.
spec fn any_layer() -> LayerId {
    LayerId { layer: 0, datatype: 0 }
}

impl ShapeSpatialIndex {
    #[verifier::type_invariant]
    spec fn in_order(self) -> bool {
        &&& self.table.wf()
        &&& self.table.col_count() == self.table.row_count()
        &&& is_grid_side(self.table.col_count(), self.shape_count as nat)
        &&& self.shape_count <= u32::MAX
        &&& forall|cell: TileId, k: int|
            0 <= k < self.table.items(cell, any_layer()).len() ==> (#[trigger] self.table.items(
                cell,
                any_layer(),
            )[k]) < self.shape_count
        &&& forall|cell: TileId, layer: LayerId|
            layer != any_layer() ==> (#[trigger] self.table.items(cell, layer)).len() == 0
    }

    /// How many columns, and how many rows, of cells there are.
    pub closed spec fn side(self) -> i32 {
        self.table.col_count()
    }

    /// How many shapes are in the index.
    pub closed spec fn len(self) -> nat {
        self.shape_count as nat
    }

    /// The shapes that touch a cell.
    pub closed spec fn cell(self, cell: TileId) -> Seq<u32> {
        self.table.items(cell, any_layer())
    }

    /// The index of the shapes of a scene, each with the columns and rows that its box touches.
    pub fn build(scene: &Scene, spans: &[CellSpan]) -> (index: Self)
        requires
            spans@.len() == scene@.len(),
            spans@.len() <= u32::MAX,
        ensures
            index.indexes(spans@),
    {
        let side: i32 = grid_side(spans.len());
        let mut layer_of: Vec<LayerId> = Vec::new();
        let mut i: usize = 0;
        while i < spans.len()
            invariant
                i <= spans@.len(),
                layer_of@.len() == i,
                forall|k: int| 0 <= k < i ==> layer_of@[k] == any_layer(),
            decreases spans@.len() - i,
        {
            layer_of.push(LayerId { layer: 0, datatype: 0 });
            i += 1;
        }
        let filled = fill_table(&layer_of, spans, side, side);
        proof {
            assert forall|cell: TileId, k: int|
                0 <= k < filled.items(cell, any_layer()).len() implies (#[trigger] filled.items(
                cell,
                any_layer(),
            )[k]) < spans@.len() by {
                lemma_tile_bucket(layer_of@, spans@, spans@.len(), side, side, cell, any_layer());
                let bucket = filled.items(cell, any_layer());
                assert(table::on_grid(cell, side, side));
                assert(bucket.contains(bucket[k]));
            }
            assert forall|cell: TileId, layer: LayerId| layer != any_layer() implies (
            #[trigger] filled.items(cell, layer)).len() == 0 by {
                if table::on_grid(cell, side, side) && filled.items(cell, layer).len() > 0 {
                    lemma_tile_bucket(layer_of@, spans@, spans@.len(), side, side, cell, layer);
                    let bucket = filled.items(cell, layer);
                    assert(bucket.contains(bucket[0]));
                }
            }
        }
        let index = ShapeSpatialIndex { table: filled, shape_count: spans.len() };
        proof {
            assert forall|cell: TileId, i: u32| #[trigger] index.cell(cell).contains(i) <==> (i
                < spans@.len() && covers(spans@[i as int], side, side, cell)) by {
                lemma_tile_bucket(layer_of@, spans@, spans@.len(), side, side, cell, any_layer());
                if !table::on_grid(cell, side, side) {
                    assert(index.cell(cell).len() == 0);
                } else {
                    assert(index.cell(cell) == tile_bucket(
                        layer_of@,
                        spans@,
                        spans@.len(),
                        side,
                        side,
                        cell,
                        any_layer(),
                    ));
                }
            }
        }
        index
    }

    /// Whether this is the index of shapes with these spans.
    pub open spec fn indexes(self, spans: Seq<CellSpan>) -> bool {
        &&& self.len() == spans.len()
        &&& is_grid_side(self.side(), spans.len())
        &&& forall|cell: TileId, i: u32| #[trigger]
            self.cell(cell).contains(i) <==> (i < spans.len() && covers(
                spans[i as int],
                self.side(),
                self.side(),
                cell,
            ))
    }

    /// Whether a cell of the area holds the shape.
    pub open spec fn is_candidate(self, area: CellSpan, i: int) -> bool {
        exists|cell: TileId| #[trigger]
            self.cell(cell).contains(i as u32) && covers(area, self.side(), self.side(), cell)
    }

    /// The cells of the area that hold a shape.
    pub open spec fn hits(self, area: CellSpan) -> Set<TileId> {
        Set::new(
            |cell: TileId| covers(area, self.side(), self.side(), cell) && self.cell(cell).len() > 0,
        )
    }

    /// The first `count` shapes that a cell of the area holds, in scene order.
    pub open spec fn candidates(self, area: CellSpan, count: nat) -> Seq<usize>
        decreases count,
    {
        if count == 0 {
            Seq::empty()
        } else {
            let rest = self.candidates(area, (count - 1) as nat);
            if self.is_candidate(area, count - 1) {
                rest.push((count - 1) as usize)
            } else {
                rest
            }
        }
    }

    /// Those of the candidates whose box meets the visible area.
    pub open spec fn visible(self, scene: Scene, visible: Bounds, area: CellSpan, count: nat) -> Seq<
        usize,
    >
        decreases count,
    {
        if count == 0 {
            Seq::empty()
        } else {
            let rest = self.visible(scene, visible, area, (count - 1) as nat);
            if self.is_candidate(area, count - 1) && scene::bounds_meet(
                scene@[count - 1].bounds,
                visible,
            ) {
                rest.push((count - 1) as usize)
            } else {
                rest
            }
        }
    }

    /// The cells of the area that hold a shape, column by column.
    fn hit_cells(&self, area: CellSpan) -> (cells: Vec<TileId>)
        ensures
            cells@.no_duplicates(),
            cells@.to_set() == self.hits(area),
            forall|cell: TileId| #[trigger]
                cells@.contains(cell) <==> covers(area, self.side(), self.side(), cell)
                    && self.cell(cell).len() > 0,
    {
        proof {
            use_type_invariant(&*self);
        }
        let cells = tiles_of_span(&self.table, false, area);
        proof {
            assert forall|cell: TileId| #[trigger] cells@.contains(cell) <==> covers(
                area,
                self.side(),
                self.side(),
                cell,
            ) && self.cell(cell).len() > 0 by {
                self.table.lemma_tile_layers(cell);
                let listed = self.table.tile_layers(cell);
                if listed.len() > 0 {
                    assert(listed.contains(listed[0]));
                    assert(self.table.items(cell, listed[0]).len() > 0);
                    assert(listed[0] == any_layer());
                }
                if self.cell(cell).len() > 0 {
                    assert(listed.contains(any_layer()));
                }
            }
            assert(cells@.to_set() =~= self.hits(area));
        }
        cells
    }

    /// The shapes of a cell, where there are some.
    fn shapes_of(&self, cell: TileId) -> (bucket: Option<&Vec<u32>>)
        ensures
            bucket is Some <==> self.cell(cell).len() > 0,
            bucket matches Some(list) ==> list@ == self.cell(cell) && forall|k: int|
                0 <= k < list@.len() ==> (#[trigger] list@[k]) < self.len(),
    {
        proof {
            use_type_invariant(&*self);
        }
        let bucket = self.table.items_of(cell, LayerId { layer: 0, datatype: 0 });
        proof {
            if let Some(list) = bucket {
                assert forall|k: int| 0 <= k < list@.len() implies (#[trigger] list@[k])
                    < self.len() by {
                    assert(self.table.items(cell, any_layer())[k] < self.shape_count);
                }
            }
        }
        bucket
    }
}

/// The shapes of a scene whose boxes meet the visible area, in scene order.
///
/// The visible area comes with the columns and rows of the grid that it touches.
pub fn query_visible_shapes(
    scene: &Scene,
    index: &ShapeSpatialIndex,
    visible_world_bounds: Bounds,
    area: CellSpan,
) -> (query: VisibleShapeQuery)
    requires
        index.len() == scene@.len(),
    ensures
        query.indices@ == index.visible(*scene, visible_world_bounds, area, scene@.len()),
        query.stats.visible_shapes == query.indices@.len(),
        query.stats.candidate_shapes == index.candidates(area, scene@.len()).len(),
        query.stats.bucket_hits == index.hits(area).len(),
{
    let shapes = scene.shapes();
    let count: usize = shapes.len();
    proof {
        use_type_invariant(index);
    }
    let mut flags: Vec<bool> = Vec::new();
    while flags.len() < count
        invariant
            flags@.len() <= count,
            forall|k: int| 0 <= k < flags@.len() ==> !(#[trigger] flags@[k]),
        decreases count - flags@.len(),
    {
        flags.push(false);
    }
    let cells = index.hit_cells(area);
    let mut c: usize = 0;
    while c < cells.len()
        invariant
            c <= cells@.len(),
            count == scene@.len(),
            count == index.len(),
            count <= u32::MAX,
            flags@.len() == count,
            forall|k: int|
                0 <= k < count ==> (#[trigger] flags@[k] <==> exists|j: int|
                    0 <= j < c && index.cell(#[trigger] cells@[j]).contains(k as u32)),
        decreases cells@.len() - c,
    {
        let ghost earlier = flags@;
        if let Some(bucket) = index.shapes_of(cells[c]) {
            let mut b: usize = 0;
            while b < bucket.len()
                invariant
                    b <= bucket@.len(),
                    count <= u32::MAX,
                    flags@.len() == count,
                    earlier.len() == count,
                    count == index.len(),
                    forall|k: int| 0 <= k < bucket@.len() ==> (#[trigger] bucket@[k]) < index.len(),
                    forall|k: int|
                        0 <= k < count ==> (#[trigger] flags@[k] <==> earlier[k] || exists|j: int|
                            0 <= j < b && #[trigger] bucket@[j] == k),
                decreases bucket@.len() - b,
            {
                let ghost before = flags@;
                let at: usize = bucket[b] as usize;
                flags.set(at, true);
                proof {
                    assert forall|k: int| 0 <= k < count implies (#[trigger] flags@[k] <==> earlier[k]
                        || exists|j: int| 0 <= j < b + 1 && #[trigger] bucket@[j] == k) by {
                        if flags@[k] {
                            if k == at {
                                assert(bucket@[b as int] == k);
                            } else {
                                assert(before[k]);
                            }
                        } else {
                            assert(!before[k]);
                        }
                    }
                }
                b += 1;
            }
            proof {
                assert forall|k: int| 0 <= k < count implies (#[trigger] flags@[k] <==> exists|
                    j: int,
                | 0 <= j < c + 1 && index.cell(#[trigger] cells@[j]).contains(k as u32)) by {
                    assert(earlier[k] <==> exists|j: int|
                        0 <= j < c && index.cell(#[trigger] cells@[j]).contains(k as u32));
                    if index.cell(cells@[c as int]).contains(k as u32) {
                        let j = choose|j: int|
                            0 <= j < bucket@.len() && bucket@[j] == k as u32;
                        assert(bucket@[j] == k);
                    }
                    if exists|j: int| 0 <= j < bucket@.len() && #[trigger] bucket@[j] == k {
                        assert(index.cell(cells@[c as int]).contains(k as u32));
                    }
                }
            }
        } else {
            assert(index.cell(cells@[c as int]).len() == 0);
            assert forall|k: int| 0 <= k < count implies (#[trigger] flags@[k] <==> exists|j: int|
                0 <= j < c + 1 && index.cell(#[trigger] cells@[j]).contains(k as u32)) by {
                assert(!index.cell(cells@[c as int]).contains(k as u32));
            }
        }
        c += 1;
    }
    proof {
        assert forall|k: int| 0 <= k < count implies (#[trigger] flags@[k] <==> index.is_candidate(
            area,
            k,
        )) by {
            if flags@[k] {
                let j = choose|j: int|
                    0 <= j < cells@.len() && index.cell(#[trigger] cells@[j]).contains(k as u32);
                assert(cells@.contains(cells@[j]));
            }
            if index.is_candidate(area, k) {
                let cell = choose|cell: TileId| #[trigger]
                    index.cell(cell).contains(k as u32) && covers(
                        area,
                        index.side(),
                        index.side(),
                        cell,
                    );
                assert(cells@.contains(cell));
                let j = choose|j: int| 0 <= j < cells@.len() && cells@[j] == cell;
                assert(index.cell(cells@[j]).contains(k as u32));
            }
        }
        cells@.unique_seq_to_set();
    }
    let mut indices: Vec<usize> = Vec::new();
    let mut candidate_shapes: usize = 0;
    let mut i: usize = 0;
    while i < count
        invariant
            i <= count,
            count == scene@.len(),
            shapes@.len() == count,
            flags@.len() == count,
            forall|k: int| 0 <= k < shapes@.len() ==> (#[trigger] shapes@[k])@ == scene@[k],
            forall|k: int|
                0 <= k < count ==> (#[trigger] flags@[k] <==> index.is_candidate(area, k)),
            candidate_shapes == index.candidates(area, i as nat).len(),
            candidate_shapes <= i,
            indices@ == index.visible(*scene, visible_world_bounds, area, i as nat),
        decreases count - i,
    {
        assert(flags@[i as int] <==> index.is_candidate(area, i as int));
        assert(shapes@[i as int]@ == scene@[i as int]);
        if flags[i] {
            candidate_shapes += 1;
            if shapes[i].bounds.intersects(visible_world_bounds) {
                indices.push(i);
            }
        }
        i += 1;
    }
    VisibleShapeQuery {
        stats: ShapeQueryStats {
            bucket_hits: cells.len(),
            candidate_shapes,
            visible_shapes: indices.len(),
        },
        indices,
    }
}

/// The shapes of a scene whose boxes meet the visible area, in scene order.
pub fn query_visible_shape_indices(
    scene: &Scene,
    index: &ShapeSpatialIndex,
    visible_world_bounds: Bounds,
    area: CellSpan,
) -> (indices: Vec<usize>)
    requires
        index.len() == scene@.len(),
    ensures
        indices@ == index.visible(*scene, visible_world_bounds, area, scene@.len()),
{
    query_visible_shapes(scene, index, visible_world_bounds, area).indices
}

/// Whether a function from coordinates to cells keeps their order.
pub open spec fn keeps_order(cell_of: spec_fn(i32) -> i32) -> bool {
    forall|a: i32, b: i32|
        coords::at_most(a, b) ==> #[trigger] cell_of(a) <= #[trigger] cell_of(b)
}

/// The columns and rows that a box touches, by a function for either axis.
pub open spec fn span_of(
    bounds: Bounds,
    col_of: spec_fn(i32) -> i32,
    row_of: spec_fn(i32) -> i32,
) -> CellSpan {
    CellSpan {
        min_col: col_of(bounds.min_x),
        max_col: col_of(bounds.max_x),
        min_row: row_of(bounds.min_y),
        max_row: row_of(bounds.max_y),
    }
}

/// Whether the box does not end before it begins.
pub open spec fn is_upright(bounds: Bounds) -> bool {
    coords::at_most(bounds.min_x, bounds.max_x) && coords::at_most(bounds.min_y, bounds.max_y)
}

/// Two boxes that meet touch a common cell, whatever the grid, where the cells keep the order of
/// the coordinates.
pub proof fn law_meeting_boxes_share_a_cell(
    a: Bounds,
    b: Bounds,
    col_of: spec_fn(i32) -> i32,
    row_of: spec_fn(i32) -> i32,
    cols: i32,
    rows: i32,
)
    requires
        keeps_order(col_of),
        keeps_order(row_of),
        is_upright(a),
        is_upright(b),
        scene::bounds_meet(a, b),
        cols > 0,
        rows > 0,
    ensures
        spans_meet(span_of(a, col_of, row_of), span_of(b, col_of, row_of), cols, rows),
{
    let p = span_of(a, col_of, row_of);
    let q = span_of(b, col_of, row_of);
    assert(col_of(a.min_x) <= col_of(a.max_x));
    assert(col_of(a.min_x) <= col_of(b.max_x));
    assert(col_of(b.min_x) <= col_of(b.max_x));
    assert(col_of(b.min_x) <= col_of(a.max_x));
    assert(row_of(a.min_y) <= row_of(a.max_y));
    assert(row_of(a.min_y) <= row_of(b.max_y));
    assert(row_of(b.min_y) <= row_of(b.max_y));
    assert(row_of(b.min_y) <= row_of(a.max_y));
    let col = if p.min_col >= q.min_col {
        held(p.min_col, cols)
    } else {
        held(q.min_col, cols)
    };
    let row = if p.min_row >= q.min_row {
        held(p.min_row, rows)
    } else {
        held(q.min_row, rows)
    };
    let tile = TileId { col, row };
    assert(covers(p, cols, rows, tile) && covers(q, cols, rows, tile));
}

/// The search finds every shape whose box meets the visible area, and no other, where the cells
/// keep the order of the coordinates.
pub proof fn law_query_is_complete(
    scene: Scene,
    index: ShapeSpatialIndex,
    visible: Bounds,
    col_of: spec_fn(i32) -> i32,
    row_of: spec_fn(i32) -> i32,
    i: int,
)
    requires
        keeps_order(col_of),
        keeps_order(row_of),
        scene@.len() <= u32::MAX,
        scene@.len() <= usize::MAX,
        index.indexes(Seq::new(scene@.len(), |k: int| span_of(scene@[k].bounds, col_of, row_of))),
        is_upright(visible),
        0 <= i < scene@.len(),
        is_upright(scene@[i].bounds),
    ensures
        index.visible(scene, visible, span_of(visible, col_of, row_of), scene@.len()).contains(
            i as usize,
        ) <==> scene::bounds_meet(scene@[i].bounds, visible),
{
    let area = span_of(visible, col_of, row_of);
    let spans = Seq::new(scene@.len(), |k: int| span_of(scene@[k].bounds, col_of, row_of));
    let side = index.side();
    lemma_visible_contains(scene, index, visible, area, scene@.len(), i);
    if scene::bounds_meet(scene@[i].bounds, visible) {
        law_meeting_boxes_share_a_cell(scene@[i].bounds, visible, col_of, row_of, side, side);
        let tile = choose|tile: TileId| #[trigger]
            covers(spans[i], side, side, tile) && covers(area, side, side, tile);
        assert(spans[i as u32 as int] == spans[i]);
        assert(index.cell(tile).contains(i as u32));
        assert(index.is_candidate(area, i));
    }
}

proof fn lemma_visible_contains(
    scene: Scene,
    index: ShapeSpatialIndex,
    visible: Bounds,
    area: CellSpan,
    count: nat,
    i: int,
)
    requires
        0 <= i,
        count <= usize::MAX,
        i <= usize::MAX,
    ensures
        index.visible(scene, visible, area, count).contains(i as usize) <==> (i < count
            && index.is_candidate(area, i) && scene::bounds_meet(scene@[i].bounds, visible)),
    decreases count,
{
    if count > 0 {
        lemma_visible_contains(scene, index, visible, area, (count - 1) as nat, i);
        let rest = index.visible(scene, visible, area, (count - 1) as nat);
        seqs::lemma_push_contains(rest, (count - 1) as usize, i as usize);
    }
}

/// A shape whose box meets the visible area stands in the bucket of a tile that the visible area
/// touches, where the cells keep the order of the coordinates.
pub proof fn law_visible_tiles_hold_visible_shapes(
    scene: Scene,
    index: TileGridIndex,
    visible: Bounds,
    col_of: spec_fn(i32) -> i32,
    row_of: spec_fn(i32) -> i32,
    i: int,
)
    requires
        keeps_order(col_of),
        keeps_order(row_of),
        scene@.len() <= u32::MAX,
        index.side() > 0,
        index.indexes(
            scene,
            Seq::new(scene@.len(), |k: int| span_of(scene@[k].bounds, col_of, row_of)),
            index.side(),
        ),
        is_upright(visible),
        0 <= i < scene@.len(),
        is_upright(scene@[i].bounds),
        scene::bounds_meet(scene@[i].bounds, visible),
    ensures
        exists|tile: TileId| #[trigger]
            index.has(tile) && covers(
                span_of(visible, col_of, row_of),
                index.side(),
                index.side(),
                tile,
            ) && index.bucket(tile, scene@[i].layer).contains(i as u32),
{
    let area = span_of(visible, col_of, row_of);
    let spans = Seq::new(scene@.len(), |k: int| span_of(scene@[k].bounds, col_of, row_of));
    let side = index.side();
    law_meeting_boxes_share_a_cell(scene@[i].bounds, visible, col_of, row_of, side, side);
    let tile = choose|tile: TileId| #[trigger]
        covers(spans[i], side, side, tile) && covers(area, side, side, tile);
    let layer = scene@[i].layer;
    lemma_tile_bucket(scene::shape_layers(scene@), spans, spans.len(), side, side, tile, layer);
    assert(table::on_grid(tile, side, side));
    let bucket = index.bucket(tile, layer);
    assert(scene::shape_layers(scene@)[i as u32 as int] == layer);
    assert(bucket.contains(i as u32));
    assert(index.layers(tile).contains(layer));
    assert(index.layers(tile).len() > 0);
    assert(index.has(tile));
}

} // verus!
