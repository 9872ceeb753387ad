//! Items by tile and layer.

use crate::layers;
use crate::layers::layer_before;
use crate::renderer::geometry::TileId;
use crate::scene::LayerId;
use vstd::prelude::*;

verus! {

/// The items of one tile, by ascending layer.
#[derive(Debug)]
struct TileCell<T> {
    layers: Vec<LayerId>,
    buckets: Vec<Vec<T>>,
}

impl<T> TileCell<T> {
    spec fn wf(self) -> bool {
        &&& self.layers@.len() == self.buckets@.len()
        &&& layers::layers_ascend(self.layers@)
        &&& forall|k: int| 0 <= k < self.buckets@.len() ==> (#[trigger] self.buckets@[k])@.len() > 0
    }

    spec fn has(self, layer: LayerId) -> bool {
        exists|k: int| 0 <= k < self.layers@.len() && #[trigger] self.layers@[k] == layer
    }

    spec fn index(self, layer: LayerId) -> int {
        choose|k: int| 0 <= k < self.layers@.len() && #[trigger] self.layers@[k] == layer
    }

    /// The items of a layer, in the order in which they came.
    spec fn items(self, layer: LayerId) -> Seq<T> {
        if self.has(layer) {
            self.buckets@[self.index(layer)]@
        } else {
            Seq::empty()
        }
    }

    proof fn lemma_items_at(self, k: int)
        requires
            self.wf(),
            0 <= k < self.layers@.len(),
        ensures
            self.has(self.layers@[k]),
            self.index(self.layers@[k]) == k,
            self.items(self.layers@[k]) == self.buckets@[k]@,
    {
        let m = self.index(self.layers@[k]);
        assert(self.layers@[k] == self.layers@[k]);
        if m < k {
            assert(layers::layer_lt(self.layers@[m], self.layers@[k]));
        } else if k < m {
            assert(layers::layer_lt(self.layers@[k], self.layers@[m]));
        }
    }

    fn new() -> (cell: Self)
        ensures
            cell.wf(),
            cell.layers@.len() == 0,
            forall|layer: LayerId| #[trigger] cell.items(layer) == Seq::<T>::empty(),
    {
        TileCell { layers: Vec::new(), buckets: Vec::new() }
    }

    /// The place at which the layer stands or would stand.
    fn position(&self, layer: LayerId) -> (at: usize)
        requires
            self.wf(),
        ensures
            at <= self.layers@.len(),
            forall|k: int| 0 <= k < at ==> layers::layer_lt(#[trigger] self.layers@[k], layer),
            forall|k: int|
                at <= k < self.layers@.len() ==> !layers::layer_lt(#[trigger] self.layers@[k], layer),
    {
        let mut low: usize = 0;
        let mut high: usize = self.layers.len();
        while low < high
            invariant
                self.wf(),
                low <= high <= self.layers@.len(),
                forall|k: int| 0 <= k < low ==> layers::layer_lt(#[trigger] self.layers@[k], layer),
                forall|k: int|
                    high <= k < self.layers@.len() ==> !layers::layer_lt(
                        #[trigger] self.layers@[k],
                        layer,
                    ),
            decreases high - low,
        {
            let mid: usize = low + (high - low) / 2;
            if layer_before(self.layers[mid], layer) {
                assert forall|k: int| 0 <= k < mid + 1 implies layers::layer_lt(
                    #[trigger] self.layers@[k],
                    layer,
                ) by {
                    if k < mid {
                        assert(layers::layer_lt(self.layers@[k], self.layers@[mid as int]));
                    }
                }
                low = mid + 1;
            } else {
                assert forall|k: int| mid <= k < self.layers@.len() implies !layers::layer_lt(
                    #[trigger] self.layers@[k],
                    layer,
                ) by {
                    if k > mid {
                        assert(layers::layer_lt(self.layers@[mid as int], self.layers@[k]));
                    }
                }
                high = mid;
            }
        }
        low
    }

    /// The place of the layer, where it has items.
    fn find(&self, layer: LayerId) -> (at: Option<usize>)
        requires
            self.wf(),
        ensures
            at is Some <==> self.has(layer),
            at matches Some(k) ==> k < self.layers@.len() && k == self.index(layer)
                && self.layers@[k as int] == layer,
    {
        let at: usize = self.position(layer);
        if at < self.layers.len() && self.layers[at] == layer {
            proof {
                self.lemma_items_at(at as int);
            }
            Some(at)
        } else {
            proof {
                if self.has(layer) {
                    let k = self.index(layer);
                    assert(!layers::layer_lt(self.layers@[k], layer));
                    if at < k {
                        assert(layers::layer_lt(self.layers@[at as int], self.layers@[k]));
                        assert(!layers::layer_lt(self.layers@[at as int], layer));
                    }
                }
            }
            None
        }
    }

    fn add(&mut self, layer: LayerId, item: T)
        requires
            old(self).wf(),
        ensures
            final(self).wf(),
            final(self).items(layer) == old(self).items(layer).push(item),
            forall|other: LayerId|
                other != layer ==> #[trigger] final(self).items(other) == old(self).items(other),
    {
        let ghost before = *self;
        match self.find(layer) {
            Some(at) => {
                let ghost bucket = self.buckets@[at as int]@;
                self.buckets[at].push(item);
                proof {
                    assert(self.layers@ == before.layers@);
                    assert(self.buckets@[at as int]@ == bucket.push(item));
                    before.lemma_items_at(at as int);
                    self.lemma_items_at(at as int);
                    assert forall|other: LayerId| other != layer implies #[trigger] self.items(other)
                        == before.items(other) by {
                        if before.has(other) {
                            let k = before.index(other);
                            before.lemma_items_at(k);
                            self.lemma_items_at(k);
                            assert(self.buckets@[k] == before.buckets@[k]);
                        } else {
                            assert(!self.has(other));
                        }
                    }
                }
            },
            None => {
                let at: usize = self.position(layer);
                let mut bucket: Vec<T> = Vec::new();
                bucket.push(item);
                self.layers.insert(at, layer);
                self.buckets.insert(at, bucket);
                proof {
                    assert forall|i: int, j: int| 0 <= i < j < self.layers@.len() implies
                        layers::layer_lt(#[trigger] self.layers@[i], #[trigger] self.layers@[j]) by {
                        if j < at {
                            assert(layers::layer_lt(before.layers@[i], before.layers@[j]));
                        } else if j == at {
                            assert(layers::layer_lt(before.layers@[i], layer));
                        } else if i == at {
                            assert(!layers::layer_lt(before.layers@[j - 1], layer));
                            assert(before.layers@[j - 1] != layer);
                        } else if i < at {
                            assert(layers::layer_lt(before.layers@[i], before.layers@[j - 1]));
                        } else {
                            assert(layers::layer_lt(before.layers@[i - 1], before.layers@[j - 1]));
                        }
                    }
                    assert forall|k: int| 0 <= k < self.buckets@.len() implies (
                    #[trigger] self.buckets@[k])@.len() > 0 by {
                        if k < at {
                            assert(self.buckets@[k] == before.buckets@[k]);
                        } else if k > at {
                            assert(self.buckets@[k] == before.buckets@[k - 1]);
                        }
                    }
                    assert(self.wf());
                    self.lemma_items_at(at as int);
                    assert(self.items(layer) =~= before.items(layer).push(item));
                    assert forall|other: LayerId| other != layer implies #[trigger] self.items(other)
                        == before.items(other) by {
                        if before.has(other) {
                            let k = before.index(other);
                            before.lemma_items_at(k);
                            let k1 = if k < at { k } else { k + 1 };
                            assert(self.layers@[k1] == other);
                            self.lemma_items_at(k1);
                        } else if self.has(other) {
                            let k = self.index(other);
                            if k < at {
                                assert(before.layers@[k] == other);
                            } else if k > at {
                                assert(before.layers@[k - 1] == other);
                            }
                        }
                    }
                }
            },
        }
    }
}

/// Items by tile and layer, on a grid of `cols x rows` tiles.
#[derive(Debug)]
pub struct TileLayerTable<T> {
    cols: i32,
    rows: i32,
    cells: Vec<TileCell<T>>,
}

/// Whether the tile lies on a grid of this size.
pub open spec fn on_grid(tile: TileId, cols: i32, rows: i32) -> bool {
    0 <= tile.col < cols && 0 <= tile.row < rows
}

/// The place of a tile in the list of tiles, column by column.
pub open spec fn flat_index(tile: TileId, rows: i32) -> int {
    tile.col * rows + tile.row
}

proof fn lemma_flat_index(tile: TileId, cols: i32, rows: i32)
    requires
        on_grid(tile, cols, rows),
    ensures
        0 <= flat_index(tile, rows) < cols * rows,
{
    assert(0 <= tile.col * rows + tile.row < cols * rows) by (nonlinear_arith)
        requires
            0 <= tile.col < cols,
            0 <= tile.row < rows,
    ;
}

proof fn lemma_flat_index_injective(a: TileId, b: TileId, cols: i32, rows: i32)
    requires
        on_grid(a, cols, rows),
        on_grid(b, cols, rows),
        flat_index(a, rows) == flat_index(b, rows),
    ensures
        a == b,
{
    assert(a.col == b.col) by (nonlinear_arith)
        requires
            0 <= a.row < rows,
            0 <= b.row < rows,
            a.col * rows + a.row == b.col * rows + b.row,
    ;
}

impl<T> TileLayerTable<T> {
    /// Whether the table is in order.
    pub closed spec fn wf(self) -> bool {
        &&& 0 < self.cols <= 1024
        &&& 0 < self.rows <= 1024
        &&& self.cells@.len() == self.cols * self.rows
        &&& forall|k: int| 0 <= k < self.cells@.len() ==> (#[trigger] self.cells@[k]).wf()
    }

    /// How many columns of tiles there are.
    pub closed spec fn col_count(self) -> i32 {
        self.cols
    }

    /// How many rows of tiles there are.
    pub closed spec fn row_count(self) -> i32 {
        self.rows
    }

    /// The items of a tile and layer, in the order in which they came.
    pub closed spec fn items(self, tile: TileId, layer: LayerId) -> Seq<T> {
        if on_grid(tile, self.cols, self.rows) {
            self.cells@[flat_index(tile, self.rows)].items(layer)
        } else {
            Seq::empty()
        }
    }

    /// The layers of a tile that have items, in ascending order.
    pub closed spec fn tile_layers(self, tile: TileId) -> Seq<LayerId> {
        if on_grid(tile, self.cols, self.rows) {
            self.cells@[flat_index(tile, self.rows)].layers@
        } else {
            Seq::empty()
        }
    }

    /// The layers of a tile ascend, and are those with items.
    pub proof fn lemma_tile_layers(self, tile: TileId)
        requires
            self.wf(),
        ensures
            layers::layers_ascend(self.tile_layers(tile)),
            forall|layer: LayerId| #![trigger self.tile_layers(tile).contains(layer)]
                self.tile_layers(tile).contains(layer) <==> self.items(tile, layer).len() > 0,
    {
        if on_grid(tile, self.cols, self.rows) {
            lemma_flat_index(tile, self.cols, self.rows);
            let cell = self.cells@[flat_index(tile, self.rows)];
            assert(cell.wf());
            assert forall|layer: LayerId| #![trigger self.tile_layers(tile).contains(layer)]
                self.tile_layers(tile).contains(layer) <==> self.items(tile, layer).len() > 0 by {
                if cell.layers@.contains(layer) {
                    let k = choose|k: int| 0 <= k < cell.layers@.len() && cell.layers@[k] == layer;
                    cell.lemma_items_at(k);
                }
                if cell.has(layer) {
                    let k = cell.index(layer);
                    assert(cell.layers@[k] == layer);
                    assert(cell.layers@.contains(layer));
                }
            }
        }
    }

    /// The table without items.
    pub fn new(cols: i32, rows: i32) -> (table: Self)
        requires
            0 < cols <= 1024,
            0 < rows <= 1024,
        ensures
            table.wf(),
            table.col_count() == cols,
            table.row_count() == rows,
            forall|tile: TileId, layer: LayerId| #[trigger]
                table.items(tile, layer) == Seq::<T>::empty(),
    {
        let mut cells: Vec<TileCell<T>> = Vec::new();
        assert(0 < cols * rows <= 1048576) by (nonlinear_arith)
            requires
                0 < cols <= 1024,
                0 < rows <= 1024,
        ;
        let count: usize = (cols * rows) as usize;
        let mut i: usize = 0;
        while i < count
            invariant
                i <= count,
                cells@.len() == i,
                forall|k: int|
                    0 <= k < i ==> (#[trigger] cells@[k]).wf() && forall|layer: LayerId| #[trigger]
                        cells@[k].items(layer) == Seq::<T>::empty(),
            decreases count - i,
        {
            cells.push(TileCell::new());
            i += 1;
        }
        let table = TileLayerTable { cols, rows, cells };
        proof {
            assert forall|tile: TileId, layer: LayerId| #[trigger]
                table.items(tile, layer) == Seq::<T>::empty() by {
                if on_grid(tile, cols, rows) {
                    lemma_flat_index(tile, cols, rows);
                    let cell = table.cells@[flat_index(tile, rows)];
                    assert(cell.wf());
                }
            }
        }
        table
    }

    /// How many columns of tiles there are.
    pub fn cols(&self) -> (cols: i32)
        requires
            self.wf(),
        ensures
            cols == self.col_count(),
            0 < cols <= 1024,
    {
        self.cols
    }

    /// How many rows of tiles there are.
    pub fn rows(&self) -> (rows: i32)
        requires
            self.wf(),
        ensures
            rows == self.row_count(),
            0 < rows <= 1024,
    {
        self.rows
    }

    fn place(&self, tile: TileId) -> (at: usize)
        requires
            self.wf(),
            on_grid(tile, self.cols, self.rows),
        ensures
            at == flat_index(tile, self.rows),
            at < self.cells@.len(),
    {
        proof {
            lemma_flat_index(tile, self.cols, self.rows);
            assert(self.cols * self.rows <= 1048576) by (nonlinear_arith)
                requires
                    0 < self.cols <= 1024,
                    0 < self.rows <= 1024,
            ;
            assert(0 <= tile.col * self.rows <= 1048576) by (nonlinear_arith)
                requires
                    0 <= tile.col < self.cols <= 1024,
                    0 < self.rows <= 1024,
            ;
        }
        (tile.col * self.rows + tile.row) as usize
    }

    /// Appends an item to those of a tile and layer.
    pub fn add(&mut self, tile: TileId, layer: LayerId, item: T)
        requires
            old(self).wf(),
            on_grid(tile, old(self).col_count(), old(self).row_count()),
        ensures
            final(self).wf(),
            final(self).col_count() == old(self).col_count(),
            final(self).row_count() == old(self).row_count(),
            final(self).items(tile, layer) == old(self).items(tile, layer).push(item),
            forall|t: TileId, l: LayerId|
                t != tile || l != layer ==> #[trigger] final(self).items(t, l) == old(self).items(
                    t,
                    l,
                ),
    {
        let ghost before = *self;
        let at: usize = self.place(tile);
        self.cells[at].add(layer, item);
        proof {
            assert forall|k: int| 0 <= k < self.cells@.len() implies (
            #[trigger] self.cells@[k]).wf() by {
                if k != at {
                    assert(self.cells@[k] == before.cells@[k]);
                }
            }
            assert forall|t: TileId, l: LayerId| t != tile || l != layer implies #[trigger]
                self.items(t, l) == before.items(t, l) by {
                if on_grid(t, self.cols, self.rows) {
                    lemma_flat_index(t, self.cols, self.rows);
                    if flat_index(t, self.rows) == at {
                        lemma_flat_index_injective(t, tile, self.cols, self.rows);
                    } else {
                        assert(self.cells@[flat_index(t, self.rows)] == before.cells@[flat_index(
                            t,
                            self.rows,
                        )]);
                    }
                }
            }
        }
    }

    /// Whether the tile has items.
    pub fn has_tile(&self, tile: TileId) -> (found: bool)
        requires
            self.wf(),
        ensures
            found == (self.tile_layers(tile).len() > 0),
    {
        if tile.col < 0 || tile.col >= self.cols || tile.row < 0 || tile.row >= self.rows {
            return false;
        }
        let at: usize = self.place(tile);
        self.cells[at].layers.len() > 0
    }

    /// The layers of a tile that have items, in ascending order.
    pub fn layers_of(&self, tile: TileId) -> (ids: Vec<LayerId>)
        requires
            self.wf(),
        ensures
            ids@ == self.tile_layers(tile),
    {
        let mut ids: Vec<LayerId> = Vec::new();
        if tile.col < 0 || tile.col >= self.cols || tile.row < 0 || tile.row >= self.rows {
            return ids;
        }
        let at: usize = self.place(tile);
        let listed = &self.cells[at].layers;
        let mut i: usize = 0;
        while i < listed.len()
            invariant
                i <= listed@.len(),
                ids@ == listed@.take(i as int),
            decreases listed@.len() - i,
        {
            ids.push(listed[i]);
            assert(ids@ =~= listed@.take(i + 1));
            i += 1;
        }
        assert(ids@ =~= listed@);
        ids
    }

    /// The items of a tile and layer, where there are some.
    pub fn items_of(&self, tile: TileId, layer: LayerId) -> (items: Option<&Vec<T>>)
        requires
            self.wf(),
        ensures
            items is Some <==> self.items(tile, layer).len() > 0,
            items matches Some(list) ==> list@ == self.items(tile, layer),
    {
        if tile.col < 0 || tile.col >= self.cols || tile.row < 0 || tile.row >= self.rows {
            return None;
        }
        let at: usize = self.place(tile);
        assert(self.cells@[at as int].wf());
        match self.cells[at].find(layer) {
            Some(k) => {
                proof {
                    self.cells@[at as int].lemma_items_at(k as int);
                }
                Some(&self.cells[at].buckets[k])
            },
            None => None,
        }
    }

    /// The tiles that have items.
    pub open spec fn occupied(self) -> Set<TileId> {
        Set::new(|tile: TileId| self.tile_layers(tile).len() > 0)
    }

    /// Those of them that stand before a place, column by column.
    spec fn occupied_before(self, col: int, row: int) -> Set<TileId> {
        Set::new(
            |tile: TileId|
                self.tile_layers(tile).len() > 0 && (tile.col < col || (tile.col == col && tile.row
                    < row)),
        )
    }

    /// How many tiles have items.
    pub fn tile_count(&self) -> (count: usize)
        requires
            self.wf(),
        ensures
            self.occupied().finite(),
            count == self.occupied().len(),
    {
        let mut count: usize = 0;
        let mut col: i32 = 0;
        proof {
            assert(self.occupied_before(0, 0) =~= Set::<TileId>::empty());
        }
        while col < self.cols
            invariant
                self.wf(),
                0 <= col <= self.cols,
                self.occupied_before(col as int, 0).finite(),
                count == self.occupied_before(col as int, 0).len(),
                count <= col * 1024,
            decreases self.cols - col,
        {
            let ghost before = count;
            let mut row: i32 = 0;
            while row < self.rows
                invariant
                    self.wf(),
                    0 <= col < self.cols,
                    0 <= row <= self.rows,
                    before <= col * 1024,
                    self.occupied_before(col as int, row as int).finite(),
                    count == self.occupied_before(col as int, row as int).len(),
                    count <= before + row,
                decreases self.rows - row,
            {
                let tile = TileId { col, row };
                if self.has_tile(tile) {
                    count += 1;
                    assert(self.occupied_before(col as int, row + 1) =~= self.occupied_before(
                        col as int,
                        row as int,
                    ).insert(tile));
                } else {
                    assert(self.occupied_before(col as int, row + 1) =~= self.occupied_before(
                        col as int,
                        row as int,
                    ));
                }
                row += 1;
            }
            assert(self.occupied_before(col + 1, 0) =~= self.occupied_before(
                col as int,
                self.rows as int,
            ));
            col += 1;
        }
        assert(self.occupied() =~= self.occupied_before(self.cols as int, 0));
        count
    }
}

} // verus!
