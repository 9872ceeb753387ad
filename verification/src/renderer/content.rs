//! What the tiles are made of: a scene, or a layout that is not flattened.

use crate::layers::{LayerMap, LayerSet};
use crate::renderer;
use crate::renderer::effective_tile_grid_divisions;
use crate::renderer::fragments;
use crate::renderer::fragments::{
    prepare_large_shape_tile_fragments, PlaneMath, PreparedFragmentBudget, PreparedTileFragments,
    LARGE_SHAPE_PRE_FRAGMENT_TILE_THRESHOLD,
};
use crate::renderer::geometry;
use crate::renderer::geometry::{ClosedShapeDrawMode, HatchStylePreset, TileId};
use crate::renderer::grid;
use crate::renderer::grid::{query_visible_shapes, CellSpan, ShapeSpatialIndex, TileGridIndex};
use crate::renderer::polygon::ClipEdge;
use crate::renderer::queue::TileCacheKey;
use crate::renderer::requests;
use crate::renderer::requests::{requested_hinted_keys, requested_scene_keys, TileHint, TileLook};
use crate::renderer::schedule::CachedShapeQueryStats;
use crate::scene::{Bounds, LayerId, Point, Scene};
use crate::view_builder::LayoutViewBuildOptions;
use std::sync::Arc;
use vstd::prelude::*;

verus! {

/// A layout that is drawn tile by tile without being flattened.
#[derive(Debug)]
pub struct HierarchyTiles {
    /// What is shown of the layout, apart from tile and layer.
    pub base_options: LayoutViewBuildOptions,
    /// The layers of the layout, in the order in which they are drawn.
    pub layer_ids: Vec<LayerId>,
    pub total_shape_estimate: usize,
    /// The layers of the tiles that were seen so far.
    pub hints: Vec<TileHint>,
}

/// What the tiles are made of.
#[derive(Debug)]
pub struct TileContent {
    /// The scene; an empty one where a layout is drawn.
    pub scene: Arc<Scene>,
    pub index: ShapeSpatialIndex,
    pub grid: TileGridIndex,
    pub prepared: PreparedTileFragments,
    /// The layout, where one is drawn without being flattened.
    pub hierarchy: Option<HierarchyTiles>,
}

/// How a layout is shown tile by tile: all of it within its root, without marks and with all its
/// layers.
pub open spec fn tile_base_options(
    options: LayoutViewBuildOptions,
    root_bounds: Bounds,
) -> LayoutViewBuildOptions {
    LayoutViewBuildOptions {
        visible_world_bounds: Some(root_bounds),
        layer_filter: None,
        subtree_screen_lod: None,
        ..options
    }
}

impl TileContent {
    /// Whether the index is that of the scene.
    pub open spec fn fits(self) -> bool {
        self.index.len() == self.scene@.len()
    }

    /// The tiles of a scene. Its shapes come with the cells that their boxes touch on the shape
    /// grid and on the tile grid.
    pub fn of_scene<
        N: Fn(Point, Point) -> bool,
        X: Fn(ClipEdge, Bounds, Point, Point) -> Point,
        C: Fn(Bounds, Point, Point) -> Option<(Point, Point)>,
        B: Fn(TileId) -> Bounds,
    >(
        scene: Arc<Scene>,
        divisions: u32,
        shape_spans: &[CellSpan],
        tile_spans: &[CellSpan],
        near: &N,
        cross: &X,
        clip: &C,
        tile_bounds: &B,
    ) -> (content: Self)
        requires
            shape_spans@.len() == scene@.len(),
            tile_spans@.len() == scene@.len(),
            scene@.len() <= u32::MAX,
            fragments::can_answer(near, cross, clip, tile_bounds),
        ensures
            content.fits(),
            content.scene == scene,
            content.hierarchy is None,
            content.index.indexes(shape_spans@),
            content.grid.indexes(
                *scene,
                tile_spans@,
                geometry::clamped_divisions(divisions) as i32,
            ),
            forall|math: PlaneMath| #[trigger]
                fragments::answers(near, cross, clip, tile_bounds, math) ==> content.prepared.holds(
                    fragments::prepared(
                        scene@,
                        content.grid,
                        tile_spans@,
                        LARGE_SHAPE_PRE_FRAGMENT_TILE_THRESHOLD,
                        (PreparedFragmentBudget {
                            max_fragments: fragments::DEFAULT_PREPARED_FRAGMENT_BUDGET,
                            max_point_copies: fragments::DEFAULT_PREPARED_POINT_BUDGET,
                        }),
                        math,
                        scene@.len(),
                    ),
                ),
    {
        let index = ShapeSpatialIndex::build(&scene, shape_spans);
        let grid = TileGridIndex::build_with_divisions(&scene, tile_spans, divisions);
        let prepared = prepare_large_shape_tile_fragments(
            &scene,
            &grid,
            tile_spans,
            LARGE_SHAPE_PRE_FRAGMENT_TILE_THRESHOLD,
            near,
            cross,
            clip,
            tile_bounds,
        );
        TileContent { scene, index, grid, prepared, hierarchy: None }
    }

    /// The tiles of a layout within its root, of which none has been seen yet.
    pub fn of_layout(
        options: LayoutViewBuildOptions,
        layer_ids: Vec<LayerId>,
        root_bounds: Bounds,
        total_shape_estimate: usize,
        divisions: u32,
    ) -> (content: Self)
        ensures
            content.fits(),
            content.scene@.len() == 0,
            content.prepared.shapes().len() == 0,
            forall|tile: TileId, layer: LayerId|
                (#[trigger] content.prepared.fragments(tile, layer)).len() == 0,
            content.grid.side() == grid::area_side(
                if divisions > renderer::DIRECT_HIERARCHY_MAX_TILE_GRID_DIVISIONS {
                    renderer::DIRECT_HIERARCHY_MAX_TILE_GRID_DIVISIONS
                } else {
                    divisions
                },
            ),
            content.hierarchy matches Some(tiles) && tiles.base_options == tile_base_options(
                options,
                root_bounds,
            ) && tiles.layer_ids == layer_ids && tiles.total_shape_estimate == total_shape_estimate
                && tiles.hints@.len() == 0,
    {
        let scene = Scene::empty();
        let none: Vec<CellSpan> = Vec::new();
        let index = ShapeSpatialIndex::build(&scene, none.as_slice());
        let base_options = LayoutViewBuildOptions {
            visible_world_bounds: Some(root_bounds),
            layer_filter: None,
            subtree_screen_lod: None,
            ..options
        };
        TileContent {
            scene: Arc::new(scene),
            index,
            grid: TileGridIndex::build_for_bounds(effective_tile_grid_divisions(divisions, true)),
            prepared: PreparedTileFragments::default(),
            hierarchy: Some(
                HierarchyTiles {
                    base_options,
                    layer_ids,
                    total_shape_estimate,
                    hints: Vec::new(),
                },
            ),
        }
    }

    /// How many shapes there are.
    pub open spec fn shape_count(self) -> usize {
        match self.hierarchy {
            Some(tiles) => tiles.total_shape_estimate,
            None => self.scene@.len() as usize,
        }
    }

    /// How many shapes there are; of a layout, as far as it was estimated.
    pub fn total_shapes(&self) -> (count: usize)
        ensures
            count == self.shape_count(),
    {
        match &self.hierarchy {
            Some(tiles) => tiles.total_shape_estimate,
            None => self.scene.shapes().len(),
        }
    }

    /// The layers in the order in which they are drawn.
    pub open spec fn drawing_order(self) -> Seq<LayerId> {
        match self.hierarchy {
            Some(tiles) => tiles.layer_ids@,
            None => crate::layers::ascending(crate::scene::shape_layers(self.scene@).to_set()),
        }
    }

    /// The keys that the visible tiles ask for, tile by tile.
    pub open spec fn keys_for(
        self,
        tiles: Seq<TileId>,
        hidden: Set<LayerId>,
        look: TileLook,
        modes: Map<LayerId, ClosedShapeDrawMode>,
        styles: Map<LayerId, HatchStylePreset>,
    ) -> Seq<TileCacheKey> {
        match self.hierarchy {
            Some(layout) => requests::hinted_keys(
                tiles,
                layout.hints@,
                hidden,
                look,
                modes,
                styles,
            ),
            None => requests::scene_keys(
                tiles,
                self.grid,
                self.prepared,
                hidden,
                look,
                modes,
                styles,
            ),
        }
    }

    /// The keys that the visible tiles ask for, tile by tile.
    pub fn requested_keys(
        &self,
        tiles: &[TileId],
        hidden_layers: &LayerSet,
        look: TileLook,
        layer_draw_modes: &LayerMap<ClosedShapeDrawMode>,
        layer_hatch_styles: &LayerMap<HatchStylePreset>,
    ) -> (keys: Vec<TileCacheKey>)
        ensures
            keys@ == self.keys_for(
                tiles@,
                hidden_layers@,
                look,
                layer_draw_modes@,
                layer_hatch_styles@,
            ),
    {
        match &self.hierarchy {
            Some(layout) => requested_hinted_keys(
                tiles,
                &layout.hints,
                hidden_layers,
                look,
                layer_draw_modes,
                layer_hatch_styles,
            ),
            None => requested_scene_keys(
                tiles,
                &self.grid,
                &self.prepared,
                hidden_layers,
                look,
                layer_draw_modes,
                layer_hatch_styles,
            ),
        }
    }

    /// What the search for visible shapes comes across; none is made in a layout.
    pub open spec fn search(
        self,
        visible_world: Bounds,
        area: CellSpan,
        visible_tiles: nat,
    ) -> CachedShapeQueryStats {
        match self.hierarchy {
            Some(_) => CachedShapeQueryStats {
                candidate_shapes: 0,
                visible_shapes: 0,
                bucket_hits: 0,
                visible_tiles: visible_tiles as usize,
            },
            None => CachedShapeQueryStats {
                candidate_shapes: self.index.candidates(area, self.scene@.len()).len() as usize,
                visible_shapes: self.index.visible(
                    *self.scene,
                    visible_world,
                    area,
                    self.scene@.len(),
                ).len() as usize,
                bucket_hits: self.index.hits(area).len() as usize,
                visible_tiles: visible_tiles as usize,
            },
        }
    }

    /// What the search for visible shapes comes across; none is made in a layout.
    pub fn query(&self, visible_world: Bounds, area: CellSpan, visible_tiles: usize) -> (stats:
        CachedShapeQueryStats)
        requires
            self.fits(),
        ensures
            stats == self.search(visible_world, area, visible_tiles as nat),
    {
        if self.hierarchy.is_some() {
            CachedShapeQueryStats {
                candidate_shapes: 0,
                visible_shapes: 0,
                bucket_hits: 0,
                visible_tiles,
            }
        } else {
            let found = query_visible_shapes(&self.scene, &self.index, visible_world, area);
            CachedShapeQueryStats {
                candidate_shapes: found.stats.candidate_shapes,
                visible_shapes: found.stats.visible_shapes,
                bucket_hits: found.stats.bucket_hits,
                visible_tiles,
            }
        }
    }
}

} // verus!
