//! One frame, from what is looked at to what is shown.

use crate::coords;
use crate::layers;
use crate::layers::LayerSet;
use crate::renderer;
use crate::renderer::content::TileContent;
use crate::renderer::effective_draw_mode_for_current_view;
use crate::renderer::geometry;
use crate::renderer::geometry::{
    build_hatch_signature, build_hatch_style_signature, build_render_cache_key_with_hatch_styles,
    layer_hatch_style_hash_value, ClosedShapeDrawMode, RenderCacheKey, TileId, ViewBits,
};
use crate::renderer::grid;
use crate::renderer::grid::{query_visible_tiles, CellSpan};
use crate::renderer::queue::TileCacheKey;
use crate::renderer::requests;
use crate::renderer::requests::{flatten_layer_major_requested_tile_keys, TileLook};
use crate::renderer::schedule;
use crate::renderer::schedule::frame;
use crate::renderer::schedule::frame::{BuildPlan, FrameContext, RefreshKind};
use crate::renderer::schedule::{
    BuiltTile, DisplayModel, ScheduleModel, TileCacheDomainKey, TileSchedule,
};
use crate::scene::{Bounds, LayerId};
use vstd::prelude::*;

verus! {

/// What a frame looks at.
#[derive(Debug, Clone, Copy, PartialEq, Eq, Structural)]
pub struct FrameSight {
    pub view: ViewBits,
    /// The zoom of the camera, as a coordinate key.
    pub zoom: i32,
    /// The bit pattern of the zoom that the tiles are built for.
    pub cache_zoom_bits: u32,
    /// The part of the world that is visible.
    pub visible_world: Bounds,
    /// The cells of the tile grid that it touches.
    pub tile_span: CellSpan,
    /// The cells of the shape grid that it touches.
    pub shape_span: CellSpan,
}

/// What a frame came to.
#[derive(Debug)]
pub struct CacheUpdate {
    /// Whether all that was built before was dropped first.
    pub started_over: bool,
    pub kind: RefreshKind,
    /// The entries that were dropped in the end.
    pub dropped: Vec<TileCacheKey>,
}

/// The mode in which a frame draws areas where the layer does not say.
pub open spec fn frame_mode(
    display: DisplayModel,
    hierarchical: bool,
    zoom: i32,
) -> ClosedShapeDrawMode {
    if hierarchical && coords::at_most(zoom, renderer::DIRECT_HIERARCHY_OUTLINE_ONLY_MAX_ZOOM) {
        ClosedShapeDrawMode::Outline
    } else {
        display.draw_mode
    }
}

/// The key of a frame.
pub open spec fn frame_key(
    m: ScheduleModel,
    sight: FrameSight,
    hidden: Set<LayerId>,
    hierarchical: bool,
) -> RenderCacheKey {
    geometry::render_cache_key(
        m.scene_revision,
        sight.view,
        geometry::appearance_hash(
            layers::ascending(hidden),
            layers::ascending_entries(m.display.layer_draw_modes),
            layers::ascending_entries(m.display.layer_hatch_styles),
            frame_mode(m.display, hierarchical, sight.zoom),
            m.display.hatch_params,
            m.display.hatch_style,
        ),
    )
}

/// What the entries of a frame have in common.
pub open spec fn frame_domain(m: ScheduleModel, sight: FrameSight) -> TileCacheDomainKey {
    TileCacheDomainKey {
        scene_revision: m.scene_revision,
        zoom_bits: sight.cache_zoom_bits,
        hatch_signature: geometry::hatch_signature(m.display.hatch_params) as u64,
        hatch_style_signature: (m.display.hatch_style.tag() as u64) ^ geometry::hatch_styles_hash(
            layers::ascending_entries(m.display.layer_hatch_styles),
        ),
    }
}

/// What the keys of a frame have in common.
pub open spec fn frame_look(m: ScheduleModel, sight: FrameSight, hierarchical: bool) -> TileLook {
    TileLook {
        scene_revision: m.scene_revision,
        zoom_bits: sight.cache_zoom_bits,
        hatch_signature: geometry::hatch_signature(m.display.hatch_params) as u64,
        draw_mode: frame_mode(m.display, hierarchical, sight.zoom),
        hatch_style: m.display.hatch_style,
    }
}

/// The entries that a frame asks for: those of the visible tiles, layer by layer, each layer from
/// the middle of the view.
pub open spec fn frame_requests(
    m: ScheduleModel,
    content: TileContent,
    sight: FrameSight,
    hidden: Set<LayerId>,
    distance: spec_fn(TileId) -> u64,
) -> Seq<TileCacheKey> {
    let keys = content.keys_for(
        grid::visible_tiles(content.grid, sight.tile_span),
        hidden,
        frame_look(m, sight, content.hierarchy is Some),
        m.display.layer_draw_modes,
        m.display.layer_hatch_styles,
    );
    requests::layer_major(
        keys,
        requests::layer_order(keys, content.drawing_order()),
        distance,
    )
}

/// The state on entering the domain of a frame; entries of another one are of no use.
pub open spec fn entered(m: ScheduleModel, domain: TileCacheDomainKey) -> ScheduleModel {
    if m.domain != Some(domain) {
        ScheduleModel {
            cache: Seq::empty(),
            empty: Seq::empty(),
            in_flight: Seq::empty(),
            domain: Some(domain),
            ..m
        }
    } else {
        m
    }
}

/// The state after the builds of a frame: those of a layout are handed out, those of a scene are
/// made at once.
pub open spec fn after_work(
    m: ScheduleModel,
    hierarchical: bool,
    budget: nat,
    made: spec_fn(TileCacheKey) -> Option<BuiltTile>,
    taken: spec_fn(u64, TileCacheKey) -> bool,
) -> ScheduleModel {
    if hierarchical {
        frame::after_dispatch(m, budget, taken)
    } else {
        frame::after_builds(
            ScheduleModel { tick: m.tick.wrapping_add(1), ..m },
            budget,
            made,
        )
    }
}

/// The state once the requests of a frame are known: a new view asks for other entries.
pub open spec fn asked(
    m: ScheduleModel,
    content: TileContent,
    sight: FrameSight,
    hidden: Set<LayerId>,
    distance: spec_fn(TileId) -> u64,
) -> ScheduleModel {
    let key = frame_key(m, sight, hidden, content.hierarchy is Some);
    if frame::refresh_kind(m, key) == RefreshKind::Rebuild {
        frame::with_requests(
            m,
            key,
            frame_requests(m, content, sight, hidden, distance),
            content.search(
                sight.visible_world,
                sight.shape_span,
                grid::visible_tiles(content.grid, sight.tile_span).len(),
            ),
        )
    } else {
        m
    }
}

/// The entries that stay in view through a frame.
pub open spec fn stays(
    m: ScheduleModel,
    content: TileContent,
    sight: FrameSight,
    hidden: Set<LayerId>,
    distance: spec_fn(TileId) -> u64,
) -> Seq<TileCacheKey> {
    let key = frame_key(m, sight, hidden, content.hierarchy is Some);
    if frame::refresh_kind(m, key) == RefreshKind::Rebuild {
        frame::stable_overlap(m, key, frame_requests(m, content, sight, hidden, distance))
    } else {
        Seq::empty()
    }
}

/// How many builds a frame gives up.
pub open spec fn gives_up(
    m: ScheduleModel,
    content: TileContent,
    sight: FrameSight,
    hidden: Set<LayerId>,
    distance: spec_fn(TileId) -> u64,
) -> usize {
    let key = frame_key(m, sight, hidden, content.hierarchy is Some);
    if frame::refresh_kind(m, key) == RefreshKind::Rebuild {
        frame::drops(m, key, frame_requests(m, content, sight, hidden, distance)) as usize
    } else {
        0
    }
}

/// The state after a frame.
pub open spec fn after_frame(
    m: ScheduleModel,
    content: TileContent,
    sight: FrameSight,
    hidden: Set<LayerId>,
    distance: spec_fn(TileId) -> u64,
    made: spec_fn(TileCacheKey) -> Option<BuiltTile>,
    taken: spec_fn(u64, TileCacheKey) -> bool,
) -> ScheduleModel {
    let hierarchical = content.hierarchy is Some;
    let start = entered(m, frame_domain(m, sight));
    let key = frame_key(start, sight, hidden, hierarchical);
    if frame::refresh_kind(start, key) == RefreshKind::Skip {
        frame::skipped(start)
    } else {
        let ready = asked(start, content, sight, hidden, distance);
        let plan = frame::build_plan(ready, content.prepared, content.grid);
        frame::finished(
            after_work(ready, hierarchical, plan.budget as nat, made, taken),
            stays(start, content, sight, hidden, distance),
            gives_up(start, content, sight, hidden, distance),
            frame::refresh_kind(start, key) == RefreshKind::Rebuild,
            plan,
            content.shape_count(),
            content.prepared,
            content.grid,
        )
    }
}

/// The entries that a frame drops from the cache to make room; a frame that has nothing to do
/// drops none.
pub open spec fn dropped_in_frame(
    m: ScheduleModel,
    content: TileContent,
    sight: FrameSight,
    hidden: Set<LayerId>,
    distance: spec_fn(TileId) -> u64,
    made: spec_fn(TileCacheKey) -> Option<BuiltTile>,
    taken: spec_fn(u64, TileCacheKey) -> bool,
) -> Seq<TileCacheKey> {
    let hierarchical = content.hierarchy is Some;
    let start = entered(m, frame_domain(m, sight));
    let key = frame_key(start, sight, hidden, hierarchical);
    if frame::refresh_kind(start, key) == RefreshKind::Skip {
        Seq::empty()
    } else {
        let ready = asked(start, content, sight, hidden, distance);
        let plan = frame::build_plan(ready, content.prepared, content.grid);
        let worked = after_work(ready, hierarchical, plan.budget as nat, made, taken);
        schedule::victims(
            worked.cache,
            worked.limits.tile_cache_capacity,
            frame::display_pass(
                frame::opened(worked, plan, content.prepared, content.grid),
                stays(start, content, sight, hidden, distance),
                plan.bypassed,
                worked.requested.len(),
            ).visible,
        )
    }
}

impl TileSchedule {
    /// The mode, the key and the domain of a frame.
    fn frame_identity(&self, sight: &FrameSight, hidden_layers: &LayerSet, hierarchical: bool) -> (
    identity: (ClosedShapeDrawMode, RenderCacheKey, TileCacheDomainKey))
        ensures
            identity.0 == frame_mode(self@.display, hierarchical, sight.zoom),
            identity.1 == frame_key(self@, *sight, hidden_layers@, hierarchical),
            identity.2 == frame_domain(self@, *sight),
    {
        let mode = effective_draw_mode_for_current_view(
            self.display.draw_mode,
            hierarchical,
            sight.zoom,
        );
        let key = build_render_cache_key_with_hatch_styles(
            self.scene_revision,
            sight.view,
            hidden_layers,
            &self.display.layer_draw_modes,
            &self.display.layer_hatch_styles,
            mode,
            self.display.hatch_params,
            self.display.hatch_style,
        );
        let domain = TileCacheDomainKey {
            scene_revision: self.scene_revision,
            zoom_bits: sight.cache_zoom_bits,
            hatch_signature: build_hatch_signature(self.display.hatch_params),
            hatch_style_signature: build_hatch_style_signature(self.display.hatch_style)
                ^ layer_hatch_style_hash_value(&self.display.layer_hatch_styles),
        };
        (mode, key, domain)
    }

    /// The entries that a frame asks for.
    fn find_requests<R: Fn(TileId) -> u64>(
        &self,
        content: &TileContent,
        sight: &FrameSight,
        hidden_layers: &LayerSet,
        mode: ClosedShapeDrawMode,
        tiles: &[TileId],
        rank: &R,
    ) -> (next: Vec<TileCacheKey>)
        requires
            forall|t: TileId| #[trigger] rank.requires((t,)),
            tiles@ == grid::visible_tiles(content.grid, sight.tile_span),
            mode == frame_mode(self@.display, content.hierarchy is Some, sight.zoom),
        ensures
            forall|distance: spec_fn(TileId) -> u64| #[trigger]
                requests::decides_rank(rank, distance) ==> next@ == frame_requests(
                    self@,
                    *content,
                    *sight,
                    hidden_layers@,
                    distance,
                ),
    {
        let look = TileLook {
            scene_revision: self.scene_revision,
            zoom_bits: sight.cache_zoom_bits,
            hatch_signature: build_hatch_signature(self.display.hatch_params),
            draw_mode: mode,
            hatch_style: self.display.hatch_style,
        };
        let keys = content.requested_keys(
            tiles,
            hidden_layers,
            look,
            &self.display.layer_draw_modes,
            &self.display.layer_hatch_styles,
        );
        match &content.hierarchy {
            Some(layout) => flatten_layer_major_requested_tile_keys(
                keys.as_slice(),
                layout.layer_ids.as_slice(),
                rank,
            ),
            None => {
                let order = content.scene.layer_ids();
                flatten_layer_major_requested_tile_keys(keys.as_slice(), order.as_slice(), rank)
            },
        }
    }

    /// One frame: finds what the view asks for where the view is another one, builds as much of
    /// it as a frame may, and shows what may be shown.
    ///
    /// `rank` is the distance of a tile from the middle of the view; `build` makes an entry of a
    /// scene, or nothing where there is nothing to draw; `send` hands a build of a layout out, and
    /// says whether it was taken.
    pub fn update_scene_cache<
        R: Fn(TileId) -> u64,
        F: Fn(TileCacheKey) -> Option<BuiltTile>,
        G: Fn(u64, TileCacheKey) -> bool,
    >(
        &mut self,
        content: &TileContent,
        sight: &FrameSight,
        hidden_layers: &LayerSet,
        rank: &R,
        build: &F,
        send: &G,
    ) -> (update: CacheUpdate)
        requires
            content.fits(),
            forall|t: TileId| #[trigger] rank.requires((t,)),
            forall|k: TileCacheKey| #[trigger] build.requires((k,)),
            forall|v: u64, k: TileCacheKey| #[trigger] send.requires((v, k)),
        ensures
            update.started_over == (old(self)@.domain != Some(frame_domain(old(self)@, *sight))),
            update.kind == frame::refresh_kind(
                entered(old(self)@, frame_domain(old(self)@, *sight)),
                frame_key(old(self)@, *sight, hidden_layers@, content.hierarchy is Some),
            ),
            update.kind == RefreshKind::Skip ==> update.dropped@.len() == 0,
            forall|
                distance: spec_fn(TileId) -> u64,
                made: spec_fn(TileCacheKey) -> Option<BuiltTile>,
                taken: spec_fn(u64, TileCacheKey) -> bool,
            |
                #![trigger requests::decides_rank(rank, distance), frame::decides_build(build, made), frame::decides_send(send, taken)]
                requests::decides_rank(rank, distance) && frame::decides_build(build, made)
                    && frame::decides_send(send, taken) ==> final(self)@ == after_frame(
                    old(self)@,
                    *content,
                    *sight,
                    hidden_layers@,
                    distance,
                    made,
                    taken,
                ) && update.dropped@ == dropped_in_frame(
                    old(self)@,
                    *content,
                    *sight,
                    hidden_layers@,
                    distance,
                    made,
                    taken,
                ),
    {
        let hierarchical = content.hierarchy.is_some();
        let (mode, key, domain) = self.frame_identity(sight, hidden_layers, hierarchical);
        let started_over = self.enter_domain(domain);
        let ghost start = self@;
        assert(start == entered(old(self)@, domain));
        let kind = self.begin_refresh(key);
        if kind == RefreshKind::Skip {
            return CacheUpdate { started_over, kind, dropped: Vec::new() };
        }
        let (overlap, given_up): (Vec<TileCacheKey>, usize) = if kind == RefreshKind::Rebuild {
            let tiles = query_visible_tiles(&content.grid, sight.tile_span);
            let next = self.find_requests(
                content,
                sight,
                hidden_layers,
                mode,
                tiles.as_slice(),
                rank,
            );
            let query = content.query(sight.visible_world, sight.shape_span, tiles.len());
            self.install_requests(key, next, query)
        } else {
            (Vec::new(), 0)
        };
        let ghost ready = self@;
        let plan: BuildPlan = self.plan_builds(&content.prepared, &content.grid);
        if hierarchical {
            self.dispatch_pending_hierarchy_tile_builds(plan.budget, send);
        } else {
            self.process_pending_tile_builds(plan.budget, build);
        }
        let context = FrameContext {
            stable_overlap: overlap,
            dropped: given_up,
            rebuilt: kind == RefreshKind::Rebuild,
            plan,
            total_shapes: content.total_shapes(),
        };
        let dropped = self.finish_frame(&context, &content.prepared, &content.grid);
        proof {
            assert forall|
                distance: spec_fn(TileId) -> u64,
                made: spec_fn(TileCacheKey) -> Option<BuiltTile>,
                taken: spec_fn(u64, TileCacheKey) -> bool,
            |
                #![trigger requests::decides_rank(rank, distance), frame::decides_build(build, made), frame::decides_send(send, taken)]
                requests::decides_rank(rank, distance) && frame::decides_build(build, made)
                    && frame::decides_send(send, taken) implies self@ == after_frame(
                old(self)@,
                *content,
                *sight,
                hidden_layers@,
                distance,
                made,
                taken,
            ) && dropped@ == dropped_in_frame(
                old(self)@,
                *content,
                *sight,
                hidden_layers@,
                distance,
                made,
                taken,
            ) by {
                assert(key == frame_key(start, *sight, hidden_layers@, hierarchical));
                assert(overlap@ =~= stays(start, *content, *sight, hidden_layers@, distance));
                assert(ready == asked(start, *content, *sight, hidden_layers@, distance));
            }
        }
        CacheUpdate { started_over, kind, dropped }
    }
}

} // verus!
