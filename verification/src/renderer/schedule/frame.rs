//! One frame, step by step.

use crate::counters;
use crate::counters::capped_sum;
use crate::renderer;
use crate::renderer::batch;
use crate::renderer::batch::{batch_is_current, hash_visible_tile_keys};
use crate::renderer::eviction;
use crate::renderer::fragments::PreparedTileFragments;
use crate::renderer::geometry::{RenderCacheKey, TileId};
use crate::renderer::grid::TileGridIndex;
use crate::renderer::queue;
use crate::renderer::queue::{
    active_layer_pending_count, compute_revealed_layers_for_display, contains_tile_key,
    enqueue_unique_pending, has_pending_for_layer, merge_requested_tile_keys_for_incremental_pan,
    next_active_progressive_layer, pop_next_pending_for_layer, refresh_progressive_queue,
    refresh_progressive_queue_incremental, requested_layers_in_order,
    should_display_cached_tile_key, stabilize_visible_tile_keys_during_transition,
    PendingTileBuild, TileCacheKey,
};
use crate::renderer::requests;
use crate::renderer::requests::{contains_tile, estimate_active_layer_pending_stats_for_option};
use crate::renderer::schedule;
use crate::renderer::schedule::{
    BuiltTile, CachedShapeQueryStats, CachedTile, ScheduleModel, TileCacheDomainKey, TileSchedule,
};
use crate::renderer::stats::RenderDebugStats;
use crate::renderer::{
    advance_active_display_budget, compute_effective_build_budget,
    effective_build_budget_for_active_layer, should_bypass_progressive_for_layer,
    should_skip_static_cache_refresh, ActiveLayerProgressMode,
};
use crate::scene::LayerId;
use crate::seqs;
use std::collections::VecDeque;
use vstd::prelude::*;

verus! {

/// The state after a build that made something, or nothing.
pub open spec fn stored(m: ScheduleModel, key: TileCacheKey, built: Option<BuiltTile>) -> ScheduleModel {
    match built {
        Some(built) => ScheduleModel {
            cache: schedule::with_tile(m.cache, CachedTile { key, built, last_used_tick: m.tick }),
            ..m
        },
        None => ScheduleModel { empty: schedule::with_key(m.empty, key), ..m },
    }
}

/// The state after a result has come in: one for an older view is given up.
pub open spec fn received(
    m: ScheduleModel,
    view_revision: u64,
    key: TileCacheKey,
    built: Option<BuiltTile>,
) -> ScheduleModel {
    let landed = ScheduleModel { in_flight: schedule::without_key(m.in_flight, key), ..m };
    if view_revision != m.view_revision {
        ScheduleModel {
            stale_drops: counters::capped((m.stale_drops + 1) as nat),
            ..landed
        }
    } else {
        ScheduleModel { batch: None, arrived: true, ..stored(landed, key, built) }
    }
}

impl TileSchedule {
    /// Starts a round of builds: entries that come in from now on are younger.
    pub fn advance_tick(&mut self)
        ensures
            final(self)@ == (ScheduleModel {
                tick: old(self)@.tick.wrapping_add(1),
                ..old(self)@
            }),
    {
        self.cache_access_tick = self.cache_access_tick.wrapping_add(1);
    }

    fn store(&mut self, key: TileCacheKey, built: Option<BuiltTile>)
        ensures
            final(self)@ == stored(old(self)@, key, built),
    {
        match built {
            Some(built) => {
                let tile = CachedTile { key, built, last_used_tick: self.cache_access_tick };
                schedule::put_tile(&mut self.cache, tile);
            },
            None => {
                schedule::put_key(&mut self.empty_tile_keys, key);
            },
        }
    }

    /// Takes in the result of a build that was done elsewhere. Says whether it is kept.
    pub fn accept_result(
        &mut self,
        view_revision: u64,
        key: TileCacheKey,
        built: Option<BuiltTile>,
    ) -> (kept: bool)
        ensures
            kept == (view_revision == old(self)@.view_revision),
            final(self)@ == received(old(self)@, view_revision, key, built),
    {
        self.in_flight = schedule::remove_key(&self.in_flight, key);
        if view_revision != self.view_revision {
            self.total_stale_drops = capped_sum(self.total_stale_drops, 1);
            return false;
        }
        self.store(key, built);
        self.display_batch = None;
        self.arrived = true;
        true
    }
}

/// What a frame has to do about the view.
#[derive(Debug, Clone, Copy, PartialEq, Eq, Structural)]
pub enum RefreshKind {
    /// Nothing: view, cache and both queues are settled.
    Skip,
    /// The view is the same; builds go on.
    Keep,
    /// The view is another one; what it asks for has to be found.
    Rebuild,
}

/// What a frame has to do about the view.
pub open spec fn refresh_kind(m: ScheduleModel, key: RenderCacheKey) -> RefreshKind {
    if m.scene_key != Some(key) {
        RefreshKind::Rebuild
    } else if m.pending.len() == 0 && m.in_flight.len() == 0 {
        RefreshKind::Skip
    } else {
        RefreshKind::Keep
    }
}

/// The state after a frame that had nothing to do: a hit, unless a result has come in.
pub open spec fn skipped(m: ScheduleModel) -> ScheduleModel {
    ScheduleModel {
        stats: RenderDebugStats { cache_hit: !m.arrived, ..m.stats },
        arrived: false,
        ..m
    }
}

/// Whether the new view is the old one moved, so that what is shared keeps its place.
pub open spec fn is_pan(m: ScheduleModel, key: RenderCacheKey) -> bool {
    m.scene_key matches Some(previous) && previous != key && previous.with_pan(
        key.pan_x_bits,
        key.pan_y_bits,
    ) == key
}

/// The keys of the new requests that were asked for before a pan as well; none for another view.
pub open spec fn stable_overlap(
    m: ScheduleModel,
    key: RenderCacheKey,
    next: Seq<TileCacheKey>,
) -> Seq<TileCacheKey> {
    if is_pan(m, key) {
        next.filter(|k: TileCacheKey| m.requested.contains(k))
    } else {
        Seq::empty()
    }
}

/// The state with the requests of a new view. A pan keeps the order and the revision; any other
/// change starts a new revision, and no layer is under way.
pub open spec fn with_requests(
    m: ScheduleModel,
    key: RenderCacheKey,
    next: Seq<TileCacheKey>,
    query: CachedShapeQueryStats,
) -> ScheduleModel {
    let cached = schedule::cached_keys(m.cache);
    if is_pan(m, key) {
        let requested = queue::panned_requests(m.requested, next);
        ScheduleModel {
            requested,
            pending: queue::panned_queue(m.view_revision, m.pending, requested, cached),
            stale_drops: counters::capped(
                m.stale_drops as nat + queue::panned_drops(m.pending, requested),
            ),
            scene_key: Some(key),
            query,
            ..m
        }
    } else {
        let view_revision = m.view_revision.wrapping_add(1);
        ScheduleModel {
            requested: next,
            pending: queue::fresh_queue(view_revision, next, cached),
            stale_drops: counters::capped(
                m.stale_drops as nat + queue::fresh_drops(m.pending, next),
            ),
            view_revision,
            building_layer: None,
            display_layer: None,
            display_budget: 0,
            scene_key: Some(key),
            query,
            ..m
        }
    }
}

/// How many builds the new view gives up.
pub open spec fn drops(m: ScheduleModel, key: RenderCacheKey, next: Seq<TileCacheKey>) -> nat {
    if is_pan(m, key) {
        queue::panned_drops(m.pending, queue::panned_requests(m.requested, next))
    } else {
        queue::fresh_drops(m.pending, next)
    }
}

/// How many entries a frame builds, and whether it completes everything that is missing.
#[derive(Debug, Clone, Copy, PartialEq, Eq, Structural)]
pub struct BuildPlan {
    pub budget: usize,
    pub bypassed: bool,
}

/// The lesser of two numbers.
pub open spec fn lesser(a: usize, b: usize) -> usize {
    if a <= b {
        a
    } else {
        b
    }
}

/// How many entries a frame builds: all where few are missing, else all of the active layer where
/// that is light, else the budget.
pub open spec fn build_plan(
    m: ScheduleModel,
    prepared: PreparedTileFragments,
    grid: TileGridIndex,
) -> BuildPlan {
    let waiting = m.pending.len() as usize;
    let layer = queue::active_layer_for(m.building_layer, m.pending);
    let stats = requests::pending_stats_for(layer, m.pending, prepared, grid);
    if waiting == 0 {
        BuildPlan { budget: 0, bypassed: false }
    } else if waiting <= m.limits.progressive_bypass_threshold {
        BuildPlan { budget: waiting, bypassed: true }
    } else if renderer::layer_is_light(stats, m.limits.layer_bypass) {
        BuildPlan { budget: stats.pending_entries, bypassed: false }
    } else {
        BuildPlan {
            budget: lesser(m.limits.progressive_build_budget, waiting),
            bypassed: false,
        }
    }
}

/// Whether the function answers every key, and as `made` says.
pub open spec fn decides_build<F: Fn(TileCacheKey) -> Option<BuiltTile>>(
    build: &F,
    made: spec_fn(TileCacheKey) -> Option<BuiltTile>,
) -> bool {
    &&& forall|k: TileCacheKey| #[trigger] build.requires((k,))
    &&& forall|k: TileCacheKey, r: Option<BuiltTile>| #[trigger]
        build.ensures((k,), r) ==> r == made(k)
}

/// Whether the function answers every key, and as `taken` says.
pub open spec fn decides_send<F: Fn(u64, TileCacheKey) -> bool>(
    send: &F,
    taken: spec_fn(u64, TileCacheKey) -> bool,
) -> bool {
    &&& forall|v: u64, k: TileCacheKey| #[trigger] send.requires((v, k))
    &&& forall|v: u64, k: TileCacheKey, r: bool| #[trigger]
        send.ensures((v, k), r) ==> r == taken(v, k)
}

/// The state after the first build of a layer was taken from the queue.
pub open spec fn taken_from(m: ScheduleModel, layer: LayerId) -> ScheduleModel {
    ScheduleModel {
        building_layer: Some(layer),
        pending: m.pending.remove(queue::first_of_layer(m.pending, layer)),
        ..m
    }
}

/// The state in which a layer without further builds is no longer the active one.
pub open spec fn released(m: ScheduleModel, layer: LayerId) -> ScheduleModel {
    if queue::pending_layers(m.pending).contains(layer) {
        m
    } else {
        ScheduleModel { building_layer: None, ..m }
    }
}

/// One build given up.
pub open spec fn one_dropped(m: ScheduleModel) -> ScheduleModel {
    ScheduleModel { stale_drops: counters::capped((m.stale_drops + 1) as nat), ..m }
}

/// The state after up to `budget` builds, layer by layer. Builds of an older view are given up and
/// entries that are there are passed over; neither counts.
pub open spec fn after_builds(
    m: ScheduleModel,
    budget: nat,
    made: spec_fn(TileCacheKey) -> Option<BuiltTile>,
) -> ScheduleModel
    decreases m.pending.len(),
{
    if budget == 0 {
        m
    } else {
        match queue::active_layer_for(m.building_layer, m.pending) {
            None => ScheduleModel { building_layer: None, ..m },
            Some(layer) => {
                let at = queue::first_of_layer(m.pending, layer);
                if 0 <= at < m.pending.len() {
                    let item = m.pending[at];
                    let rest = taken_from(m, layer);
                    if item.view_revision != m.view_revision {
                        after_builds(one_dropped(rest), budget, made)
                    } else if schedule::is_cached(m.cache, item.tile_key) {
                        after_builds(rest, budget, made)
                    } else {
                        after_builds(
                            released(stored(rest, item.tile_key, made(item.tile_key)), layer),
                            (budget - 1) as nat,
                            made,
                        )
                    }
                } else {
                    m
                }
            },
        }
    }
}

/// The state after up to `budget` builds were handed out, layer by layer. Builds of an older view
/// are given up, and entries that are there, known to be empty or under way are passed over;
/// none of these counts. Where a build is not taken, the rest waits.
pub open spec fn after_dispatch(
    m: ScheduleModel,
    budget: nat,
    taken: spec_fn(u64, TileCacheKey) -> bool,
) -> ScheduleModel
    decreases m.pending.len(),
{
    if budget == 0 {
        m
    } else {
        match queue::active_layer_for(m.building_layer, m.pending) {
            None => ScheduleModel { building_layer: None, ..m },
            Some(layer) => {
                let at = queue::first_of_layer(m.pending, layer);
                if 0 <= at < m.pending.len() {
                    let item = m.pending[at];
                    let rest = taken_from(m, layer);
                    if item.view_revision != m.view_revision {
                        after_dispatch(one_dropped(rest), budget, taken)
                    } else if schedule::is_cached(m.cache, item.tile_key) || m.empty.contains(
                        item.tile_key,
                    ) || m.in_flight.contains(item.tile_key) {
                        after_dispatch(rest, budget, taken)
                    } else if !taken(m.view_revision, item.tile_key) {
                        rest
                    } else {
                        after_dispatch(
                            released(
                                ScheduleModel {
                                    in_flight: schedule::with_key(rest.in_flight, item.tile_key),
                                    ..rest
                                },
                                layer,
                            ),
                            (budget - 1) as nat,
                            taken,
                        )
                    }
                } else {
                    m
                }
            },
        }
    }
}

impl TileSchedule {
    /// Enters a domain; entries of another one are dropped. Says whether it is another one.
    pub fn enter_domain(&mut self, domain: TileCacheDomainKey) -> (changed: bool)
        ensures
            changed == (old(self)@.domain != Some(domain)),
            final(self)@ == (if changed {
                ScheduleModel {
                    cache: Seq::empty(),
                    empty: Seq::empty(),
                    in_flight: Seq::empty(),
                    domain: Some(domain),
                    ..old(self)@
                }
            } else {
                old(self)@
            }),
    {
        if self.tile_cache_domain == Some(domain) {
            return false;
        }
        self.cache = Vec::new();
        self.empty_tile_keys = Vec::new();
        self.in_flight = Vec::new();
        self.tile_cache_domain = Some(domain);
        true
    }

    /// What this frame has to do about the view. A frame that has nothing to do says so in its
    /// report; it is a hit unless a result has come in.
    pub fn begin_refresh(&mut self, key: RenderCacheKey) -> (kind: RefreshKind)
        ensures
            kind == refresh_kind(old(self)@, key),
            final(self)@ == (if kind == RefreshKind::Skip {
                skipped(old(self)@)
            } else {
                old(self)@
            }),
    {
        if should_skip_static_cache_refresh(
            self.cached_scene_key,
            key,
            true,
            self.pending.len(),
            self.in_flight.len(),
        ) {
            self.debug_stats.cache_hit = !self.arrived;
            self.arrived = false;
            return RefreshKind::Skip;
        }
        if self.cached_scene_key == Some(key) {
            RefreshKind::Keep
        } else {
            RefreshKind::Rebuild
        }
    }

    /// Installs the requests of a new view. Gives the keys that stay in view through a pan, and
    /// how many builds were given up.
    pub fn install_requests(
        &mut self,
        key: RenderCacheKey,
        next: Vec<TileCacheKey>,
        query: CachedShapeQueryStats,
    ) -> (result: (Vec<TileCacheKey>, usize))
        ensures
            final(self)@ == with_requests(old(self)@, key, next@, query),
            result.0@ == stable_overlap(old(self)@, key, next@),
            result.1 == drops(old(self)@, key, next@),
    {
        let panned = match self.cached_scene_key {
            Some(previous) => previous.differs_only_by_pan(key),
            None => false,
        };
        assert(panned == is_pan(old(self)@, key));
        let cached = schedule::list_cached_keys(&self.cache);
        self.query = query;
        self.cached_scene_key = Some(key);
        let mut waiting: VecDeque<PendingTileBuild> = VecDeque::new();
        std::mem::swap(&mut waiting, &mut self.pending);
        if panned {
            let overlap = shared_keys(&next, &self.requested);
            let merged = merge_requested_tile_keys_for_incremental_pan(&self.requested, next);
            let (pending, dropped) = refresh_progressive_queue_incremental(
                self.view_revision,
                waiting,
                &merged,
                &cached,
            );
            self.requested = merged;
            self.pending = pending;
            self.total_stale_drops = capped_sum(self.total_stale_drops, dropped);
            assert(self@ =~= with_requests(old(self)@, key, next@, query));
            (overlap, dropped)
        } else {
            self.view_revision = self.view_revision.wrapping_add(1);
            self.active_progressive_layer = None;
            self.active_display_layer = None;
            self.active_display_budget = 0;
            let (pending, dropped) = refresh_progressive_queue(
                self.view_revision,
                waiting,
                &next,
                &cached,
            );
            self.requested = next;
            self.pending = pending;
            self.total_stale_drops = capped_sum(self.total_stale_drops, dropped);
            assert(self@ =~= with_requests(old(self)@, key, next@, query));
            (Vec::new(), dropped)
        }
    }

    /// How many entries this frame builds.
    pub fn plan_builds(&self, prepared: &PreparedTileFragments, tile_grid: &TileGridIndex) -> (plan:
        BuildPlan)
        ensures
            plan == build_plan(self@, *prepared, *tile_grid),
    {
        let layer = next_active_progressive_layer(self.active_progressive_layer, &self.pending);
        let stats = estimate_active_layer_pending_stats_for_option(
            layer,
            &self.pending,
            prepared,
            tile_grid,
        );
        let (budget, bypassed) = compute_effective_build_budget(
            self.pending.len(),
            self.limits.progressive_build_budget,
            self.limits.progressive_bypass_threshold,
        );
        if bypassed {
            BuildPlan { budget, bypassed }
        } else {
            let own: usize = effective_build_budget_for_active_layer(
                self.pending.len(),
                layer,
                stats,
                self.limits.progressive_build_budget,
                self.limits.layer_bypass,
            );
            BuildPlan { budget: own, bypassed }
        }
    }

    /// Takes the next build of the queue, layer by layer.
    fn take_next(&mut self) -> (item: Option<PendingTileBuild>)
        ensures
            match queue::active_layer_for(old(self)@.building_layer, old(self)@.pending) {
                None => item is None && final(self)@ == (ScheduleModel {
                    building_layer: None,
                    ..old(self)@
                }),
                Some(layer) => {
                    let at = queue::first_of_layer(old(self)@.pending, layer);
                    &&& 0 <= at < old(self)@.pending.len()
                    &&& item == Some(old(self)@.pending[at])
                    &&& old(self)@.pending[at].tile_key.layer == layer
                    &&& final(self)@ == taken_from(old(self)@, layer)
                },
            },
    {
        let active = next_active_progressive_layer(self.active_progressive_layer, &self.pending);
        match active {
            None => {
                self.active_progressive_layer = None;
                None
            },
            Some(layer) => {
                proof {
                    let waiting = self.pending@;
                    if waiting.len() > 0 {
                        assert(queue::pending_layers(waiting)[0] == waiting[0].tile_key.layer);
                    }
                    assert(queue::pending_layers(waiting).contains(layer));
                }
                self.active_progressive_layer = Some(layer);
                let mut waiting: VecDeque<PendingTileBuild> = VecDeque::new();
                std::mem::swap(&mut waiting, &mut self.pending);
                let item = pop_next_pending_for_layer(&mut waiting, layer);
                self.pending = waiting;
                item
            },
        }
    }

    /// A layer without further builds is no longer the active one.
    fn release(&mut self, layer: LayerId)
        ensures
            final(self)@ == released(old(self)@, layer),
    {
        if !has_pending_for_layer(&self.pending, layer) {
            self.active_progressive_layer = None;
        }
    }

    /// Builds up to `budget` entries, layer by layer: a layer is not left before all its builds
    /// are done. `build` makes an entry, or nothing where there is nothing to draw.
    pub fn process_pending_tile_builds<F: Fn(TileCacheKey) -> Option<BuiltTile>>(
        &mut self,
        budget: usize,
        build: &F,
    )
        requires
            forall|k: TileCacheKey| #[trigger] build.requires((k,)),
        ensures
            forall|made: spec_fn(TileCacheKey) -> Option<BuiltTile>| #[trigger]
                decides_build(build, made) ==> final(self)@ == after_builds(
                    (ScheduleModel { tick: old(self)@.tick.wrapping_add(1), ..old(self)@ }),
                    budget as nat,
                    made,
                ),
    {
        self.advance_tick();
        let ghost start = self@;
        let mut left: usize = budget;
        let mut done = false;
        while left > 0 && !done
            invariant
                forall|k: TileCacheKey| #[trigger] build.requires((k,)),
                !done ==> forall|made: spec_fn(TileCacheKey) -> Option<BuiltTile>| #[trigger]
                    decides_build(build, made) ==> after_builds(start, budget as nat, made)
                        == after_builds(self@, left as nat, made),
                done ==> forall|made: spec_fn(TileCacheKey) -> Option<BuiltTile>| #[trigger]
                    decides_build(build, made) ==> after_builds(start, budget as nat, made)
                        == self@,
            decreases self@.pending.len() + (if done {
                0int
            } else {
                1int
            }),
        {
            let ghost before = self@;
            let next = self.take_next();
            match next {
                None => {
                    done = true;
                },
                Some(item) => {
                    if item.view_revision != self.view_revision {
                        self.total_stale_drops = capped_sum(self.total_stale_drops, 1);
                        assert(self@ =~= one_dropped(
                            taken_from(before, item.tile_key.layer),
                        ));
                    } else if schedule::cache_position(&self.cache, item.tile_key).is_some() {
                    } else {
                        let ghost mid = self@;
                        let built = build(item.tile_key);
                        self.store(item.tile_key, built);
                        self.release(item.tile_key.layer);
                        left -= 1;
                        proof {
                            assert forall|made: spec_fn(TileCacheKey) -> Option<BuiltTile>|
                                #[trigger] decides_build(build, made) implies after_builds(
                                start,
                                budget as nat,
                                made,
                            ) == after_builds(self@, left as nat, made) by {
                                assert(built == made(item.tile_key));
                            }
                        }
                    }
                },
            }
        }
    }

    /// Hands out up to `budget` builds, layer by layer. `send` is told the view that a build is for
    /// and the entry, and says whether the build was taken; where one is not, the rest waits.
    pub fn dispatch_pending_hierarchy_tile_builds<F: Fn(u64, TileCacheKey) -> bool>(
        &mut self,
        budget: usize,
        send: &F,
    )
        requires
            forall|v: u64, k: TileCacheKey| #[trigger] send.requires((v, k)),
        ensures
            forall|taken: spec_fn(u64, TileCacheKey) -> bool| #[trigger]
                decides_send(send, taken) ==> final(self)@ == after_dispatch(
                    old(self)@,
                    budget as nat,
                    taken,
                ),
    {
        let ghost start = self@;
        let mut left: usize = budget;
        let mut done = false;
        while left > 0 && !done
            invariant
                forall|v: u64, k: TileCacheKey| #[trigger] send.requires((v, k)),
                !done ==> forall|taken: spec_fn(u64, TileCacheKey) -> bool| #[trigger]
                    decides_send(send, taken) ==> after_dispatch(start, budget as nat, taken)
                        == after_dispatch(self@, left as nat, taken),
                done ==> forall|taken: spec_fn(u64, TileCacheKey) -> bool| #[trigger]
                    decides_send(send, taken) ==> after_dispatch(start, budget as nat, taken)
                        == self@,
            decreases self@.pending.len() + (if done {
                0int
            } else {
                1int
            }),
        {
            let ghost before = self@;
            let next = self.take_next();
            match next {
                None => {
                    done = true;
                },
                Some(item) => {
                    if item.view_revision != self.view_revision {
                        self.total_stale_drops = capped_sum(self.total_stale_drops, 1);
                        assert(self@ =~= one_dropped(
                            taken_from(before, item.tile_key.layer),
                        ));
                    } else if schedule::cache_position(&self.cache, item.tile_key).is_some()
                        || contains_tile_key(&self.empty_tile_keys, item.tile_key)
                        || contains_tile_key(&self.in_flight, item.tile_key) {
                    } else {
                        let took = send(self.view_revision, item.tile_key);
                        if took {
                            schedule::put_key(&mut self.in_flight, item.tile_key);
                            self.release(item.tile_key.layer);
                            left -= 1;
                        } else {
                            done = true;
                        }
                        proof {
                            assert forall|taken: spec_fn(u64, TileCacheKey) -> bool| #[trigger]
                                decides_send(send, taken) implies took == taken(
                                self.view_revision,
                                item.tile_key,
                            ) by {}
                        }
                    }
                },
            }
        }
    }
}

/// Those of the keys that are in the other list as well.
fn shared_keys(keys: &Vec<TileCacheKey>, others: &Vec<TileCacheKey>) -> (shared: Vec<TileCacheKey>)
    ensures
        shared@ == keys@.filter(|k: TileCacheKey| others@.contains(k)),
{
    let ghost both = |k: TileCacheKey| others@.contains(k);
    let mut shared: Vec<TileCacheKey> = Vec::new();
    let mut i: usize = 0;
    proof {
        reveal(Seq::filter);
        assert(keys@.take(0).filter(both) =~= Seq::<TileCacheKey>::empty());
    }
    while i < keys.len()
        invariant
            i <= keys@.len(),
            both == (|k: TileCacheKey| others@.contains(k)),
            shared@ == keys@.take(i as int).filter(both),
        decreases keys@.len() - i,
    {
        proof {
            seqs::lemma_filter_take(keys@, i as int, both);
        }
        if contains_tile_key(others, keys[i]) {
            shared.push(keys[i]);
        }
        i += 1;
    }
    assert(keys@.take(i as int) =~= keys@);
    shared
}

/// What a frame knows when its builds are done.
#[derive(Debug)]
pub struct FrameContext {
    /// The keys that stayed in view through a pan.
    pub stable_overlap: Vec<TileCacheKey>,
    /// How many builds the view gave up.
    pub dropped: usize,
    /// Whether the view is another one than that of the last frame.
    pub rebuilt: bool,
    pub plan: BuildPlan,
    /// How many shapes the source has.
    pub total_shapes: usize,
}

/// How the active layer advances.
pub open spec fn progress_mode(
    m: ScheduleModel,
    bypassed: bool,
    prepared: PreparedTileFragments,
    grid: TileGridIndex,
) -> Option<ActiveLayerProgressMode> {
    let layer = queue::active_layer_for(m.building_layer, m.pending);
    let stats = requests::pending_stats_for(layer, m.pending, prepared, grid);
    if layer is None {
        None
    } else if bypassed || renderer::layer_is_light(stats, m.limits.layer_bypass) {
        Some(ActiveLayerProgressMode::Bypassed)
    } else {
        Some(ActiveLayerProgressMode::Progressive)
    }
}

/// The state with the active layer opened to display by one more step.
pub open spec fn opened(
    m: ScheduleModel,
    plan: BuildPlan,
    prepared: PreparedTileFragments,
    grid: TileGridIndex,
) -> ScheduleModel {
    let layer = queue::active_layer_for(m.building_layer, m.pending);
    ScheduleModel {
        display_layer: layer,
        display_budget: renderer::advanced_display_budget(
            m.display_budget,
            m.display_layer == layer,
            plan.bypassed,
            progress_mode(m, plan.bypassed, prepared, grid),
            plan.budget,
        ),
        ..m
    }
}

/// The layers that may be shown: all where the frame completes everything, else those that are
/// complete up to the active one.
pub open spec fn revealed_layers(m: ScheduleModel, bypassed: bool) -> Seq<LayerId> {
    let asked = seqs::distinct(queue::key_layers(m.requested));
    if bypassed {
        asked
    } else {
        queue::revealed_prefix(
            asked,
            queue::pending_layers(m.pending),
            queue::active_layer_for(m.building_layer, m.pending),
        )
    }
}

/// What going through the requested entries has come to.
#[verifier::ext_equal]
pub struct DisplayPass {
    pub hits: nat,
    pub misses: nat,
    pub vertices: nat,
    pub visible: Seq<TileCacheKey>,
    /// Entries of the active layer that count towards its budget: those shown, and those there.
    pub active_shown: nat,
    pub active_cached: nat,
    pub pending: Seq<PendingTileBuild>,
}

/// Whether an entry counts towards the budget of the active layer.
pub open spec fn counts_to_budget(
    key: TileCacheKey,
    active: Option<LayerId>,
    bypassed: bool,
    overlap: Seq<TileCacheKey>,
) -> bool {
    Some(key.layer) == active && !bypassed && !overlap.contains(key)
}

/// The queue with a build for the entry, unless it waits or is under way.
pub open spec fn queued(
    pending: Seq<PendingTileBuild>,
    in_flight: Seq<TileCacheKey>,
    view_revision: u64,
    key: TileCacheKey,
) -> Seq<PendingTileBuild> {
    if in_flight.contains(key) || queue::pending_keys(pending).contains(key) {
        pending
    } else {
        pending.push(PendingTileBuild { view_revision, tile_key: key })
    }
}

/// Going through the first `count` requested entries: one that is there is shown where it may be,
/// one that is missing is queued. `m` is the state in which the pass starts.
pub open spec fn display_pass(
    m: ScheduleModel,
    overlap: Seq<TileCacheKey>,
    bypassed: bool,
    count: nat,
) -> DisplayPass
    decreases count,
{
    if count == 0 {
        DisplayPass {
            hits: 0,
            misses: 0,
            vertices: 0,
            visible: Seq::empty(),
            active_shown: 0,
            active_cached: 0,
            pending: m.pending,
        }
    } else {
        let p = display_pass(m, overlap, bypassed, (count - 1) as nat);
        let key = m.requested[count - 1];
        let active = queue::active_layer_for(m.building_layer, m.pending);
        if schedule::is_cached(m.cache, key) {
            let counts: nat = if counts_to_budget(key, active, bypassed, overlap) {
                1
            } else {
                0
            };
            if queue::shows_cached_key(
                key,
                overlap,
                bypassed,
                active,
                m.display_budget,
                p.active_shown,
                revealed_layers(m, bypassed),
            ) {
                DisplayPass {
                    hits: p.hits + 1,
                    active_cached: p.active_cached + counts,
                    active_shown: p.active_shown + counts,
                    vertices: p.vertices + m.cache[schedule::place_of(
                        m.cache,
                        key,
                    )].built.vertex_count as nat,
                    visible: p.visible.push(key),
                    ..p
                }
            } else {
                DisplayPass {
                    hits: p.hits + 1,
                    active_cached: p.active_cached + counts,
                    ..p
                }
            }
        } else if m.empty.contains(key) {
            DisplayPass { hits: p.hits + 1, ..p }
        } else {
            DisplayPass {
                misses: p.misses + 1,
                pending: queued(p.pending, m.in_flight, m.view_revision, key),
                ..p
            }
        }
    }
}

/// Whether an entry is neither there nor known to be empty.
pub open spec fn is_missing(m: ScheduleModel, key: TileCacheKey) -> bool {
    !schedule::is_cached(m.cache, key) && !m.empty.contains(key)
}

/// The tiles of the first `count` requested entries, each once.
pub open spec fn asked_tiles(m: ScheduleModel, count: nat) -> Seq<TileId>
    decreases count,
{
    if count == 0 {
        Seq::empty()
    } else {
        let rest = asked_tiles(m, (count - 1) as nat);
        let tile = m.requested[count - 1].tile_id;
        if rest.contains(tile) {
            rest
        } else {
            rest.push(tile)
        }
    }
}

/// The tiles of those of the first `count` requested entries that are missing, each once.
pub open spec fn incomplete_tiles(m: ScheduleModel, count: nat) -> Seq<TileId>
    decreases count,
{
    if count == 0 {
        Seq::empty()
    } else {
        let rest = incomplete_tiles(m, (count - 1) as nat);
        let key = m.requested[count - 1];
        if !is_missing(m, key) || rest.contains(key.tile_id) {
            rest
        } else {
            rest.push(key.tile_id)
        }
    }
}

/// How many of the first `count` tiles are not among the others.
pub open spec fn count_outside(tiles: Seq<TileId>, others: Seq<TileId>, count: nat) -> nat
    decreases count,
{
    if count == 0 {
        0
    } else {
        count_outside(tiles, others, (count - 1) as nat) + (if others.contains(tiles[count - 1]) {
            0nat
        } else {
            1nat
        })
    }
}

/// The tiles that have pieces of shapes cut ahead of drawing.
pub open spec fn tiles_with_pieces(prepared: PreparedTileFragments) -> Set<TileId> {
    Set::new(|tile: TileId| prepared.layers(tile).len() > 0)
}

/// The state at the end of a frame, given the state after its builds.
pub open spec fn finished(
    m: ScheduleModel,
    overlap: Seq<TileCacheKey>,
    dropped: usize,
    rebuilt: bool,
    plan: BuildPlan,
    total_shapes: usize,
    prepared: PreparedTileFragments,
    grid: TileGridIndex,
) -> ScheduleModel {
    let active = queue::active_layer_for(m.building_layer, m.pending);
    let mode = progress_mode(m, plan.bypassed, prepared, grid);
    let work = requests::pending_stats_for(active, m.pending, prepared, grid);
    let open = opened(m, plan, prepared, grid);
    let pass = display_pass(open, overlap, plan.bypassed, m.requested.len());
    let gone = schedule::victims(m.cache, m.limits.tile_cache_capacity, pass.visible);
    let cache = schedule::outside(m.cache, gone);
    let asked = asked_tiles(m, m.requested.len());
    let incomplete = incomplete_tiles(m, m.requested.len());
    let visible = if pass.pending.len() == 0 {
        pass.visible
    } else {
        seqs::append_new(pass.visible, m.visible)
    };
    let evictions = counters::capped((m.evictions + gone.len()) as nat);
    ScheduleModel {
        pending: pass.pending,
        arrived: false,
        cache,
        evictions,
        visible,
        stats: RenderDebugStats {
            total_shapes,
            candidate_shapes: m.query.candidate_shapes,
            visible_shapes: m.query.visible_shapes,
            bucket_hits: m.query.bucket_hits,
            vertex_count: counters::capped(pass.vertices),
            draw_calls: visible.len() as usize,
            visible_tiles: m.query.visible_tiles,
            tile_cache_hits: count_outside(asked, incomplete, asked.len()) as usize,
            tile_cache_misses: incomplete.len() as usize,
            layer_cache_hits: pass.hits as usize,
            layer_cache_misses: pass.misses as usize,
            cache_entries: cache.len() as usize,
            cache_capacity: m.limits.tile_cache_capacity,
            cache_bytes: counters::capped(eviction::usage_bytes(schedule::usages(cache)) as nat),
            cache_evictions: evictions,
            prepared_shapes: prepared.shapes().len() as usize,
            prepared_tiles: tiles_with_pieces(prepared).len() as usize,
            prepared_fragments: prepared.piece_count(),
            pending_entries: counters::capped(
                (pass.pending.len() + (pass.active_cached - pass.active_shown)) as nat,
            ),
            build_budget: plan.budget,
            dropped_stale_entries: m.stale_drops,
            active_layer: active,
            active_layer_pending: (match active {
                Some(layer) => queue::count_for_layer(pass.pending, layer),
                None => 0,
            }) as usize,
            active_layer_estimated_work: work.estimated_work_units,
            active_layer_progress_mode: mode,
            progressive_bypassed: plan.bypassed,
            layer_bypass_entry_threshold: m.limits.layer_bypass.entry_threshold,
            layer_bypass_work_threshold: m.limits.layer_bypass.work_threshold,
            cache_hit: pass.pending.len() == 0 && pass.misses == 0 && dropped == 0 && !rebuilt
                && plan.budget == 0 && !m.arrived,
            hatch_spacing: m.display.hatch_params.spacing,
            hatch_width: m.display.hatch_params.width,
        },
        ..open
    }
}

/// The pass never shows more entries of the active layer than are there.
pub proof fn lemma_display_pass(
    m: ScheduleModel,
    overlap: Seq<TileCacheKey>,
    bypassed: bool,
    count: nat,
)
    requires
        count <= m.requested.len(),
    ensures
        ({
            let p = display_pass(m, overlap, bypassed, count);
            &&& p.active_shown <= p.active_cached <= count
            &&& p.hits + p.misses == count
            &&& p.visible.len() <= count
        }),
    decreases count,
{
    if count > 0 {
        lemma_display_pass(m, overlap, bypassed, (count - 1) as nat);
    }
}

/// The outcome of going through the requested entries.
struct PassOutcome {
    hits: usize,
    misses: usize,
    vertices: usize,
    visible: Vec<TileCacheKey>,
    active_shown: usize,
    active_cached: usize,
    pending: VecDeque<PendingTileBuild>,
    asked: Vec<TileId>,
    incomplete: Vec<TileId>,
}

/// How many of the tiles are not among the others.
fn count_tiles_outside(tiles: &Vec<TileId>, others: &Vec<TileId>) -> (count: usize)
    ensures
        count == count_outside(tiles@, others@, tiles@.len()),
        count <= tiles@.len(),
{
    let mut count: usize = 0;
    let mut i: usize = 0;
    while i < tiles.len()
        invariant
            i <= tiles@.len(),
            count <= i,
            count == count_outside(tiles@, others@, i as nat),
        decreases tiles@.len() - i,
    {
        if !contains_tile(others, tiles[i]) {
            count += 1;
        }
        i += 1;
    }
    count
}

/// The bytes of the entries, as far as a `usize` counts.
fn total_bytes(cache: &Vec<CachedTile>) -> (bytes: usize)
    ensures
        bytes == counters::capped(eviction::usage_bytes(schedule::usages(cache@)) as nat),
{
    let mut bytes: usize = 0;
    let mut i: usize = 0;
    let ghost usage = schedule::usages(cache@);
    while i < cache.len()
        invariant
            i <= cache@.len(),
            usage == schedule::usages(cache@),
            eviction::usage_bytes(usage.take(i as int)) >= 0,
            bytes == counters::capped(eviction::usage_bytes(usage.take(i as int)) as nat),
        decreases cache@.len() - i,
    {
        proof {
            assert(usage.take(i + 1).drop_last() =~= usage.take(i as int));
        }
        bytes = capped_sum(bytes, cache[i].built.byte_size);
        i += 1;
    }
    assert(usage.take(i as int) =~= usage);
    bytes
}

impl TileSchedule {
    /// Goes through the requested entries: shows what may be shown and queues what is missing.
    fn run_display_pass(
        &self,
        overlap: &Vec<TileCacheKey>,
        bypassed: bool,
        displayed: Option<LayerId>,
        revealed: &Vec<LayerId>,
        pending: VecDeque<PendingTileBuild>,
        Ghost(m): Ghost<ScheduleModel>,
    ) -> (outcome: PassOutcome)
        requires
            m == (ScheduleModel { pending: pending@, ..self@ }),
            displayed == queue::active_layer_for(m.building_layer, m.pending),
            revealed@ == revealed_layers(m, bypassed),
        ensures
            ({
                let p = display_pass(m, overlap@, bypassed, m.requested.len());
                &&& outcome.hits == p.hits
                &&& outcome.misses == p.misses
                &&& outcome.vertices == counters::capped(p.vertices)
                &&& outcome.visible@ == p.visible
                &&& outcome.active_shown == p.active_shown
                &&& outcome.active_cached == p.active_cached
                &&& outcome.pending@ == p.pending
                &&& outcome.asked@ == asked_tiles(m, m.requested.len())
                &&& outcome.incomplete@ == incomplete_tiles(m, m.requested.len())
            }),
    {
        let mut hits: usize = 0;
        let mut misses: usize = 0;
        let mut vertices: usize = 0;
        let mut visible: Vec<TileCacheKey> = Vec::new();
        let mut active_shown: usize = 0;
        let mut active_cached: usize = 0;
        let mut waiting = pending;
        let mut asked: Vec<TileId> = Vec::new();
        let mut incomplete: Vec<TileId> = Vec::new();
        let mut i: usize = 0;
        while i < self.requested.len()
            invariant
                i <= self.requested@.len(),
                m.requested == self.requested@,
                m.cache == self.cache@,
                m.empty == self.empty_tile_keys@,
                m.in_flight == self.in_flight@,
                m.view_revision == self.view_revision,
                m.display_budget == self.active_display_budget,
                displayed == queue::active_layer_for(m.building_layer, m.pending),
                revealed@ == revealed_layers(m, bypassed),
                hits <= i,
                misses <= i,
                active_shown <= i,
                active_cached <= i,
                ({
                    let p = display_pass(m, overlap@, bypassed, i as nat);
                    &&& hits == p.hits
                    &&& misses == p.misses
                    &&& vertices == counters::capped(p.vertices)
                    &&& visible@ == p.visible
                    &&& active_shown == p.active_shown
                    &&& active_cached == p.active_cached
                    &&& waiting@ == p.pending
                    &&& asked@ == asked_tiles(m, i as nat)
                    &&& incomplete@ == incomplete_tiles(m, i as nat)
                }),
            decreases self.requested@.len() - i,
        {
            let key = self.requested[i];
            let ghost before = display_pass(m, overlap@, bypassed, i as nat);
            if !contains_tile(&asked, key.tile_id) {
                asked.push(key.tile_id);
            }
            match schedule::cache_position(&self.cache, key) {
                Some(at) => {
                    hits += 1;
                    let counts = displayed == Some(key.layer) && !bypassed && !contains_tile_key(
                        overlap,
                        key,
                    );
                    if counts {
                        active_cached += 1;
                    }
                    if should_display_cached_tile_key(
                        key,
                        overlap,
                        bypassed,
                        displayed,
                        self.active_display_budget,
                        active_shown,
                        revealed,
                    ) {
                        if counts {
                            active_shown += 1;
                        }
                        vertices = capped_sum(vertices, self.cache[at].built.vertex_count);
                        visible.push(key);
                    }
                },
                None => {
                    if contains_tile_key(&self.empty_tile_keys, key) {
                        hits += 1;
                    } else {
                        misses += 1;
                        if !contains_tile(&incomplete, key.tile_id) {
                            incomplete.push(key.tile_id);
                        }
                        if !contains_tile_key(&self.in_flight, key) {
                            waiting =
                            enqueue_unique_pending(
                                waiting,
                                PendingTileBuild {
                                    view_revision: self.view_revision,
                                    tile_key: key,
                                },
                            );
                        }
                    }
                },
            }
            i += 1;
        }
        PassOutcome {
            hits,
            misses,
            vertices,
            visible,
            active_shown,
            active_cached,
            pending: waiting,
            asked,
            incomplete,
        }
    }

    /// Ends a frame: opens the active layer by one more step, shows what may be shown, queues what
    /// is missing, drops what is too much and reports. The keys of the entries that were dropped
    /// are handed out.
    pub fn finish_frame(
        &mut self,
        context: &FrameContext,
        prepared: &PreparedTileFragments,
        tile_grid: &TileGridIndex,
    ) -> (dropped: Vec<TileCacheKey>)
        ensures
            final(self)@ == finished(
                old(self)@,
                context.stable_overlap@,
                context.dropped,
                context.rebuilt,
                context.plan,
                context.total_shapes,
                *prepared,
                *tile_grid,
            ),
            dropped@ == schedule::victims(
                old(self)@.cache,
                old(self)@.limits.tile_cache_capacity,
                display_pass(
                    opened(old(self)@, context.plan, *prepared, *tile_grid),
                    context.stable_overlap@,
                    context.plan.bypassed,
                    old(self)@.requested.len(),
                ).visible,
            ),
    {
        let ghost start = self@;
        let bypassed = context.plan.bypassed;
        let displayed = next_active_progressive_layer(self.active_progressive_layer, &self.pending);
        let work = estimate_active_layer_pending_stats_for_option(
            displayed,
            &self.pending,
            prepared,
            tile_grid,
        );
        let mode: Option<ActiveLayerProgressMode> = if displayed.is_none() {
            None
        } else if bypassed || should_bypass_progressive_for_layer(work, self.limits.layer_bypass) {
            Some(ActiveLayerProgressMode::Bypassed)
        } else {
            Some(ActiveLayerProgressMode::Progressive)
        };
        let mut display_layer = self.active_display_layer;
        let mut display_budget: usize = self.active_display_budget;
        advance_active_display_budget(
            &mut display_layer,
            &mut display_budget,
            displayed,
            bypassed,
            mode,
            context.plan.budget,
        );
        self.active_display_layer = display_layer;
        self.active_display_budget = display_budget;
        let ghost open = self@;
        assert(open =~= opened(start, context.plan, *prepared, *tile_grid));
        let revealed = if bypassed {
            requested_layers_in_order(&self.requested)
        } else {
            compute_revealed_layers_for_display(&self.requested, &self.pending, displayed)
        };
        let mut waiting: VecDeque<PendingTileBuild> = VecDeque::new();
        std::mem::swap(&mut waiting, &mut self.pending);
        assert(open =~= ScheduleModel { pending: waiting@, ..self@ });
        let outcome = self.run_display_pass(
            &context.stable_overlap,
            bypassed,
            displayed,
            &revealed,
            waiting,
            Ghost(open),
        );
        proof {
            lemma_display_pass(open, context.stable_overlap@, bypassed, open.requested.len());
            lemma_tiles_of(start, open, start.requested.len());
        }
        let (kept, dropped) = schedule::prune_tile_cache(
            &self.cache,
            self.limits.tile_cache_capacity,
            &outcome.visible,
        );
        self.cache = kept;
        self.pending = outcome.pending;
        self.total_cache_evictions = capped_sum(self.total_cache_evictions, dropped.len());
        let shown = stabilize_visible_tile_keys_during_transition(
            outcome.visible,
            &self.visible,
            self.pending.len(),
        );
        self.visible = shown;
        let held_back: usize = outcome.active_cached - outcome.active_shown;
        let tile_hits: usize = count_tiles_outside(&outcome.asked, &outcome.incomplete);
        self.debug_stats =
        RenderDebugStats::new(
            context.total_shapes,
            self.query.candidate_shapes,
            self.query.visible_shapes,
            self.query.bucket_hits,
            outcome.vertices,
            self.visible.len(),
            self.query.visible_tiles,
            tile_hits,
            outcome.incomplete.len(),
            outcome.hits,
            outcome.misses,
            self.cache.len(),
            self.limits.tile_cache_capacity,
            total_bytes(&self.cache),
            self.total_cache_evictions,
            prepared.prepared_shape_count(),
            prepared.prepared_tile_count(),
            prepared.prepared_fragment_count(),
            capped_sum(self.pending.len(), held_back),
            context.plan.budget,
            self.total_stale_drops,
            displayed,
            active_layer_pending_count(displayed, &self.pending),
            work.estimated_work_units,
            mode,
            bypassed,
            self.limits.layer_bypass.entry_threshold,
            self.limits.layer_bypass.work_threshold,
            self.pending.len() == 0 && outcome.misses == 0 && context.dropped == 0
                && !context.rebuilt && context.plan.budget == 0 && !self.arrived,
            self.display.hatch_params.spacing,
            self.display.hatch_params.width,
        );
        self.arrived = false;
        assert(self@ =~= finished(
            start,
            context.stable_overlap@,
            context.dropped,
            context.rebuilt,
            context.plan,
            context.total_shapes,
            *prepared,
            *tile_grid,
        ));
        dropped
    }
}

/// Which tiles are asked for and incomplete does not depend on how far a layer is open.
proof fn lemma_tiles_of(a: ScheduleModel, b: ScheduleModel, count: nat)
    requires
        a.requested == b.requested,
        a.cache == b.cache,
        a.empty == b.empty,
    ensures
        asked_tiles(a, count) == asked_tiles(b, count),
        incomplete_tiles(a, count) == incomplete_tiles(b, count),
    decreases count,
{
    if count > 0 {
        lemma_tiles_of(a, b, (count - 1) as nat);
    }
}

/// What becomes of the display batch.
#[derive(Debug, Clone, Copy, PartialEq, Eq, Structural)]
pub enum BatchReview {
    /// There is none, and none is wanted.
    Dropped,
    /// The one that is there still shows the visible set.
    Kept,
    /// A new one is wanted.
    Wanted,
}

/// How many buffers the visible entries have, of the first `count`.
pub open spec fn segments_shown(m: ScheduleModel, count: nat) -> nat
    decreases count,
{
    if count == 0 {
        0
    } else {
        segments_shown(m, (count - 1) as nat) + (if schedule::is_cached(
            m.cache,
            m.visible[count - 1],
        ) {
            m.cache[schedule::place_of(m.cache, m.visible[count - 1])].built.segment_count as nat
        } else {
            0nat
        })
    }
}

impl TileSchedule {
    /// Decides what becomes of the display batch; it is dropped where it is not wanted.
    pub fn review_display_batch(&mut self, enabled: bool) -> (review: BatchReview)
        ensures
            review == (if !enabled {
                BatchReview::Dropped
            } else if old(self)@.batch == Some(
                (batch::visible_keys_hash(old(self)@.visible), old(self)@.visible.len() as usize),
            ) {
                BatchReview::Kept
            } else {
                BatchReview::Wanted
            }),
            final(self)@ == (if enabled {
                old(self)@
            } else {
                ScheduleModel { batch: None, ..old(self)@ }
            }),
    {
        if !enabled {
            self.display_batch = None;
            return BatchReview::Dropped;
        }
        let hash: u64 = hash_visible_tile_keys(&self.visible);
        if batch_is_current(self.display_batch, hash, self.visible.len()) {
            BatchReview::Kept
        } else {
            BatchReview::Wanted
        }
    }

    /// Takes note that a batch of the visible set was made, or that none could be.
    pub fn install_display_batch(&mut self, made: bool)
        ensures
            final(self)@ == (ScheduleModel {
                batch: if made {
                    Some(
                        (
                            batch::visible_keys_hash(old(self)@.visible),
                            old(self)@.visible.len() as usize,
                        ),
                    )
                } else {
                    None
                },
                ..old(self)@
            }),
    {
        self.display_batch =
        if made {
            Some((hash_visible_tile_keys(&self.visible), self.visible.len()))
        } else {
            None
        };
    }

    /// How many buffers are drawn where there is no batch.
    pub fn visible_draw_segment_count_for_current_view(&self) -> (count: usize)
        ensures
            count == counters::capped(segments_shown(self@, self@.visible.len())),
    {
        let mut count: usize = 0;
        let mut i: usize = 0;
        while i < self.visible.len()
            invariant
                i <= self.visible@.len(),
                count == counters::capped(segments_shown(self@, i as nat)),
            decreases self.visible@.len() - i,
        {
            if let Some(at) = schedule::cache_position(&self.cache, self.visible[i]) {
                count = capped_sum(count, self.cache[at].built.segment_count);
            }
            i += 1;
        }
        count
    }

    /// Takes note of how much is drawn in the end: so many draws, and so many bytes of a display
    /// batch besides the cache.
    pub fn report_draws(&mut self, draw_calls: usize, batch_bytes: Option<usize>)
        ensures
            final(self)@ == (ScheduleModel {
                stats: RenderDebugStats {
                    draw_calls,
                    cache_bytes: match batch_bytes {
                        Some(bytes) => counters::capped(
                            counters::capped(
                                eviction::usage_bytes(
                                    schedule::usages(old(self)@.cache),
                                ) as nat,
                            ) as nat + bytes as nat,
                        ),
                        None => old(self)@.stats.cache_bytes,
                    },
                    ..old(self)@.stats
                },
                ..old(self)@
            }),
    {
        self.debug_stats.draw_calls = draw_calls;
        if let Some(bytes) = batch_bytes {
            self.debug_stats.cache_bytes = capped_sum(total_bytes(&self.cache), bytes);
        }
    }
}

} // verus!
