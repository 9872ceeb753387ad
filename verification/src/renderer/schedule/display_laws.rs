//! What holds of what a frame plans, shows and reports.

use crate::coords;
use crate::renderer;
use crate::renderer::eviction;
use crate::renderer::eviction::TileUsage;
use crate::renderer::fragments::PreparedTileFragments;
use crate::renderer::geometry::{ClosedShapeDrawMode, RenderCacheKey, TileId};
use crate::renderer::grid::TileGridIndex;
use crate::renderer::queue;
use crate::renderer::queue::{PendingTileBuild, TileCacheKey};
use crate::renderer::queue_laws;
use crate::renderer::requests;
use crate::renderer::schedule;
use crate::renderer::schedule::frame;
use crate::renderer::schedule::frame::{BuildPlan, RefreshKind};
use crate::renderer::schedule::refresh;
use crate::renderer::schedule::work_laws;
use crate::renderer::schedule::{
    CachedShapeQueryStats, CachedTile, DisplayModel, ScheduleModel, TileCacheDomainKey,
};
use crate::renderer::{ActiveLayerProgressMode, LayerAdaptiveBypassConfig, LayerPendingStats};
use crate::scene::LayerId;
use crate::seqs;
use vstd::prelude::*;

verus! {

/// A frame starts over for another view, has nothing to do where nothing waits or is under way, and
/// else goes on.
pub proof fn law_what_a_frame_has_to_do(m: ScheduleModel, key: RenderCacheKey)
    ensures
        frame::refresh_kind(m, key) == RefreshKind::Rebuild <==> m.scene_key != Some(key),
        frame::refresh_kind(m, key) == RefreshKind::Skip <==> m.scene_key == Some(key)
            && m.pending.len() + m.in_flight.len() == 0,
        frame::refresh_kind(m, key) == RefreshKind::Keep <==> m.scene_key == Some(key)
            && m.pending.len() + m.in_flight.len() > 0,
{
}

/// Whether two views differ in where they are and in nothing else.
pub open spec fn is_moved(a: RenderCacheKey, b: RenderCacheKey) -> bool {
    &&& a.pan_x_bits != b.pan_x_bits || a.pan_y_bits != b.pan_y_bits
    &&& a.scene_revision == b.scene_revision
    &&& a.zoom_bits == b.zoom_bits
    &&& a.canvas_origin_x_bits == b.canvas_origin_x_bits
    &&& a.canvas_origin_y_bits == b.canvas_origin_y_bits
    &&& a.canvas_width_bits == b.canvas_width_bits
    &&& a.canvas_height_bits == b.canvas_height_bits
    &&& a.viewport_width_bits == b.viewport_width_bits
    &&& a.viewport_height_bits == b.viewport_height_bits
    &&& a.hidden_layers_hash == b.hidden_layers_hash
}

/// A view that was only moved stays in its revision and keeps the layer that is being built and
/// shown; any other view starts a new revision, asks for the entries as they are listed, and shows
/// no layer yet. Both keep all that is there and under way.
pub proof fn law_moved_views_stay_in_their_revision(
    m: ScheduleModel,
    key: RenderCacheKey,
    next: Seq<TileCacheKey>,
    query: CachedShapeQueryStats,
    k: TileCacheKey,
)
    ensures
        ({
            let after = frame::with_requests(m, key, next, query);
            let moved = m.scene_key matches Some(previous) && is_moved(previous, key);
            &&& after == (ScheduleModel {
                requested: after.requested,
                pending: after.pending,
                stale_drops: after.stale_drops,
                view_revision: after.view_revision,
                building_layer: after.building_layer,
                display_layer: after.display_layer,
                display_budget: after.display_budget,
                scene_key: Some(key),
                query,
                ..m
            })
            &&& moved ==> after.view_revision == m.view_revision && after.building_layer
                == m.building_layer && after.display_layer == m.display_layer
                && after.display_budget == m.display_budget
            &&& !moved ==> after.requested == next && after.building_layer is None
                && after.display_layer is None && after.display_budget == 0
            &&& !moved && m.view_revision < u64::MAX ==> after.view_revision == m.view_revision + 1
            &&& !moved && m.view_revision == u64::MAX ==> after.view_revision == 0
            &&& frame::stable_overlap(m, key, next).contains(k) <==> moved && next.contains(k)
                && m.requested.contains(k)
            &&& after.stale_drops == work_laws::counted_on(
                m.stale_drops,
                frame::drops(m, key, next) as int,
            )
        }),
{
    seqs::lemma_filter_contains(next, |k: TileCacheKey| m.requested.contains(k), k);
}

/// A layer is light just where something of it waits, and neither the number of entries nor their
/// work exceeds its threshold.
pub proof fn law_light_layers(stats: LayerPendingStats, config: LayerAdaptiveBypassConfig)
    ensures
        stats.pending_entries == 0 ==> !renderer::layer_is_light(stats, config),
        stats.pending_entries > config.entry_threshold ==> !renderer::layer_is_light(stats, config),
        stats.estimated_work_units > config.work_threshold ==> !renderer::layer_is_light(
            stats,
            config,
        ),
        0 < stats.pending_entries <= config.entry_threshold && stats.estimated_work_units
            <= config.work_threshold ==> renderer::layer_is_light(stats, config),
{
}

/// A layer that advances step by step is opened by at least one entry more in each frame, from none
/// on where it is a new one; one that is completed at once is opened wholly.
pub proof fn law_layers_are_opened_step_by_step(
    budget: usize,
    same_layer: bool,
    bypassed: bool,
    step: usize,
)
    ensures
        ({
            let slowly = renderer::advanced_display_budget(
                budget,
                same_layer,
                bypassed,
                Some(ActiveLayerProgressMode::Progressive),
                step,
            );
            let from: int = if same_layer {
                budget as int
            } else {
                0
            };
            &&& slowly <= from + 1 || slowly <= from + step
            &&& slowly == usize::MAX || slowly >= from + 1
            &&& slowly == usize::MAX || slowly >= from + step
        }),
        renderer::advanced_display_budget(
            budget,
            same_layer,
            bypassed,
            Some(ActiveLayerProgressMode::Bypassed),
            step,
        ) == usize::MAX,
        renderer::advanced_display_budget(budget, same_layer, true, None, step) == usize::MAX,
        renderer::advanced_display_budget(budget, same_layer, false, None, step) == 0,
{
}

/// How much a frame builds: nothing where nothing waits, everything where few wait, all of a light
/// layer, and else what the budget allows. Only a frame that builds everything bypasses the order.
pub proof fn law_how_much_a_frame_builds(
    m: ScheduleModel,
    prepared: PreparedTileFragments,
    grid: TileGridIndex,
)
    requires
        m.pending.len() <= usize::MAX,
    ensures
        ({
            let plan = frame::build_plan(m, prepared, grid);
            let waiting = m.pending.len();
            let stats = requests::pending_stats_for(
                queue::active_layer_for(m.building_layer, m.pending),
                m.pending,
                prepared,
                grid,
            );
            let few = waiting <= m.limits.progressive_bypass_threshold;
            let light = 0 < stats.pending_entries <= m.limits.layer_bypass.entry_threshold
                && stats.estimated_work_units <= m.limits.layer_bypass.work_threshold;
            &&& plan.bypassed <==> 0 < waiting && few
            &&& few ==> plan.budget == waiting
            &&& !few && light ==> plan.budget == stats.pending_entries
            &&& !few && !light ==> plan.budget <= waiting && plan.budget
                <= m.limits.progressive_build_budget
            &&& !few && !light && plan.budget < waiting ==> plan.budget
                == m.limits.progressive_build_budget
        }),
{
}

/// A frame that completes everything opens all layers that are asked for. Any other opens layers
/// that are asked for and have nothing waiting, and the active one; where nothing waits these are
/// all.
pub proof fn law_which_layers_are_open(m: ScheduleModel, layer: LayerId, i: int)
    ensures
        ({
            let all = frame::revealed_layers(m, true);
            let some = frame::revealed_layers(m, false);
            let asked = queue::key_layers(m.requested);
            let active = queue::active_layer_for(m.building_layer, m.pending);
            &&& all.contains(layer) <==> asked.contains(layer)
            &&& some.contains(layer) ==> asked.contains(layer)
            &&& some.contains(layer) && active != Some(layer) && 0 <= i < m.pending.len()
                ==> m.pending[i].tile_key.layer != layer
            &&& m.pending.len() == 0 ==> (some.contains(layer) <==> asked.contains(layer))
            &&& asked.len() > 0 && active == Some(asked[0]) ==> some == seq![asked[0]]
        }),
{
    let asked = queue::key_layers(m.requested);
    let waiting = queue::pending_layers(m.pending);
    let active = queue::active_layer_for(m.building_layer, m.pending);
    let all = seqs::distinct(asked);
    let some = queue::revealed_prefix(all, waiting, active);
    seqs::lemma_append_new(Seq::<LayerId>::empty(), asked);
    queue_laws::law_layers_open_in_order(all, waiting, active);
    if some.contains(layer) {
        let k = choose|k: int| 0 <= k < some.len() && some[k] == layer;
        assert(all[k] == layer);
        assert(all.contains(layer));
        if active != Some(layer) && 0 <= i < m.pending.len() {
            assert(!waiting.contains(all[k]));
            assert(waiting[i] == m.pending[i].tile_key.layer);
        }
    }
    if m.pending.len() == 0 {
        assert(waiting.len() == 0);
        assert(some.len() == all.len()) by {
            if some.len() < all.len() {
                assert(waiting.contains(all[some.len() as int]));
            }
        }
        assert(some =~= all);
    }
    if asked.len() > 0 && active == Some(asked[0]) {
        lemma_first_distinct(asked);
        assert(all[0] == asked[0]);
    }
}

proof fn lemma_first_distinct(s: Seq<LayerId>)
    requires
        s.len() > 0,
    ensures
        seqs::distinct(s).len() > 0,
        seqs::distinct(s)[0] == s[0],
    decreases s.len(),
{
    let init = s.drop_last();
    if init.len() > 0 {
        lemma_first_distinct(init);
        assert(init[0] == s[0]);
    } else {
        assert(seqs::append_new(Seq::<LayerId>::empty(), init) =~= Seq::empty());
    }
}

/// The active layer is the one that is shown step by step; while it stays the same it is never
/// shown less, and nothing else of the schedule changes.
pub proof fn law_active_layers_are_opened(
    m: ScheduleModel,
    plan: BuildPlan,
    prepared: PreparedTileFragments,
    grid: TileGridIndex,
)
    ensures
        ({
            let after = frame::opened(m, plan, prepared, grid);
            let active = queue::active_layer_for(m.building_layer, m.pending);
            &&& after.display_layer == active
            &&& active is Some && m.display_layer == active ==> after.display_budget
                >= m.display_budget
            &&& active is Some ==> after.display_budget >= 1
            &&& active is Some && plan.bypassed ==> after.display_budget == usize::MAX
            &&& after == (ScheduleModel {
                display_layer: after.display_layer,
                display_budget: after.display_budget,
                ..m
            })
        }),
{
}

/// Which of the requested entries before a place are there and counted against the budget of the
/// active layer: those of the layer that were not in view before.
pub open spec fn counted_before(
    m: ScheduleModel,
    overlap: Seq<TileCacheKey>,
    bypassed: bool,
    place: nat,
) -> nat {
    m.requested.take(place as int).filter(is_counted(m, overlap, bypassed)).len()
}

/// Whether an entry is there and counted against the budget of the active layer.
pub open spec fn is_counted(
    m: ScheduleModel,
    overlap: Seq<TileCacheKey>,
    bypassed: bool,
) -> spec_fn(TileCacheKey) -> bool {
    |key: TileCacheKey|
        work_laws::is_there(m.cache, key) && !bypassed && !overlap.contains(key)
            && queue::active_layer_for(m.building_layer, m.pending) == Some(key.layer)
}

/// Whether the requested entry at a place is shown: it is there, and everything is shown, or it
/// was in view before, or it is one of the first of the active layer, as many as its budget
/// allows, or of another layer that is open.
pub open spec fn is_shown_at(
    m: ScheduleModel,
    overlap: Seq<TileCacheKey>,
    bypassed: bool,
    place: int,
) -> bool {
    let key = m.requested[place];
    &&& work_laws::is_there(m.cache, key)
    &&& {
        ||| bypassed
        ||| overlap.contains(key)
        ||| if queue::active_layer_for(m.building_layer, m.pending) == Some(key.layer) {
            m.display_budget == usize::MAX || counted_before(m, overlap, bypassed, place as nat)
                < m.display_budget
        } else {
            frame::revealed_layers(m, bypassed).contains(key.layer)
        }
    }
}

/// The places before a place.
pub open spec fn places(count: nat) -> Seq<int> {
    Seq::new(count, |i: int| i)
}

/// The vertices of these entries together.
pub open spec fn vertices_of(cache: Seq<CachedTile>, keys: Seq<TileCacheKey>) -> nat
    decreases keys.len(),
{
    if keys.len() == 0 {
        0
    } else {
        cache[schedule::place_of(cache, keys.last())].built.vertex_count as nat + vertices_of(
            cache,
            keys.drop_last(),
        )
    }
}

/// A frame shows, in the order of the requests, the entries that are to be shown, and counts their
/// vertices. Of the active layer it shows no more than the budget allows.
pub proof fn law_what_a_frame_shows(
    m: ScheduleModel,
    overlap: Seq<TileCacheKey>,
    bypassed: bool,
    count: nat,
)
    requires
        count <= m.requested.len(),
    ensures
        ({
            let pass = frame::display_pass(m, overlap, bypassed, count);
            let counted = counted_before(m, overlap, bypassed, count);
            &&& seqs::made_in_order(
                places(count),
                pass.visible,
                |i: int| is_shown_at(m, overlap, bypassed, i),
                |i: int, key: TileCacheKey| key == m.requested[i],
            )
            &&& pass.vertices == vertices_of(m.cache, pass.visible)
            &&& pass.active_cached == counted
            &&& pass.active_shown == (if m.display_budget == usize::MAX || counted
                <= m.display_budget {
                counted
            } else {
                m.display_budget as nat
            })
        }),
    decreases count,
{
    let shown = |i: int| is_shown_at(m, overlap, bypassed, i);
    let same = |i: int, key: TileCacheKey| key == m.requested[i];
    if count == 0 {
        seqs::lemma_made_of_nothing(shown, same);
        assert(places(0) =~= Seq::empty());
        assert(m.requested.take(0) =~= Seq::empty());
        reveal(Seq::filter);
    } else {
        let last = (count - 1) as nat;
        law_what_a_frame_shows(m, overlap, bypassed, last);
        let p = frame::display_pass(m, overlap, bypassed, last);
        let pass = frame::display_pass(m, overlap, bypassed, count);
        let key = m.requested[last as int];
        seqs::lemma_filter_take(m.requested, last as int, is_counted(m, overlap, bypassed));
        let more = if is_shown_at(m, overlap, bypassed, last as int) {
            seq![key]
        } else {
            Seq::empty()
        };
        seqs::lemma_made_in_order(places(last), p.visible, last as int, more, shown, same);
        assert(places(last).push(last as int) =~= places(count));
        assert(pass.visible =~= p.visible + more);
        if more.len() > 0 {
            assert(pass.visible.drop_last() =~= p.visible);
        }
    }
}

/// Of the requested entries those that are there or known to be empty are hits and all others
/// misses; each miss that is not under way waits behind what waited before, once.
pub proof fn law_what_is_missing_waits(
    m: ScheduleModel,
    overlap: Seq<TileCacheKey>,
    bypassed: bool,
    count: nat,
)
    requires
        count <= m.requested.len(),
    ensures
        ({
            let pass = frame::display_pass(m, overlap, bypassed, count);
            let lacks = |key: TileCacheKey|
                !work_laws::is_there(m.cache, key) && !m.empty.contains(key);
            &&& pass.hits + pass.misses == count
            &&& pass.misses == m.requested.take(count as int).filter(lacks).len()
            &&& m.pending.is_prefix_of(pass.pending)
            &&& forall|k: int|
                m.pending.len() <= k < pass.pending.len() ==> is_new_wait(
                    m,
                    count,
                    #[trigger] pass.pending[k],
                )
            &&& forall|j: int, k: int|
                m.pending.len() <= j < k < pass.pending.len() ==> (#[trigger] pass.pending[j])
                    != (#[trigger] pass.pending[k])
            &&& forall|i: int|
                0 <= i < count && lacks(#[trigger] m.requested[i]) && !m.in_flight.contains(
                    m.requested[i],
                ) ==> queue::pending_keys(pass.pending).contains(m.requested[i])
        }),
    decreases count,
{
    let lacks = |key: TileCacheKey| !work_laws::is_there(m.cache, key) && !m.empty.contains(key);
    reveal(Seq::filter);
    if count == 0 {
        assert(m.requested.take(0) =~= Seq::empty());
    } else {
        let last = (count - 1) as nat;
        law_what_is_missing_waits(m, overlap, bypassed, last);
        let p = frame::display_pass(m, overlap, bypassed, last);
        let pass = frame::display_pass(m, overlap, bypassed, count);
        let key = m.requested[last as int];
        seqs::lemma_filter_take(m.requested, last as int, lacks);
        let item = PendingTileBuild { view_revision: m.view_revision, tile_key: key };
        assert forall|k: int| m.pending.len() <= k < pass.pending.len() implies is_new_wait(
            m,
            count,
            #[trigger] pass.pending[k],
        ) by {
            if k < p.pending.len() {
                assert(pass.pending[k] == p.pending[k]);
                assert(is_new_wait(m, last, p.pending[k]));
            } else {
                assert(pass.pending[k] == item);
                assert(!queue::pending_keys(p.pending).contains(key));
                if queue::pending_keys(m.pending).contains(key) {
                    let j = choose|j: int|
                        0 <= j < m.pending.len() && queue::pending_keys(m.pending)[j] == key;
                    assert(p.pending[j] == m.pending[j]);
                    assert(queue::pending_keys(p.pending)[j] == key);
                }
            }
        }
        assert forall|j: int, k: int| m.pending.len() <= j < k < pass.pending.len() implies (
        #[trigger] pass.pending[j]) != (#[trigger] pass.pending[k]) by {
            assert(pass.pending[j] == p.pending[j]);
            if k < p.pending.len() {
                assert(p.pending[j] != p.pending[k]);
            } else {
                assert(queue::pending_keys(p.pending)[j] == p.pending[j].tile_key);
                assert(!queue::pending_keys(p.pending).contains(key));
            }
        }
        assert forall|i: int|
            0 <= i < count && lacks(#[trigger] m.requested[i]) && !m.in_flight.contains(
                m.requested[i],
            ) implies queue::pending_keys(pass.pending).contains(m.requested[i]) by {
            if queue::pending_keys(p.pending).contains(m.requested[i]) {
                let k = choose|k: int|
                    0 <= k < p.pending.len() && queue::pending_keys(p.pending)[k] == m.requested[i];
                assert(pass.pending[k] == p.pending[k]);
                assert(queue::pending_keys(pass.pending)[k] == m.requested[i]);
            } else {
                assert(i == last);
                assert(pass.pending[p.pending.len() as int] == item);
                assert(queue::pending_keys(pass.pending)[p.pending.len() as int] == key);
            }
        }
    }
}

/// Whether the build is a new one: in the current view, for one of the requested entries, which is
/// neither there, nor known to be empty, nor under way, and did not wait yet.
pub open spec fn is_new_wait(m: ScheduleModel, count: nat, item: PendingTileBuild) -> bool {
    &&& item.view_revision == m.view_revision
    &&& exists|i: int| 0 <= i < count && #[trigger] m.requested[i] == item.tile_key
    &&& !work_laws::is_there(m.cache, item.tile_key)
    &&& !m.empty.contains(item.tile_key)
    &&& !m.in_flight.contains(item.tile_key)
    &&& !queue::pending_keys(m.pending).contains(item.tile_key)
}

/// The tiles that a frame asks for are those of its requests, each once; those that are incomplete
/// are the tiles of the missing ones.
pub proof fn law_tiles_of_a_frame(m: ScheduleModel, count: nat, tile: TileId)
    requires
        count <= m.requested.len(),
    ensures
        frame::asked_tiles(m, count).no_duplicates(),
        frame::incomplete_tiles(m, count).no_duplicates(),
        frame::asked_tiles(m, count).contains(tile) <==> exists|i: int|
            0 <= i < count && (#[trigger] m.requested[i]).tile_id == tile,
        frame::incomplete_tiles(m, count).contains(tile) <==> exists|i: int|
            0 <= i < count && (#[trigger] m.requested[i]).tile_id == tile && !work_laws::is_there(
                m.cache,
                m.requested[i],
            ) && !m.empty.contains(m.requested[i]),
    decreases count,
{
    if count > 0 {
        let last = (count - 1) as nat;
        let key = m.requested[last as int];
        law_tiles_of_a_frame(m, last, tile);
        let asked = frame::asked_tiles(m, last);
        let missing = frame::incomplete_tiles(m, last);
        seqs::lemma_push_contains(asked, key.tile_id, tile);
        seqs::lemma_push_contains(missing, key.tile_id, tile);
        lemma_push_distinct(asked, key.tile_id);
        lemma_push_distinct(missing, key.tile_id);
        assert(frame::is_missing(m, key) <==> !work_laws::is_there(m.cache, key)
            && !m.empty.contains(key));
        if tile == key.tile_id {
            assert(m.requested[last as int].tile_id == tile);
        }
    }
}

proof fn lemma_push_distinct<A>(s: Seq<A>, x: A)
    requires
        s.no_duplicates(),
    ensures
        !s.contains(x) ==> s.push(x).no_duplicates(),
{
    if !s.contains(x) {
        let t = s.push(x);
        assert forall|i: int, j: int| 0 <= i < j < t.len() implies t[i] != t[j] by {
            if j == s.len() {
                assert(s.contains(s[i]));
            }
        }
    }
}

/// Tiles outside others are counted one by one.
pub proof fn law_tiles_outside_are_counted(tiles: Seq<TileId>, others: Seq<TileId>, count: nat)
    requires
        count <= tiles.len(),
    ensures
        frame::count_outside(tiles, others, count) == tiles.take(count as int).filter(
            |tile: TileId| !others.contains(tile),
        ).len(),
    decreases count,
{
    let p = |tile: TileId| !others.contains(tile);
    if count == 0 {
        assert(tiles.take(0) =~= Seq::empty());
        reveal(Seq::filter);
    } else {
        law_tiles_outside_are_counted(tiles, others, (count - 1) as nat);
        seqs::lemma_filter_take(tiles, count - 1, p);
    }
}

/// At the end of a frame only entries that are not in view are dropped to make room, and they are
/// counted. What is in view is what the frame shows; while something waits, also what was in view
/// before. The report counts what is there, what is shown and what waits.
pub proof fn law_what_a_frame_reports(
    m: ScheduleModel,
    overlap: Seq<TileCacheKey>,
    dropped: usize,
    rebuilt: bool,
    plan: BuildPlan,
    total_shapes: usize,
    prepared: PreparedTileFragments,
    grid: TileGridIndex,
    key: TileCacheKey,
)
    requires
        m.requested.len() <= usize::MAX,
        m.cache.len() <= usize::MAX,
        m.visible.len() + m.requested.len() <= usize::MAX,
    ensures
        ({
            let after = frame::finished(
                m,
                overlap,
                dropped,
                rebuilt,
                plan,
                total_shapes,
                prepared,
                grid,
            );
            let stats = after.stats;
            let open = frame::opened(m, plan, prepared, grid);
            let pass = frame::display_pass(open, overlap, plan.bypassed, m.requested.len());
            let gone = schedule::victims(m.cache, m.limits.tile_cache_capacity, pass.visible);
            let settled = after.pending.len() == 0;
            &&& after == (ScheduleModel {
                cache: after.cache,
                pending: after.pending,
                evictions: after.evictions,
                visible: after.visible,
                display_layer: after.display_layer,
                display_budget: after.display_budget,
                arrived: false,
                stats,
                ..m
            })
            &&& after.pending == pass.pending
            &&& settled ==> after.visible == pass.visible
            &&& !settled ==> (after.visible.contains(key) <==> pass.visible.contains(key)
                || m.visible.contains(key))
            &&& after.evictions == work_laws::counted_on(m.evictions, gone.len() as int)
            &&& stats.cache_evictions == after.evictions
            &&& stats.layer_cache_hits + stats.layer_cache_misses == m.requested.len()
            &&& stats.tile_cache_misses == frame::incomplete_tiles(m, m.requested.len()).len()
            &&& stats.tile_cache_hits == frame::asked_tiles(m, m.requested.len()).filter(
                |tile: TileId|
                    !frame::incomplete_tiles(m, m.requested.len()).contains(tile),
            ).len()
            &&& stats.draw_calls == after.visible.len()
            &&& stats.cache_entries == after.cache.len()
            &&& stats.cache_capacity == m.limits.tile_cache_capacity
            &&& stats.cache_bytes == work_laws::counted_on(
                0,
                eviction::usage_bytes(schedule::usages(after.cache)) as int,
            )
            &&& stats.vertex_count == work_laws::counted_on(
                0,
                vertices_of(m.cache, pass.visible) as int,
            )
            &&& stats.pending_entries == work_laws::counted_on(
                0,
                pass.pending.len() + pass.active_cached - pass.active_shown,
            )
            &&& stats.total_shapes == total_shapes
            &&& stats.candidate_shapes == m.query.candidate_shapes
            &&& stats.visible_shapes == m.query.visible_shapes
            &&& stats.bucket_hits == m.query.bucket_hits
            &&& stats.visible_tiles == m.query.visible_tiles
            &&& stats.dropped_stale_entries == m.stale_drops
            &&& stats.build_budget == plan.budget
            &&& stats.progressive_bypassed == plan.bypassed
            &&& stats.active_layer == queue::active_layer_for(m.building_layer, m.pending)
            &&& stats.layer_bypass_entry_threshold == m.limits.layer_bypass.entry_threshold
            &&& stats.layer_bypass_work_threshold == m.limits.layer_bypass.work_threshold
            &&& stats.prepared_fragments == prepared.piece_count()
            &&& stats.hatch_spacing == m.display.hatch_params.spacing
            &&& stats.hatch_width == m.display.hatch_params.width
            &&& stats.cache_hit <==> settled && stats.layer_cache_misses == 0 && dropped == 0
                && !rebuilt && plan.budget == 0 && !m.arrived
        }),
{
    let open = frame::opened(m, plan, prepared, grid);
    law_what_a_frame_shows(open, overlap, plan.bypassed, m.requested.len());
    law_what_is_missing_waits(open, overlap, plan.bypassed, m.requested.len());
    let pass = frame::display_pass(open, overlap, plan.bypassed, m.requested.len());
    seqs::lemma_append_new(pass.visible, m.visible);
    seqs::lemma_no_more_is_made(
        places(m.requested.len()),
        pass.visible,
        |i: int| is_shown_at(open, overlap, plan.bypassed, i),
        |i: int, key: TileCacheKey| key == open.requested[i],
    );
    let asked = frame::asked_tiles(m, m.requested.len());
    let incomplete = frame::incomplete_tiles(m, m.requested.len());
    lemma_no_more_tiles(m, m.requested.len());
    law_tiles_outside_are_counted(asked, incomplete, asked.len());
    assert(asked.take(asked.len() as int) =~= asked);
    lemma_fewer(asked, |tile: TileId| !incomplete.contains(tile));
    let gone = schedule::victims(m.cache, m.limits.tile_cache_capacity, pass.visible);
    lemma_fewer(m.cache, |tile: CachedTile| !gone.contains(tile.key));
    lemma_no_less_than_none(schedule::usages(schedule::outside(m.cache, gone)));
}

/// The bytes of entries are never less than none.
pub proof fn lemma_no_less_than_none(usage: Seq<TileUsage>)
    ensures
        eviction::usage_bytes(usage) >= 0,
    decreases usage.len(),
{
    if usage.len() > 0 {
        lemma_no_less_than_none(usage.drop_last());
    }
}

proof fn lemma_no_more_tiles(m: ScheduleModel, count: nat)
    ensures
        frame::asked_tiles(m, count).len() <= count,
        frame::incomplete_tiles(m, count).len() <= count,
    decreases count,
{
    if count > 0 {
        lemma_no_more_tiles(m, (count - 1) as nat);
    }
}

proof fn lemma_fewer<A>(s: Seq<A>, p: spec_fn(A) -> bool)
    ensures
        s.filter(p).len() <= s.len(),
    decreases s.len(),
{
    reveal(Seq::filter);
    if s.len() > 0 {
        lemma_fewer(s.drop_last(), p);
    }
}

/// A layout that is not flattened is drawn in outlines alone as long as the zoom does not exceed
/// the limit; all else is drawn as it is set.
pub proof fn law_far_layouts_are_drawn_in_outlines(
    display: DisplayModel,
    zoom: i32,
)
    ensures
        refresh::frame_mode(display, false, zoom) == display.draw_mode,
        coords::exceeds(zoom, renderer::DIRECT_HIERARCHY_OUTLINE_ONLY_MAX_ZOOM)
            ==> refresh::frame_mode(display, true, zoom) == display.draw_mode,
        coords::at_most(zoom, renderer::DIRECT_HIERARCHY_OUTLINE_ONLY_MAX_ZOOM)
            ==> refresh::frame_mode(display, true, zoom) == ClosedShapeDrawMode::Outline,
{
}

/// Entries of another domain are given up with all that is known of them; in the same domain
/// everything stays.
pub proof fn law_domains_share_nothing(m: ScheduleModel, domain: TileCacheDomainKey)
    ensures
        ({
            let after = refresh::entered(m, domain);
            &&& after.domain == Some(domain)
            &&& m.domain == Some(domain) ==> after == m
            &&& m.domain != Some(domain) ==> after.cache.len() == 0 && after.empty.len() == 0
                && after.in_flight.len() == 0
            &&& after == (ScheduleModel {
                cache: after.cache,
                empty: after.empty,
                in_flight: after.in_flight,
                domain: after.domain,
                ..m
            })
        }),
{
}

/// A change of what is drawn leaves no view, no request and nothing waiting, in a new revision;
/// what was built stays unless it is of no use any more.
pub proof fn law_changes_start_over(m: ScheduleModel, clear_cache: bool)
    ensures
        ({
            let after = schedule::invalidated(m, clear_cache);
            &&& after.scene_key is None && after.batch is None && after.building_layer is None
            &&& after.requested.len() == 0 && after.visible.len() == 0 && after.pending.len() == 0
            &&& m.view_revision < u64::MAX ==> after.view_revision == m.view_revision + 1
            &&& after.view_revision != m.view_revision
            &&& clear_cache ==> after.cache.len() == 0 && after.empty.len() == 0
                && after.in_flight.len() == 0 && after.domain is None
            &&& !clear_cache ==> after.cache == m.cache && after.empty == m.empty
                && after.in_flight == m.in_flight && after.domain == m.domain
            &&& after.display == m.display && after.limits == m.limits && after.tick == m.tick
            &&& after.scene_revision == m.scene_revision && after.evictions == m.evictions
            &&& after.stale_drops == m.stale_drops
        }),
{
}

/// A frame with nothing to do changes nothing that is shown, and is a hit unless something has
/// come in since the last one.
pub proof fn law_idle_frames(m: ScheduleModel)
    ensures
        ({
            let after = frame::skipped(m);
            &&& after.stats.cache_hit <==> !m.arrived
            &&& !after.arrived
            &&& after.visible == m.visible && after.cache == m.cache && after.requested
                == m.requested && after.pending == m.pending && after.batch == m.batch
        }),
{
}

/// The buffers of the entries in view are counted entry by entry; one that is not there has none.
pub proof fn law_buffers_in_view_are_counted(m: ScheduleModel, count: nat)
    requires
        count < m.visible.len(),
    ensures
        ({
            let key = m.visible[count as int];
            let more = frame::segments_shown(m, count + 1) - frame::segments_shown(m, count);
            &&& !work_laws::is_there(m.cache, key) ==> more == 0
            &&& work_laws::is_there(m.cache, key) ==> exists|i: int|
                0 <= i < m.cache.len() && (#[trigger] m.cache[i]).key == key
                    && m.cache[i].built.segment_count == more && forall|j: int|
                    0 <= j < i ==> (#[trigger] m.cache[j]).key != key
        }),
        frame::segments_shown(m, 0) == 0,
{
    let key = m.visible[count as int];
    if work_laws::is_there(m.cache, key) {
        work_laws::lemma_place(m.cache, key);
        let i = schedule::place_of(m.cache, key);
        assert(m.cache[i].key == key);
    }
}

/// Numbers are held between two others: what lies between them stays, and nothing goes farther than
/// to the nearer one.
pub proof fn law_held_numbers(n: usize, low: usize, high: usize)
    requires
        low <= high,
    ensures
        low <= schedule::clamped(n, low, high) <= high,
        low <= n <= high ==> schedule::clamped(n, low, high) == n,
        n < low ==> schedule::clamped(n, low, high) == low,
        n > high ==> schedule::clamped(n, low, high) == high,
{
}

} // verus!
