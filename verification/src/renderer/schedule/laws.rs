//! What holds of every course of frames.

use crate::renderer::eviction;
use crate::renderer::fragments::PreparedTileFragments;
use crate::renderer::geometry::RenderCacheKey;
use crate::renderer::grid::TileGridIndex;
use crate::renderer::queue;
use crate::renderer::queue::{PendingTileBuild, TileCacheKey};
use crate::renderer::schedule;
use crate::renderer::schedule::frame;
use crate::renderer::schedule::frame::{BuildPlan, RefreshKind};
use crate::renderer::schedule::{BuiltTile, CachedShapeQueryStats, CachedTile, ScheduleModel};
use crate::scene::LayerId;
use crate::seqs;
use vstd::prelude::*;

verus! {

/// Every round of builds shortens the queue by as many builds as its budget allows; a budget as
/// large as the queue empties it.
pub proof fn law_builds_make_progress(
    m: ScheduleModel,
    budget: nat,
    made: spec_fn(TileCacheKey) -> Option<BuiltTile>,
)
    ensures
        frame::after_builds(m, budget, made).pending.len() + budget <= m.pending.len()
            || frame::after_builds(m, budget, made).pending.len() == 0,
    decreases m.pending.len(),
{
    if budget > 0 {
        match queue::active_layer_for(m.building_layer, m.pending) {
            None => {},
            Some(layer) => {
                let at = queue::first_of_layer(m.pending, layer);
                lemma_active_layer_waits(m, layer);
                let item = m.pending[at];
                let rest = frame::taken_from(m, layer);
                if item.view_revision != m.view_revision {
                    law_builds_make_progress(frame::one_dropped(rest), budget, made);
                } else if schedule::is_cached(m.cache, item.tile_key) {
                    law_builds_make_progress(rest, budget, made);
                } else {
                    law_builds_make_progress(
                        frame::released(
                            frame::stored(rest, item.tile_key, made(item.tile_key)),
                            layer,
                        ),
                        (budget - 1) as nat,
                        made,
                    );
                }
            },
        }
    }
}

proof fn lemma_active_layer_waits(m: ScheduleModel, layer: crate::scene::LayerId)
    requires
        queue::active_layer_for(m.building_layer, m.pending) == Some(layer),
    ensures
        0 <= queue::first_of_layer(m.pending, layer) < m.pending.len(),
{
    let layers = queue::pending_layers(m.pending);
    if m.pending.len() > 0 {
        assert(layers[0] == m.pending[0].tile_key.layer);
    }
    assert(layers.contains(layer));
    let k = choose|k: int| 0 <= k < layers.len() && layers[k] == layer;
    lemma_first_of_layer_bound(m.pending, layer, k);
}

proof fn lemma_first_of_layer_bound(
    pending: Seq<PendingTileBuild>,
    layer: LayerId,
    k: int,
)
    requires
        0 <= k < pending.len(),
        pending[k].tile_key.layer == layer,
    ensures
        0 <= queue::first_of_layer(pending, layer) <= k,
    decreases pending.len(),
{
    if pending[0].tile_key.layer != layer {
        lemma_first_of_layer_bound(pending.skip(1), layer, k - 1);
    }
}

/// Building never drops an entry that is in the cache.
pub proof fn law_builds_keep_the_cache(
    m: ScheduleModel,
    budget: nat,
    made: spec_fn(TileCacheKey) -> Option<BuiltTile>,
    key: TileCacheKey,
)
    requires
        schedule::is_cached(m.cache, key),
    ensures
        schedule::is_cached(frame::after_builds(m, budget, made).cache, key),
    decreases m.pending.len(),
{
    if budget > 0 {
        match queue::active_layer_for(m.building_layer, m.pending) {
            None => {},
            Some(layer) => {
                let at = queue::first_of_layer(m.pending, layer);
                if 0 <= at < m.pending.len() {
                    let item = m.pending[at];
                    let rest = frame::taken_from(m, layer);
                    if item.view_revision != m.view_revision {
                        law_builds_keep_the_cache(frame::one_dropped(rest), budget, made, key);
                    } else if schedule::is_cached(m.cache, item.tile_key) {
                        law_builds_keep_the_cache(rest, budget, made, key);
                    } else {
                        let next = frame::stored(rest, item.tile_key, made(item.tile_key));
                        let k = choose|k: int|
                            0 <= k < m.cache.len() && (#[trigger] m.cache[k]).key == key;
                        assert(next.cache[k].key == key);
                        law_builds_keep_the_cache(
                            frame::released(next, layer),
                            (budget - 1) as nat,
                            made,
                            key,
                        );
                    }
                }
            },
        }
    }
}

/// A result for an older view changes neither the cache nor what is known to be empty.
pub proof fn law_stale_results_are_given_up(
    m: ScheduleModel,
    view_revision: u64,
    key: TileCacheKey,
    built: Option<BuiltTile>,
)
    requires
        view_revision != m.view_revision,
    ensures
        frame::received(m, view_revision, key, built).cache == m.cache,
        frame::received(m, view_revision, key, built).empty == m.empty,
        frame::received(m, view_revision, key, built).batch == m.batch,
{
}

/// At the end of a frame every requested entry is there, known to be empty, waiting, or under way.
pub proof fn law_no_request_is_forgotten(
    m: ScheduleModel,
    overlap: Seq<TileCacheKey>,
    bypassed: bool,
    count: nat,
    i: int,
)
    requires
        count <= m.requested.len(),
        0 <= i < count,
    ensures
        !frame::is_missing(m, m.requested[i]) || m.in_flight.contains(m.requested[i])
            || queue::pending_keys(
            frame::display_pass(m, overlap, bypassed, count).pending,
        ).contains(m.requested[i]),
    decreases count,
{
    let before = frame::display_pass(m, overlap, bypassed, (count - 1) as nat).pending;
    let after = frame::display_pass(m, overlap, bypassed, count).pending;
    let last = m.requested[count - 1];
    let key = m.requested[i];
    if i < count - 1 {
        law_no_request_is_forgotten(m, overlap, bypassed, (count - 1) as nat, i);
    }
    if after != before {
        let item = PendingTileBuild { view_revision: m.view_revision, tile_key: last };
        assert(after == before.push(item));
        if queue::pending_keys(before).contains(key) {
            let k = choose|k: int|
                0 <= k < queue::pending_keys(before).len() && queue::pending_keys(before)[k] == key;
            assert(queue::pending_keys(after)[k] == key);
        }
        if key == last {
            assert(queue::pending_keys(after)[before.len() as int] == key);
        }
    }
}

/// What a frame shows was asked for and is in the cache.
pub proof fn law_shown_entries_are_cached(
    m: ScheduleModel,
    overlap: Seq<TileCacheKey>,
    bypassed: bool,
    count: nat,
    key: TileCacheKey,
)
    requires
        count <= m.requested.len(),
        frame::display_pass(m, overlap, bypassed, count).visible.contains(key),
    ensures
        schedule::is_cached(m.cache, key),
        m.requested.contains(key),
    decreases count,
{
    if count > 0 {
        let before = frame::display_pass(m, overlap, bypassed, (count - 1) as nat).visible;
        let last = m.requested[count - 1];
        seqs::lemma_push_contains(before, last, key);
        if before.contains(key) {
            law_shown_entries_are_cached(m, overlap, bypassed, (count - 1) as nat, key);
        } else {
            assert(m.requested[count - 1] == key);
        }
    }
}

proof fn lemma_all_revealed(layers: Seq<LayerId>)
    ensures
        queue::revealed_prefix(layers, Seq::empty(), None) == layers,
    decreases layers.len(),
{
    if layers.len() > 0 {
        lemma_all_revealed(layers.skip(1));
        assert(seq![layers[0]] + layers.skip(1) =~= layers);
    }
}

/// Once nothing waits, every requested entry that is there is shown.
pub proof fn law_nothing_is_held_back(
    m: ScheduleModel,
    overlap: Seq<TileCacheKey>,
    bypassed: bool,
    count: nat,
    i: int,
)
    requires
        m.pending.len() == 0,
        count <= m.requested.len(),
        0 <= i < count,
        schedule::is_cached(m.cache, m.requested[i]),
    ensures
        frame::display_pass(m, overlap, bypassed, count).visible.contains(m.requested[i]),
    decreases count,
{
    let before = frame::display_pass(m, overlap, bypassed, (count - 1) as nat).visible;
    let last = m.requested[count - 1];
    if i < count - 1 {
        law_nothing_is_held_back(m, overlap, bypassed, (count - 1) as nat, i);
        seqs::lemma_push_contains(before, last, m.requested[i]);
    } else {
        let layers = queue::key_layers(m.requested);
        assert(queue::pending_layers(m.pending) =~= Seq::<LayerId>::empty());
        lemma_all_revealed(seqs::distinct(layers));
        seqs::lemma_append_new(Seq::<LayerId>::empty(), layers);
        assert(layers[i] == last.layer);
        assert(layers.contains(last.layer));
        seqs::lemma_push_contains(before, last, last);
    }
}

/// Making room never drops an entry that the frame shows.
pub proof fn law_shown_entries_are_kept(
    m: ScheduleModel,
    overlap: Seq<TileCacheKey>,
    dropped: usize,
    rebuilt: bool,
    plan: BuildPlan,
    total_shapes: usize,
    prepared: PreparedTileFragments,
    grid: TileGridIndex,
    key: TileCacheKey,
)
    requires
        frame::display_pass(
            frame::opened(m, plan, prepared, grid),
            overlap,
            plan.bypassed,
            m.requested.len(),
        ).visible.contains(key),
    ensures
        schedule::is_cached(
            frame::finished(
                m,
                overlap,
                dropped,
                rebuilt,
                plan,
                total_shapes,
                prepared,
                grid,
            ).cache,
            key,
        ),
{
    let open = frame::opened(m, plan, prepared, grid);
    let shown = frame::display_pass(open, overlap, plan.bypassed, m.requested.len()).visible;
    let capacity = m.limits.tile_cache_capacity;
    let gone = schedule::victims(m.cache, capacity, shown);
    law_shown_entries_are_cached(open, overlap, plan.bypassed, m.requested.len(), key);
    eviction::law_eviction_spares_protected(
        schedule::usages(m.cache),
        capacity,
        schedule::byte_budget(capacity),
        shown,
        key,
    );
    let k = choose|k: int| 0 <= k < m.cache.len() && (#[trigger] m.cache[k]).key == key;
    let tile = m.cache[k];
    let staying = |tile: CachedTile| !gone.contains(tile.key);
    assert(m.cache.contains(tile));
    seqs::lemma_filter_contains(m.cache, staying, tile);
    let rest = schedule::outside(m.cache, gone);
    assert(rest == m.cache.filter(staying));
    let j = choose|j: int| 0 <= j < rest.len() && rest[j] == tile;
    assert(rest[j].key == key);
}

/// A frame that leaves nothing to do is followed by frames that do nothing, for as long as the
/// view stays the same.
pub proof fn law_settled_view_is_skipped(m: ScheduleModel, key: RenderCacheKey)
    requires
        m.scene_key == Some(key),
        m.pending.len() == 0,
        m.in_flight.len() == 0,
    ensures
        frame::refresh_kind(m, key) == RefreshKind::Skip,
{
}

/// After a pan exactly the keys of the new view are asked for, each once.
pub proof fn law_pan_asks_for_the_view(
    previous: Seq<TileCacheKey>,
    next: Seq<TileCacheKey>,
    key: TileCacheKey,
)
    ensures
        queue::panned_requests(previous, next).contains(key) <==> next.contains(key),
        queue::panned_requests(previous, next).no_duplicates(),
{
    let shared = |k: TileCacheKey| next.contains(k);
    let kept = previous.filter(shared);
    let all = kept + next;
    assert(queue::panned_requests(previous, next) == seqs::distinct(all));
    seqs::lemma_append_new(Seq::<TileCacheKey>::empty(), all);
    seqs::lemma_filter_contains(previous, shared, key);
    if all.contains(key) {
        let k = choose|k: int| 0 <= k < all.len() && all[k] == key;
        if k < kept.len() {
            assert(kept[k] == key);
            assert(kept.contains(key));
        } else {
            assert(next[k - kept.len()] == key);
        }
    }
    if next.contains(key) {
        let k = choose|k: int| 0 <= k < next.len() && next[k] == key;
        assert(all[kept.len() + k] == key);
    }
}

/// A new view, or a pan, leaves in the queue only entries that are asked for and not cached, all
/// of the current revision.
pub proof fn law_queue_belongs_to_the_view(
    m: ScheduleModel,
    key: RenderCacheKey,
    next: Seq<TileCacheKey>,
    query: CachedShapeQueryStats,
    i: int,
)
    requires
        0 <= i < frame::with_requests(m, key, next, query).pending.len(),
    ensures
        ({
            let after = frame::with_requests(m, key, next, query);
            let item = after.pending[i];
            &&& item.view_revision == after.view_revision
            &&& after.requested.contains(item.tile_key)
            &&& !schedule::is_cached(after.cache, item.tile_key)
        }),
{
    let after = frame::with_requests(m, key, next, query);
    let item = after.pending[i];
    let cached = schedule::cached_keys(m.cache);
    let missing = |k: TileCacheKey| !cached.contains(k);
    if frame::is_pan(m, key) {
        let kept = |k: TileCacheKey| after.requested.contains(k) && !cached.contains(k);
        let old_keys = queue::pending_keys(m.pending).filter(kept);
        let new_keys = after.requested.filter(missing);
        let keys = seqs::distinct(old_keys + new_keys);
        seqs::lemma_append_new(Seq::<TileCacheKey>::empty(), old_keys + new_keys);
        assert(after.pending == queue::builds_for(m.view_revision, keys));
        assert(keys[i] == item.tile_key);
        assert(keys.contains(item.tile_key));
        assert((old_keys + new_keys).contains(item.tile_key));
        seqs::lemma_filter_contains(queue::pending_keys(m.pending), kept, item.tile_key);
        seqs::lemma_filter_contains(after.requested, missing, item.tile_key);
        let both = old_keys + new_keys;
        let k = choose|k: int| 0 <= k < both.len() && both[k] == item.tile_key;
        if k < old_keys.len() {
            assert(old_keys[k] == item.tile_key);
            assert(old_keys.contains(item.tile_key));
        } else {
            assert(new_keys[k - old_keys.len()] == item.tile_key);
            assert(new_keys.contains(item.tile_key));
        }
    } else {
        let keys = next.filter(missing);
        assert(after.pending == queue::builds_for(after.view_revision, keys));
        assert(keys[i] == item.tile_key);
        assert(keys.contains(item.tile_key));
        seqs::lemma_filter_contains(next, missing, item.tile_key);
    }
    if schedule::is_cached(m.cache, item.tile_key) {
        let k = choose|k: int|
            0 <= k < m.cache.len() && (#[trigger] m.cache[k]).key == item.tile_key;
        assert(cached[k] == item.tile_key);
    }
}

} // verus!
