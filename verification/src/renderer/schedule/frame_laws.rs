//! What holds of whole frames.

use crate::renderer::content::TileContent;
use crate::renderer::geometry::TileId;
use crate::renderer::queue;
use crate::renderer::queue::TileCacheKey;
use crate::renderer::schedule::frame;
use crate::renderer::schedule::frame::RefreshKind;
use crate::renderer::schedule::laws;
use crate::renderer::schedule::refresh;
use crate::renderer::schedule::refresh::FrameSight;
use crate::renderer::schedule;
use crate::renderer::schedule::{BuiltTile, CachedTile, ScheduleModel};
use crate::scene::LayerId;
use crate::seqs;
use vstd::prelude::*;

verus! {

/// Whether what tells one view from another is the same.
spec fn same_view(a: ScheduleModel, b: ScheduleModel) -> bool {
    &&& a.display == b.display
    &&& a.scene_revision == b.scene_revision
    &&& a.scene_key == b.scene_key
    &&& a.domain == b.domain
}

proof fn lemma_builds_keep_view(
    m: ScheduleModel,
    budget: nat,
    made: spec_fn(TileCacheKey) -> Option<BuiltTile>,
)
    ensures
        same_view(frame::after_builds(m, budget, made), m),
    decreases m.pending.len(),
{
    if budget > 0 {
        if let Some(layer) = queue::active_layer_for(m.building_layer, m.pending) {
            let at = queue::first_of_layer(m.pending, layer);
            if 0 <= at < m.pending.len() {
                let item = m.pending[at];
                let rest = frame::taken_from(m, layer);
                lemma_builds_keep_view(frame::one_dropped(rest), budget, made);
                lemma_builds_keep_view(rest, budget, made);
                lemma_builds_keep_view(
                    frame::released(
                        frame::stored(rest, item.tile_key, made(item.tile_key)),
                        layer,
                    ),
                    (budget - 1) as nat,
                    made,
                );
            }
        }
    }
}

proof fn lemma_dispatch_keeps_view(
    m: ScheduleModel,
    budget: nat,
    taken: spec_fn(u64, TileCacheKey) -> bool,
)
    ensures
        same_view(frame::after_dispatch(m, budget, taken), m),
    decreases m.pending.len(),
{
    if budget > 0 {
        if let Some(layer) = queue::active_layer_for(m.building_layer, m.pending) {
            let at = queue::first_of_layer(m.pending, layer);
            if 0 <= at < m.pending.len() {
                let item = m.pending[at];
                let rest = frame::taken_from(m, layer);
                let sent = ScheduleModel {
                    in_flight: schedule::with_key(
                        rest.in_flight,
                        item.tile_key,
                    ),
                    ..rest
                };
                lemma_dispatch_keeps_view(frame::one_dropped(rest), budget, taken);
                lemma_dispatch_keeps_view(rest, budget, taken);
                lemma_dispatch_keeps_view(
                    frame::released(sent, layer),
                    (budget - 1) as nat,
                    taken,
                );
            }
        }
    }
}

/// After a frame the schedule is on the view of that frame.
pub proof fn law_frame_arrives_at_its_view(
    m: ScheduleModel,
    content: TileContent,
    sight: FrameSight,
    hidden: Set<LayerId>,
    distance: spec_fn(TileId) -> u64,
    made: spec_fn(TileCacheKey) -> Option<BuiltTile>,
    taken: spec_fn(u64, TileCacheKey) -> bool,
)
    ensures
        ({
            let after = refresh::after_frame(m, content, sight, hidden, distance, made, taken);
            &&& after.scene_key == Some(
                refresh::frame_key(m, sight, hidden, content.hierarchy is Some),
            )
            &&& after.domain == Some(refresh::frame_domain(m, sight))
            &&& after.display == m.display
            &&& after.scene_revision == m.scene_revision
        }),
{
    let hierarchical = content.hierarchy is Some;
    let start = refresh::entered(m, refresh::frame_domain(m, sight));
    let ready = refresh::asked(start, content, sight, hidden, distance);
    let plan = frame::build_plan(ready, content.prepared, content.grid);
    lemma_dispatch_keeps_view(ready, plan.budget as nat, taken);
    lemma_builds_keep_view(
        ScheduleModel { tick: ready.tick.wrapping_add(1), ..ready },
        plan.budget as nat,
        made,
    );
}

/// A frame that reports a hit had no work: the view was that of the frame before, nothing had come
/// in, and nothing was built or handed out, so that nothing is there that was not there before.
pub proof fn law_hit_means_no_work(
    m: ScheduleModel,
    content: TileContent,
    sight: FrameSight,
    hidden: Set<LayerId>,
    distance: spec_fn(TileId) -> u64,
    made: spec_fn(TileCacheKey) -> Option<BuiltTile>,
    taken: spec_fn(u64, TileCacheKey) -> bool,
    key: TileCacheKey,
)
    requires
        refresh::after_frame(
            m,
            content,
            sight,
            hidden,
            distance,
            made,
            taken,
        ).stats.cache_hit,
    ensures
        ({
            let start = refresh::entered(m, refresh::frame_domain(m, sight));
            let after = refresh::after_frame(m, content, sight, hidden, distance, made, taken);
            &&& frame::refresh_kind(
                start,
                refresh::frame_key(start, sight, hidden, content.hierarchy is Some),
            ) != RefreshKind::Rebuild
            &&& !m.arrived
            &&& after.empty == start.empty
            &&& after.in_flight == start.in_flight
            &&& schedule::is_cached(after.cache, key) ==> schedule::is_cached(start.cache, key)
        }),
{
    let hierarchical = content.hierarchy is Some;
    let start = refresh::entered(m, refresh::frame_domain(m, sight));
    let view = refresh::frame_key(start, sight, hidden, hierarchical);
    let after = refresh::after_frame(m, content, sight, hidden, distance, made, taken);
    if frame::refresh_kind(start, view) != RefreshKind::Skip && schedule::is_cached(
        after.cache,
        key,
    ) {
        let plan = frame::build_plan(start, content.prepared, content.grid);
        let worked = refresh::after_work(start, hierarchical, plan.budget as nat, made, taken);
        let open = frame::opened(worked, plan, content.prepared, content.grid);
        let pass = frame::display_pass(open, Seq::empty(), plan.bypassed, worked.requested.len());
        let gone = schedule::victims(
            worked.cache,
            worked.limits.tile_cache_capacity,
            pass.visible,
        );
        let kept = schedule::outside(worked.cache, gone);
        let k = choose|k: int| 0 <= k < kept.len() && (#[trigger] kept[k]).key == key;
        lemma_kept_was_there(worked.cache, gone, kept[k]);
    }
}

proof fn lemma_kept_was_there(
    cache: Seq<CachedTile>,
    gone: Seq<TileCacheKey>,
    tile: CachedTile,
)
    requires
        schedule::outside(cache, gone).contains(tile),
    ensures
        schedule::is_cached(cache, tile.key),
{
    let staying = |t: CachedTile| !gone.contains(t.key);
    seqs::lemma_filter_contains(cache, staying, tile);
    assert(schedule::outside(cache, gone) == cache.filter(staying));
    let k = choose|k: int| 0 <= k < cache.len() && cache[k] == tile;
    assert(cache[k].key == tile.key);
}

/// A frame that leaves nothing to do is followed by frames that do nothing and show the same, for
/// as long as the view stays the same.
pub proof fn law_settled_frame_repeats(
    m: ScheduleModel,
    content: TileContent,
    sight: FrameSight,
    hidden: Set<LayerId>,
    distance: spec_fn(TileId) -> u64,
    made: spec_fn(TileCacheKey) -> Option<BuiltTile>,
    taken: spec_fn(u64, TileCacheKey) -> bool,
)
    requires
        refresh::after_frame(m, content, sight, hidden, distance, made, taken).pending.len() == 0,
        refresh::after_frame(m, content, sight, hidden, distance, made, taken).in_flight.len() == 0,
    ensures
        ({
            let after = refresh::after_frame(m, content, sight, hidden, distance, made, taken);
            let again = refresh::after_frame(
                after,
                content,
                sight,
                hidden,
                distance,
                made,
                taken,
            );
            &&& frame::refresh_kind(
                after,
                refresh::frame_key(after, sight, hidden, content.hierarchy is Some),
            ) == RefreshKind::Skip
            &&& again.visible == after.visible
            &&& again.cache == after.cache
            &&& again.requested == after.requested
            &&& again.stats.cache_hit
        }),
{
    law_frame_arrives_at_its_view(m, content, sight, hidden, distance, made, taken);
}

proof fn lemma_place_is_there(from: int, cache: Seq<CachedTile>, key: TileCacheKey, k: int)
    requires
        0 <= from <= k < cache.len(),
        cache[k].key == key,
    ensures
        from <= seqs::least_from(from, cache.len() as int, |i: int| cache[i].key == key) <= k,
    decreases k - from,
{
    if from < k && cache[from].key != key {
        lemma_place_is_there(from + 1, cache, key, k);
    }
}

/// A build that was made elsewhere is shown in the frame after it has come in, as long as the view
/// stays the same, nothing waits, and other builds are under way.
pub proof fn law_finished_build_is_shown(
    m: ScheduleModel,
    key: TileCacheKey,
    built: BuiltTile,
    content: TileContent,
    sight: FrameSight,
    hidden: Set<LayerId>,
    distance: spec_fn(TileId) -> u64,
    made: spec_fn(TileCacheKey) -> Option<BuiltTile>,
    taken: spec_fn(u64, TileCacheKey) -> bool,
)
    requires
        m.domain == Some(refresh::frame_domain(m, sight)),
        m.scene_key == Some(refresh::frame_key(m, sight, hidden, content.hierarchy is Some)),
        m.pending.len() == 0,
        schedule::without_key(m.in_flight, key).len() > 0,
        m.requested.contains(key),
    ensures
        refresh::after_frame(
            frame::received(m, m.view_revision, key, Some(built)),
            content,
            sight,
            hidden,
            distance,
            made,
            taken,
        ).visible.contains(key),
{
    let start = frame::received(m, m.view_revision, key, Some(built));
    let plan = frame::build_plan(start, content.prepared, content.grid);
    let worked = refresh::after_work(start, content.hierarchy is Some, 0, made, taken);
    let open = frame::opened(worked, plan, content.prepared, content.grid);
    let pass = frame::display_pass(open, Seq::empty(), plan.bypassed, open.requested.len());
    let tile = CachedTile { key, built, last_used_tick: m.tick };
    let i = choose|i: int| 0 <= i < m.requested.len() && m.requested[i] == key;
    if schedule::is_cached(m.cache, key) {
        let k = choose|k: int| 0 <= k < m.cache.len() && (#[trigger] m.cache[k]).key == key;
        lemma_place_is_there(0, m.cache, key, k);
        assert(start.cache[schedule::place_of(m.cache, key)].key == key);
    } else {
        assert(start.cache[m.cache.len() as int] == tile);
    }
    assert(schedule::is_cached(start.cache, key));
    laws::law_nothing_is_held_back(
        open,
        Seq::empty(),
        plan.bypassed,
        open.requested.len(),
        i,
    );
    seqs::lemma_append_new(pass.visible, worked.visible);
}

/// Moving the view keeps all that was built: as long as the zoom stays the same, entries are of
/// the same domain and have the same keys.
pub proof fn law_pan_keeps_what_was_built(
    m: ScheduleModel,
    from: FrameSight,
    to: FrameSight,
    hierarchical: bool,
)
    requires
        from.zoom == to.zoom,
        from.cache_zoom_bits == to.cache_zoom_bits,
        m.domain == Some(refresh::frame_domain(m, from)),
    ensures
        refresh::entered(m, refresh::frame_domain(m, to)) == m,
        refresh::frame_look(m, to, hierarchical) == refresh::frame_look(m, from, hierarchical),
{
}

} // verus!
