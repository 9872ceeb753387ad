//! What holds of changing the settings of a schedule.

use crate::coords;
use crate::renderer::eviction;
use crate::renderer::geometry::{ClosedShapeDrawMode, HatchParams, HatchStylePreset};
use crate::renderer::queue::TileCacheKey;
use crate::renderer::schedule;
use crate::renderer::schedule::display_laws;
use crate::renderer::schedule::frame::BatchReview;
use crate::renderer::schedule::work_laws;
use crate::renderer::schedule::{ScheduleModel, TileSchedule};
use crate::scene::LayerId;
use vstd::prelude::*;

verus! {

/// Whether a schedule has been left without a view: nothing is asked for, waits, or is in view.
pub open spec fn is_idle(m: ScheduleModel) -> bool {
    &&& m.scene_key is None
    &&& m.requested.len() == 0
    &&& m.visible.len() == 0
    &&& m.pending.len() == 0
    &&& m.in_flight.len() == 0
    &&& m.batch is None
}

/// The capacity of the cache is held between 32 and 4096 entries. Setting the one that it has
/// changes nothing; another one drops the view and the entries that no longer fit, and keeps all
/// others.
pub proof fn law_capacity_is_held(
    s: &mut TileSchedule,
    capacity: usize,
    dropped: Vec<TileCacheKey>,
    key: TileCacheKey,
)
    requires
        call_ensures(TileSchedule::set_tile_cache_capacity, (s, capacity), dropped),
    ensures
        ({
            let before = old(s)@;
            let after = final(s)@;
            let held = after.limits.tile_cache_capacity;
            let wanted = if capacity < 32 {
                32
            } else if capacity > 4096 {
                4096
            } else {
                capacity
            };
            &&& held == wanted
            &&& before.limits.tile_cache_capacity == wanted ==> after == before && dropped@.len()
                == 0
            &&& before.limits.tile_cache_capacity != wanted ==> is_idle(after)
            &&& work_laws::is_there(after.cache, key) <==> work_laws::is_there(before.cache, key)
                && !dropped@.contains(key)
            &&& after.evictions == work_laws::counted_on(before.evictions, dropped@.len() as int)
            &&& after.display == before.display
            &&& after.limits.progressive_bypass_threshold
                == before.limits.progressive_bypass_threshold
            &&& after.limits.layer_bypass == before.limits.layer_bypass
        }),
{
    let before = old(s)@;
    lemma_outside(before.cache, dropped@, key);
}

proof fn lemma_outside(
    cache: Seq<schedule::CachedTile>,
    gone: Seq<TileCacheKey>,
    key: TileCacheKey,
)
    ensures
        work_laws::is_there(schedule::outside(cache, gone), key) <==> work_laws::is_there(
            cache,
            key,
        ) && !gone.contains(key),
{
    let kept = |tile: schedule::CachedTile| !gone.contains(tile.key);
    let left = schedule::outside(cache, gone);
    if work_laws::is_there(left, key) {
        let i = choose|i: int| 0 <= i < left.len() && (#[trigger] left[i]).key == key;
        assert(left.contains(left[i]));
        crate::seqs::lemma_filter_contains(cache, kept, left[i]);
        let k = choose|k: int| 0 <= k < cache.len() && cache[k] == left[i];
        assert(cache[k].key == key);
    }
    if work_laws::is_there(cache, key) && !gone.contains(key) {
        let k = choose|k: int| 0 <= k < cache.len() && (#[trigger] cache[k]).key == key;
        assert(cache.contains(cache[k]));
        crate::seqs::lemma_filter_contains(cache, kept, cache[k]);
        let i = choose|i: int| 0 <= i < left.len() && left[i] == cache[k];
        assert(left[i].key == key);
    }
}

/// The number of missing entries that a frame completes at once is held at 256 at most; setting the
/// one that it has changes nothing, and another one drops the view and keeps what was built.
pub proof fn law_threshold_is_held(s: &mut TileSchedule, threshold: usize)
    requires
        call_ensures(TileSchedule::set_progressive_bypass_threshold, (s, threshold), ()),
    ensures
        ({
            let before = old(s)@;
            let after = final(s)@;
            let wanted = if threshold > 256 {
                256
            } else {
                threshold
            };
            &&& after.limits.progressive_bypass_threshold == wanted
            &&& before.limits.progressive_bypass_threshold == wanted ==> after == before
            &&& before.limits.progressive_bypass_threshold != wanted ==> is_idle(after)
                && after.building_layer is None
            &&& after.cache == before.cache
            &&& after.limits.tile_cache_capacity == before.limits.tile_cache_capacity
            &&& after.limits.layer_bypass == before.limits.layer_bypass
            &&& after.display == before.display
        }),
{
}

/// The limits up to which a layer is completed at once are held at 64 entries and 1024 units of
/// work; setting those that it has changes nothing, and others drop the view and keep what was
/// built.
pub proof fn law_layer_thresholds_are_held(s: &mut TileSchedule, entries: usize, work: usize)
    requires
        call_ensures(TileSchedule::set_layer_bypass_thresholds, (s, entries, work), ()),
    ensures
        ({
            let before = old(s)@;
            let after = final(s)@;
            let some = if entries > 64 {
                64
            } else {
                entries
            };
            let most = if work > 1024 {
                1024
            } else {
                work
            };
            let had = before.limits.layer_bypass;
            let has = after.limits.layer_bypass;
            &&& has.entry_threshold == some && has.work_threshold == most
            &&& had.entry_threshold == some && had.work_threshold == most ==> after == before
            &&& had.entry_threshold != some || had.work_threshold != most ==> is_idle(after)
                && after.building_layer is None
            &&& after.cache == before.cache
            &&& after.limits.tile_cache_capacity == before.limits.tile_cache_capacity
            &&& after.limits.progressive_bypass_threshold
                == before.limits.progressive_bypass_threshold
            &&& after.display == before.display
        }),
{
}

/// Drawing in another way takes over the way and leaves nothing that was built; in the same way it
/// changes nothing.
pub proof fn law_another_mode_starts_over(s: &mut TileSchedule, mode: ClosedShapeDrawMode)
    requires
        call_ensures(TileSchedule::set_draw_mode, (s, mode), ()),
    ensures
        final(s)@.display.draw_mode == mode,
        old(s)@.display.draw_mode == mode ==> final(s)@ == old(s)@,
        old(s)@.display.draw_mode != mode ==> is_idle(final(s)@) && final(s)@.cache.len() == 0,
        final(s)@.display.hatch_style == old(s)@.display.hatch_style,
        final(s)@.display.layer_draw_modes == old(s)@.display.layer_draw_modes,
        final(s)@.limits == old(s)@.limits,
{
}

/// Another pattern is taken over and leaves nothing that was built; the same one changes nothing.
pub proof fn law_another_pattern_starts_over(s: &mut TileSchedule, style: HatchStylePreset)
    requires
        call_ensures(TileSchedule::set_hatch_style, (s, style), ()),
    ensures
        final(s)@.display.hatch_style == style,
        old(s)@.display.hatch_style == style ==> final(s)@ == old(s)@,
        old(s)@.display.hatch_style != style ==> is_idle(final(s)@) && final(s)@.cache.len() == 0,
        final(s)@.display.draw_mode == old(s)@.display.draw_mode,
        final(s)@.display.layer_hatch_styles == old(s)@.display.layer_hatch_styles,
        final(s)@.limits == old(s)@.limits,
{
}

/// Hatch parameters are taken over in their ranges; ones that amount to the same change nothing,
/// and others leave nothing that was built.
pub proof fn law_other_hatches_start_over(s: &mut TileSchedule, params: HatchParams)
    requires
        call_ensures(TileSchedule::set_hatch_params, (s, params), ()),
    ensures
        ({
            let had = old(s)@.display.hatch_params;
            let has = final(s)@.display.hatch_params;
            let wanted = params.normal_form();
            let same = coords::same_number(had.spacing, wanted.spacing) && coords::same_number(
                had.width,
                wanted.width,
            );
            &&& same ==> final(s)@ == old(s)@
            &&& !same ==> has == wanted && is_idle(final(s)@) && final(s)@.cache.len() == 0
            &&& final(s)@.limits == old(s)@.limits
        }),
{
}

/// Another scene starts a new revision with nothing built; ways of drawing stay for the layers
/// that it has. The report starts anew but for the limits and what was counted over all scenes.
pub proof fn law_another_scene_starts_over(
    s: &mut TileSchedule,
    layers: &[LayerId],
    layer: LayerId,
)
    requires
        call_ensures(TileSchedule::update_scene, (s, layers), ()),
    ensures
        ({
            let before = old(s)@;
            let after = final(s)@;
            &&& is_idle(after) && after.cache.len() == 0 && after.empty.len() == 0
            &&& after.scene_revision != before.scene_revision
            &&& after.view_revision != before.view_revision
            &&& after.display.layer_draw_modes.dom().contains(layer)
                <==> before.display.layer_draw_modes.dom().contains(layer) && layers@.contains(
                layer,
            )
            &&& after.display.layer_draw_modes.dom().contains(layer)
                ==> after.display.layer_draw_modes[layer] == before.display.layer_draw_modes[layer]
            &&& after.display.layer_hatch_styles.dom().contains(layer)
                <==> before.display.layer_hatch_styles.dom().contains(layer) && layers@.contains(
                layer,
            )
            &&& after.display.draw_mode == before.display.draw_mode
            &&& after.limits == before.limits
            &&& after.evictions == before.evictions && after.stale_drops == before.stale_drops
            &&& after.stats.cache_capacity == before.limits.tile_cache_capacity
            &&& after.stats.cache_evictions == before.evictions
            &&& after.stats.dropped_stale_entries == before.stale_drops
            &&& after.stats.total_shapes == 0 && after.stats.vertex_count == 0
                && !after.stats.cache_hit
        }),
{
}

/// A layout that is drawn tile by tile starts a new revision with nothing built, and with no layer
/// drawn in a way of its own.
pub proof fn law_another_layout_starts_over(s: &mut TileSchedule, layer: LayerId)
    requires
        call_ensures(TileSchedule::update_hierarchy_tile_source, (s,), ()),
    ensures
        ({
            let before = old(s)@;
            let after = final(s)@;
            &&& is_idle(after) && after.cache.len() == 0 && after.empty.len() == 0
            &&& after.scene_revision != before.scene_revision
            &&& !after.display.layer_draw_modes.dom().contains(layer)
            &&& !after.display.layer_hatch_styles.dom().contains(layer)
            &&& after.display.draw_mode == before.display.draw_mode
            &&& after.limits == before.limits
        }),
{
}

/// A batch that was made for what is in view is kept as long as the same is in view, and wanted
/// anew where none could be made; where batches are not used it is dropped.
pub proof fn law_batches_are_kept_for_what_is_in_view(
    made: &mut TileSchedule,
    failed: &mut TileSchedule,
    kept: &mut TileSchedule,
    lacking: &mut TileSchedule,
    unused: &mut TileSchedule,
    reviews: (BatchReview, BatchReview, BatchReview),
)
    requires
        call_ensures(TileSchedule::install_display_batch, (made, true), ()),
        call_ensures(TileSchedule::install_display_batch, (failed, false), ()),
        old(kept)@ == final(made)@,
        old(lacking)@ == final(failed)@,
        call_ensures(TileSchedule::review_display_batch, (kept, true), reviews.0),
        call_ensures(TileSchedule::review_display_batch, (lacking, true), reviews.1),
        call_ensures(TileSchedule::review_display_batch, (unused, false), reviews.2),
    ensures
        reviews.0 == BatchReview::Kept,
        reviews.1 == BatchReview::Wanted,
        reviews.2 == BatchReview::Dropped,
        final(kept)@ == final(made)@,
        final(unused)@.batch is None,
        final(unused)@.visible == old(unused)@.visible,
        final(made)@.visible == old(made)@.visible,
        final(made)@.cache == old(made)@.cache,
{
}

/// What was drawn is reported, with the bytes of the entries and of the batch where there is one;
/// no other number of the report changes, and nothing that is there.
pub proof fn law_draws_are_reported(s: &mut TileSchedule, draws: usize, bytes: Option<usize>)
    requires
        call_ensures(TileSchedule::report_draws, (s, draws, bytes), ()),
    ensures
        ({
            let before = old(s)@;
            let after = final(s)@;
            let own = eviction::usage_bytes(schedule::usages(before.cache)) as int;
            &&& after.stats.draw_calls == draws
            &&& bytes is None ==> after.stats.cache_bytes == before.stats.cache_bytes
            &&& bytes matches Some(more) ==> after.stats.cache_bytes == work_laws::counted_on(
                more,
                own,
            )
            &&& after.stats.cache_hit == before.stats.cache_hit
            &&& after.stats.vertex_count == before.stats.vertex_count
            &&& after.stats.cache_entries == before.stats.cache_entries
            &&& after.cache == before.cache && after.visible == before.visible && after.pending
                == before.pending
        }),
{
    display_laws::lemma_no_less_than_none(schedule::usages(old(s)@.cache));
}

} // verus!
