//! What holds of the decisions about budgets, batches and modes.

use crate::coords;
use crate::renderer;
use crate::renderer::batch;
use crate::renderer::batch::BatchCopy;
use crate::renderer::geometry::{ClosedShapeDrawMode, RenderCacheKey};
use crate::renderer::schedule;
use crate::renderer::schedule::{DisplayModel, ScheduleModel};
use crate::renderer::{LayerAdaptiveBypassConfig, LayerPendingStats};
use crate::scene::LayerId;
use vstd::prelude::*;

verus! {

/// A layout that is drawn tile by tile has no finer grid than one tile; a scene has the grid that
/// is asked for.
pub proof fn law_grid_in_use(requested: u32, by_tiles: u32, of_scene: u32)
    requires
        call_ensures(renderer::effective_tile_grid_divisions, (requested, true), by_tiles),
        call_ensures(renderer::effective_tile_grid_divisions, (requested, false), of_scene),
    ensures
        by_tiles <= 1,
        by_tiles <= requested,
        requested <= 1 ==> by_tiles == requested,
        of_scene == requested,
        requested >= 1 ==> by_tiles == 1,
{
}

/// Only a layout that is drawn tile by tile, seen from afar, is drawn in outlines whatever is set:
/// up to a zoom of one fiftieth.
pub proof fn law_mode_in_use(
    set: ClosedShapeDrawMode,
    by_tiles: bool,
    zoom: i32,
    used: ClosedShapeDrawMode,
)
    requires
        call_ensures(
            renderer::effective_draw_mode_for_current_view,
            (set, by_tiles, zoom),
            used,
        ),
    ensures
        used != set ==> by_tiles && used == ClosedShapeDrawMode::Outline && !coords::exceeds(
            zoom,
            0x3ca3_d70a,
        ),
        by_tiles && coords::at_most(zoom, 0x3ca3_d70a) ==> used == ClosedShapeDrawMode::Outline,
        !by_tiles ==> used == set,
{
}

/// A frame is passed over just where it shows what the last one showed and nothing is left to do.
pub proof fn law_frames_that_are_passed_over(
    before: Option<RenderCacheKey>,
    next: RenderCacheKey,
    same_domain: bool,
    waiting: usize,
    under_way: usize,
    skipped: bool,
)
    requires
        call_ensures(
            renderer::should_skip_static_cache_refresh,
            (before, next, same_domain, waiting, under_way),
            skipped,
        ),
    ensures
        skipped ==> before == Some(next) && same_domain && waiting + under_way == 0,
        before == Some(next) && same_domain && waiting + under_way == 0 ==> skipped,
{
}

/// Batches are used for settled frames of a layout that is drawn tile by tile, with something in
/// view that is not frozen.
pub proof fn law_frames_that_are_batched(
    by_tiles: bool,
    frozen: bool,
    in_view: usize,
    waiting: usize,
    under_way: usize,
    batched: bool,
)
    requires
        call_ensures(
            renderer::should_use_static_visible_display_batch,
            (by_tiles, frozen, in_view, waiting, under_way),
            batched,
        ),
    ensures
        !by_tiles || frozen || in_view == 0 || waiting > 0 || under_way > 0 ==> !batched,
        by_tiles && !frozen && in_view > 0 && waiting + under_way == 0 ==> batched,
{
}

/// The bytes of a cache go with its entries, half a megabyte each, as far as counting goes.
pub proof fn law_bytes_of_a_cache(capacity: usize, budget: usize)
    requires
        call_ensures(renderer::tile_cache_byte_budget, (capacity,), budget),
    ensures
        budget == schedule::byte_budget(capacity),
        capacity * 524_288 <= usize::MAX ==> budget == capacity * 524_288,
        capacity * 524_288 > usize::MAX ==> budget == usize::MAX,
{
}

/// A frame builds no more than waits: all of it where that is little, and then it completes the
/// view; else no more than the budget, and as much of it as waits.
pub proof fn law_build_budget(
    waiting: usize,
    budget: usize,
    threshold: usize,
    result: (usize, bool),
)
    requires
        call_ensures(
            renderer::compute_effective_build_budget,
            (waiting, budget, threshold),
            result,
        ),
    ensures
        result.0 <= waiting,
        result.1 <==> 0 < waiting <= threshold,
        waiting <= threshold ==> result.0 == waiting,
        waiting > threshold ==> result.0 <= budget && (result.0 == budget || result.0 == waiting),
{
}

/// A layer that is light is completed in one frame; else the frame builds what the budget allows.
pub proof fn law_build_budget_of_a_layer(
    waiting: usize,
    layer: Option<LayerId>,
    stats: LayerPendingStats,
    budget: usize,
    limits: LayerAdaptiveBypassConfig,
    result: usize,
)
    requires
        call_ensures(
            renderer::effective_build_budget_for_active_layer,
            (waiting, layer, stats, budget, limits),
            result,
        ),
    ensures
        ({
            let light = layer is Some && 0 < stats.pending_entries <= limits.entry_threshold
                && stats.estimated_work_units <= limits.work_threshold;
            &&& waiting == 0 ==> result == 0
            &&& waiting > 0 && light ==> result == stats.pending_entries
            &&& !light ==> result <= waiting && result <= budget && (result == waiting || result
                == budget)
        }),
{
}

/// Every vertex is copied once, to where the packing puts it: vertices keep their order, and each
/// buffer is filled before the next one is begun.
pub proof fn law_every_vertex_is_copied_once(
    counts: Seq<usize>,
    limit: nat,
    copies: Seq<BatchCopy>,
    vertices: int,
    v: int,
)
    requires
        batch::copies_cover(counts, limit, copies, vertices),
        0 <= v < vertices,
        limit > 0,
    ensures
        exists|i: int| #[trigger] moves(counts, limit, copies, i, v),
        forall|i: int, j: int| #[trigger]
            moves(counts, limit, copies, i, v) && #[trigger] moves(counts, limit, copies, j, v)
                ==> i == j,
{
    let i = lemma_finds_copy(counts, limit, copies, copies.len() as int, v);
    assert(batch::copy_is_placed(counts, limit, copies[i]));
    assert forall|i: int, j: int| #[trigger]
        moves(counts, limit, copies, i, v) && #[trigger] moves(
            counts,
            limit,
            copies,
            j,
            v,
        ) implies i == j by {
        if i < j {
            lemma_copies_ascend(counts, limit, copies, vertices, i, j);
        }
        if j < i {
            lemma_copies_ascend(counts, limit, copies, vertices, j, i);
        }
    }
}

/// Whether the copy takes a vertex of the segments laid end to end from where it is to where it
/// goes: within its segment, and in its buffer at the place that it has behind all full buffers.
pub open spec fn moves(
    counts: Seq<usize>,
    limit: nat,
    copies: Seq<BatchCopy>,
    i: int,
    v: int,
) -> bool {
    let copy = copies[i];
    let first = batch::total(counts.take(copy.segment as int));
    let nth = v - first - copy.segment_offset;
    &&& 0 <= i < copies.len()
    &&& 0 <= nth < copy.vertex_count
    &&& v - first < counts[copy.segment as int]
    &&& copy.buffer * limit + copy.buffer_offset + nth == v
    &&& copy.buffer_offset + nth < limit
}

proof fn lemma_finds_copy(
    counts: Seq<usize>,
    limit: nat,
    copies: Seq<BatchCopy>,
    count: int,
    v: int,
) -> (i: int)
    requires
        0 < count <= copies.len(),
        forall|i: int|
            0 <= i < copies.len() ==> batch::copy_is_placed(counts, limit, #[trigger] copies[i]),
        forall|i: int|
            0 <= i < copies.len() ==> #[trigger] batch::starts_in_place(counts, copies, i),
        0 <= v < batch::copy_start(counts, copies[count - 1]) + copies[count - 1].vertex_count,
    ensures
        0 <= i < count,
        moves(counts, limit, copies, i, v),
    decreases count,
{
    let last = count - 1;
    assert(batch::copy_is_placed(counts, limit, copies[last]));
    assert(batch::starts_in_place(counts, copies, last));
    if v >= batch::copy_start(counts, copies[last]) {
        last
    } else {
        lemma_finds_copy(counts, limit, copies, last, v)
    }
}

proof fn lemma_copies_ascend(
    counts: Seq<usize>,
    limit: nat,
    copies: Seq<BatchCopy>,
    vertices: int,
    i: int,
    j: int,
)
    requires
        batch::copies_cover(counts, limit, copies, vertices),
        0 <= i < j < copies.len(),
    ensures
        batch::copy_start(counts, copies[i]) + copies[i].vertex_count <= batch::copy_start(
            counts,
            copies[j],
        ),
    decreases j - i,
{
    assert(batch::starts_in_place(counts, copies, j));
    if i < j - 1 {
        lemma_copies_ascend(counts, limit, copies, vertices, i, j - 1);
        assert(batch::copy_is_placed(counts, limit, copies[j - 1]));
    }
}

/// Before the first frame nothing is there, asked for or under way.
pub proof fn law_nothing_is_there_at_first()
    ensures
        ({
            let m = schedule::initial();
            &&& m.cache.len() == 0 && m.empty.len() == 0 && m.in_flight.len() == 0
            &&& m.visible.len() == 0 && m.requested.len() == 0 && m.pending.len() == 0
            &&& m.scene_key is None && m.domain is None && m.batch is None
            &&& m.building_layer is None && m.display_layer is None && m.display_budget == 0
            &&& m.display.draw_mode == ClosedShapeDrawMode::HatchOutline
            &&& m.display.layer_draw_modes.dom().len() == 0
            &&& m.display.layer_hatch_styles.dom().len() == 0
            &&& m.tile_grid_divisions == 8
            &&& m.evictions == 0 && m.stale_drops == 0 && !m.arrived && !m.stats.cache_hit
        }),
{
    assert(schedule::initial().display.layer_draw_modes.dom() =~= Set::empty());
    assert(schedule::initial().display.layer_hatch_styles.dom() =~= Set::empty());
}

/// A change of how things are drawn takes over the new way, leaves nothing that was built, and
/// claims no settled frame; limits, counts and time stay.
pub proof fn law_new_looks_start_over(m: ScheduleModel, display: DisplayModel)
    ensures
        ({
            let after = schedule::redrawn(m, display);
            &&& after.display == display
            &&& after.cache.len() == 0 && after.empty.len() == 0 && after.in_flight.len() == 0
            &&& after.requested.len() == 0 && after.visible.len() == 0 && after.pending.len() == 0
            &&& after.scene_key is None && after.domain is None && after.batch is None
            &&& !after.stats.cache_hit
            &&& after.limits == m.limits && after.tick == m.tick && after.evictions == m.evictions
                && after.stale_drops == m.stale_drops && after.scene_revision == m.scene_revision
                && after.tile_grid_divisions == m.tile_grid_divisions
        }),
{
}

/// Without its view a schedule keeps what was built and how things are drawn, and asks for nothing.
pub proof fn law_schedules_without_a_view(m: ScheduleModel)
    ensures
        ({
            let after = schedule::without_view(m);
            &&& after.cache == m.cache && after.domain == m.domain && after.display == m.display
            &&& after.scene_key is None && after.batch is None && !after.stats.cache_hit
            &&& after.requested.len() == 0 && after.visible.len() == 0 && after.pending.len() == 0
            &&& after.empty.len() == 0 && after.in_flight.len() == 0
            &&& after.view_revision == m.view_revision && after.limits == m.limits
        }),
{
}

} // verus!
