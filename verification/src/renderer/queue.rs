//! The queue of tile builds and the lists of tile keys around it.

use crate::renderer::geometry::TileId;
use crate::scene::LayerId;
use crate::seqs;
use std::collections::VecDeque;
use vstd::prelude::*;

verus! {

/// Key of one cached `tile + layer` entry.
///
/// The key is finer than the tile alone, so that switching one layer leaves the buffers of the
/// others in place.
#[derive(Debug, Clone, Copy, PartialEq, Eq, Hash, Structural)]
pub struct TileCacheKey {
    pub scene_revision: u64,
    pub zoom_bits: u32,
    pub tile_id: TileId,
    pub layer: LayerId,
    pub effective_mode_tag: u8,
    pub hatch_signature: u64,
    pub effective_hatch_style_tag: u8,
}

/// A `tile + layer` entry that waits to be built for one revision of the view.
#[derive(Debug, Clone, Copy, PartialEq, Eq, Structural)]
pub struct PendingTileBuild {
    pub view_revision: u64,
    pub tile_key: TileCacheKey,
}

/// The keys of a list of pending builds.
pub open spec fn pending_keys(pending: Seq<PendingTileBuild>) -> Seq<TileCacheKey> {
    pending.map_values(|item: PendingTileBuild| item.tile_key)
}

/// The layers of a list of keys.
pub open spec fn key_layers(keys: Seq<TileCacheKey>) -> Seq<LayerId> {
    keys.map_values(|key: TileCacheKey| key.layer)
}

/// The builds that a list of keys asks for in one revision of the view.
pub open spec fn builds_for(view_revision: u64, keys: Seq<TileCacheKey>) -> Seq<PendingTileBuild> {
    keys.map_values(|tile_key: TileCacheKey| PendingTileBuild { view_revision, tile_key })
}

/// Whether a key is in the list.
pub fn contains_tile_key(keys: &[TileCacheKey], key: TileCacheKey) -> (found: bool)
    ensures
        found == keys@.contains(key),
{
    let mut i: usize = 0;
    while i < keys.len()
        invariant
            i <= keys@.len(),
            forall|j: int| 0 <= j < i ==> keys@[j] != key,
        decreases keys@.len() - i,
    {
        if keys[i] == key {
            return true;
        }
        i += 1;
    }
    false
}

/// Appends the build, unless one for the same key already waits.
pub fn enqueue_unique_pending(
    pending: VecDeque<PendingTileBuild>,
    new_item: PendingTileBuild,
) -> (result: VecDeque<PendingTileBuild>)
    ensures
        result@ == (if pending_keys(pending@).contains(new_item.tile_key) {
            pending@
        } else {
            pending@.push(new_item)
        }),
{
    let mut queue = pending;
    let mut i: usize = 0;
    while i < queue.len()
        invariant
            i <= queue@.len(),
            queue@ == pending@,
            forall|j: int| 0 <= j < i ==> queue@[j].tile_key != new_item.tile_key,
        decreases queue@.len() - i,
    {
        if queue[i].tile_key == new_item.tile_key {
            assert(pending_keys(queue@)[i as int] == new_item.tile_key);
            return queue;
        }
        i += 1;
    }
    assert(!pending_keys(queue@).contains(new_item.tile_key));
    queue.push_back(new_item);
    queue
}

/// While builds are pending, keeps the tiles of the previous view visible behind the new ones.
pub fn stabilize_visible_tile_keys_during_transition(
    current: Vec<TileCacheKey>,
    previous: &[TileCacheKey],
    pending_entries: usize,
) -> (result: Vec<TileCacheKey>)
    ensures
        result@ == (if pending_entries == 0 {
            current@
        } else {
            seqs::append_new(current@, previous@)
        }),
{
    let mut current = current;
    if pending_entries == 0 {
        return current;
    }
    let ghost start = current@;
    let mut i: usize = 0;
    assert(previous@.take(0) =~= Seq::empty());
    while i < previous.len()
        invariant
            i <= previous@.len(),
            current@ == seqs::append_new(start, previous@.take(i as int)),
        decreases previous@.len() - i,
    {
        proof {
            seqs::lemma_append_new_take(start, previous@, i as int);
        }
        if !contains_tile_key(current.as_slice(), previous[i]) {
            current.push(previous[i]);
        }
        i += 1;
    }
    assert(previous@.take(i as int) =~= previous@);
    current
}

/// Keeps the order of the keys that stay requested after a pan, and appends the new ones.
pub fn merge_requested_tile_keys_for_incremental_pan(
    previous_requested: &[TileCacheKey],
    next_requested: Vec<TileCacheKey>,
) -> (merged: Vec<TileCacheKey>)
    ensures
        merged@ == panned_requests(previous_requested@, next_requested@),
{
    let ghost wanted = |key: TileCacheKey| next_requested@.contains(key);
    let ghost none = Seq::<TileCacheKey>::empty();
    let mut merged: Vec<TileCacheKey> = Vec::new();
    let mut i: usize = 0;
    assert(previous_requested@.take(0).filter(wanted) =~= none) by {
        reveal(Seq::filter);
    }
    while i < previous_requested.len()
        invariant
            i <= previous_requested@.len(),
            wanted == (|key: TileCacheKey| next_requested@.contains(key)),
            none == Seq::<TileCacheKey>::empty(),
            merged@ == seqs::append_new(none, previous_requested@.take(i as int).filter(wanted)),
        decreases previous_requested@.len() - i,
    {
        let key = previous_requested[i];
        proof {
            seqs::lemma_filter_take(previous_requested@, i as int, wanted);
            let kept = previous_requested@.take(i as int).filter(wanted);
            if wanted(key) {
                assert(kept.push(key).drop_last() =~= kept);
            }
        }
        if contains_tile_key(next_requested.as_slice(), key) {
            if !contains_tile_key(merged.as_slice(), key) {
                merged.push(key);
            }
        }
        i += 1;
    }
    let ghost kept = previous_requested@.filter(wanted);
    assert(previous_requested@.take(i as int) =~= previous_requested@);
    let mut j: usize = 0;
    assert(next_requested@.take(0) =~= none);
    while j < next_requested.len()
        invariant
            j <= next_requested@.len(),
            none == Seq::<TileCacheKey>::empty(),
            merged@ == seqs::append_new(seqs::append_new(none, kept), next_requested@.take(j as int)),
        decreases next_requested@.len() - j,
    {
        let key = next_requested[j];
        proof {
            seqs::lemma_append_new_take(seqs::append_new(none, kept), next_requested@, j as int);
        }
        if !contains_tile_key(merged.as_slice(), key) {
            merged.push(key);
        }
        j += 1;
    }
    proof {
        assert(next_requested@.take(j as int) =~= next_requested@);
        seqs::lemma_append_new_add(none, kept, next_requested@);
    }
    merged
}

/// The requests after a pan: those of before that are still wanted, in their old order, then the
/// new ones.
pub open spec fn panned_requests(
    previous: Seq<TileCacheKey>,
    next: Seq<TileCacheKey>,
) -> Seq<TileCacheKey> {
    seqs::distinct(previous.filter(|key: TileCacheKey| next.contains(key)) + next)
}

/// The queue of a new view: every requested key that is not cached.
pub open spec fn fresh_queue(
    view_revision: u64,
    requested: Seq<TileCacheKey>,
    cached: Seq<TileCacheKey>,
) -> Seq<PendingTileBuild> {
    builds_for(view_revision, requested.filter(|key: TileCacheKey| !cached.contains(key)))
}

/// How many different keys of the queue a new view does not ask for.
pub open spec fn fresh_drops(pending: Seq<PendingTileBuild>, requested: Seq<TileCacheKey>) -> nat {
    seqs::distinct(
        pending_keys(pending).filter(|key: TileCacheKey| !requested.contains(key)),
    ).len()
}

/// The queue after a pan: builds that are still wanted and missing in their order, then the other
/// requested keys that are not cached.
pub open spec fn panned_queue(
    view_revision: u64,
    pending: Seq<PendingTileBuild>,
    requested: Seq<TileCacheKey>,
    cached: Seq<TileCacheKey>,
) -> Seq<PendingTileBuild> {
    builds_for(
        view_revision,
        seqs::distinct(
            pending_keys(pending).filter(
                |key: TileCacheKey| requested.contains(key) && !cached.contains(key),
            ) + requested.filter(|key: TileCacheKey| !cached.contains(key)),
        ),
    )
}

/// How many builds of the queue a pan leaves unwanted.
pub open spec fn panned_drops(pending: Seq<PendingTileBuild>, requested: Seq<TileCacheKey>) -> nat {
    pending_keys(pending).filter(|key: TileCacheKey| !requested.contains(key)).len()
}

/// What a new view leaves of the queue: every requested key that is not cached waits under the
/// new revision, and the second result counts the distinct old keys that nobody asks for.
pub fn refresh_progressive_queue(
    view_revision: u64,
    old_pending: VecDeque<PendingTileBuild>,
    requested_keys: &[TileCacheKey],
    cached_keys: &[TileCacheKey],
) -> (result: (VecDeque<PendingTileBuild>, usize))
    ensures
        result.0@ == fresh_queue(view_revision, requested_keys@, cached_keys@),
        result.1 == fresh_drops(old_pending@, requested_keys@),
{
    let ghost stale = |key: TileCacheKey| !requested_keys@.contains(key);
    let ghost missing = |key: TileCacheKey| !cached_keys@.contains(key);
    let ghost none = Seq::<TileCacheKey>::empty();
    let ghost old_keys = pending_keys(old_pending@);
    let mut dropped_keys: Vec<TileCacheKey> = Vec::new();
    let mut i: usize = 0;
    proof {
        reveal(Seq::filter);
        assert(old_keys.take(0).filter(stale) =~= none);
    }
    while i < old_pending.len()
        invariant
            i <= old_pending@.len(),
            old_keys == pending_keys(old_pending@),
            stale == (|key: TileCacheKey| !requested_keys@.contains(key)),
            none == Seq::<TileCacheKey>::empty(),
            dropped_keys@ == seqs::append_new(none, old_keys.take(i as int).filter(stale)),
        decreases old_pending@.len() - i,
    {
        let key = old_pending[i].tile_key;
        proof {
            assert(old_keys[i as int] == key);
            seqs::lemma_filter_take(old_keys, i as int, stale);
            let kept = old_keys.take(i as int).filter(stale);
            if stale(key) {
                assert(kept.push(key).drop_last() =~= kept);
            }
        }
        if !contains_tile_key(requested_keys, key) {
            if !contains_tile_key(dropped_keys.as_slice(), key) {
                dropped_keys.push(key);
            }
        }
        i += 1;
    }
    assert(old_keys.take(i as int) =~= old_keys);
    let mut pending: VecDeque<PendingTileBuild> = VecDeque::new();
    let mut j: usize = 0;
    proof {
        reveal(Seq::filter);
        assert(requested_keys@.take(0).filter(missing) =~= none);
        assert(builds_for(view_revision, none) =~= Seq::empty());
    }
    while j < requested_keys.len()
        invariant
            j <= requested_keys@.len(),
            missing == (|key: TileCacheKey| !cached_keys@.contains(key)),
            pending@ == builds_for(view_revision, requested_keys@.take(j as int).filter(missing)),
        decreases requested_keys@.len() - j,
    {
        let tile_key = requested_keys[j];
        proof {
            seqs::lemma_filter_take(requested_keys@, j as int, missing);
            let kept = requested_keys@.take(j as int).filter(missing);
            assert(builds_for(view_revision, kept.push(tile_key)) =~= builds_for(
                view_revision,
                kept,
            ).push(PendingTileBuild { view_revision, tile_key }));
        }
        if !contains_tile_key(cached_keys, tile_key) {
            pending.push_back(PendingTileBuild { view_revision, tile_key });
        }
        j += 1;
    }
    assert(requested_keys@.take(j as int) =~= requested_keys@);
    (pending, dropped_keys.len())
}

/// What a pan leaves of the queue: builds that are still wanted keep their place, keys that
/// come into view follow, and the second result counts the old builds that nobody asks for.
pub fn refresh_progressive_queue_incremental(
    view_revision: u64,
    old_pending: VecDeque<PendingTileBuild>,
    requested_keys: &[TileCacheKey],
    cached_keys: &[TileCacheKey],
) -> (result: (VecDeque<PendingTileBuild>, usize))
    ensures
        result.0@ == panned_queue(view_revision, old_pending@, requested_keys@, cached_keys@),
        result.1 == panned_drops(old_pending@, requested_keys@),
{
    let ghost stale = |key: TileCacheKey| !requested_keys@.contains(key);
    let ghost kept = |key: TileCacheKey|
        requested_keys@.contains(key) && !cached_keys@.contains(key);
    let ghost missing = |key: TileCacheKey| !cached_keys@.contains(key);
    let ghost none = Seq::<TileCacheKey>::empty();
    let ghost old_keys = pending_keys(old_pending@);
    let mut seen: Vec<TileCacheKey> = Vec::new();
    let mut dropped: usize = 0;
    let mut i: usize = 0;
    proof {
        reveal(Seq::filter);
        assert(old_keys.take(0).filter(stale) =~= none);
        assert(old_keys.take(0).filter(kept) =~= none);
    }
    while i < old_pending.len()
        invariant
            i <= old_pending@.len(),
            old_keys == pending_keys(old_pending@),
            stale == (|key: TileCacheKey| !requested_keys@.contains(key)),
            kept == (|key: TileCacheKey|
                requested_keys@.contains(key) && !cached_keys@.contains(key)),
            none == Seq::<TileCacheKey>::empty(),
            seen@ == seqs::append_new(none, old_keys.take(i as int).filter(kept)),
            dropped == old_keys.take(i as int).filter(stale).len(),
            dropped <= i,
        decreases old_pending@.len() - i,
    {
        let key = old_pending[i].tile_key;
        proof {
            assert(old_keys[i as int] == key);
            seqs::lemma_filter_take(old_keys, i as int, stale);
            seqs::lemma_filter_take(old_keys, i as int, kept);
            let before = old_keys.take(i as int).filter(kept);
            if kept(key) {
                assert(before.push(key).drop_last() =~= before);
            }
        }
        if !contains_tile_key(requested_keys, key) {
            dropped += 1;
        } else if !contains_tile_key(cached_keys, key) {
            if !contains_tile_key(seen.as_slice(), key) {
                seen.push(key);
            }
        }
        i += 1;
    }
    let ghost kept_keys = old_keys.filter(kept);
    assert(old_keys.take(i as int) =~= old_keys);
    let mut j: usize = 0;
    proof {
        reveal(Seq::filter);
        assert(requested_keys@.take(0).filter(missing) =~= none);
    }
    while j < requested_keys.len()
        invariant
            j <= requested_keys@.len(),
            missing == (|key: TileCacheKey| !cached_keys@.contains(key)),
            none == Seq::<TileCacheKey>::empty(),
            seen@ == seqs::append_new(
                seqs::append_new(none, kept_keys),
                requested_keys@.take(j as int).filter(missing),
            ),
        decreases requested_keys@.len() - j,
    {
        let key = requested_keys[j];
        proof {
            seqs::lemma_filter_take(requested_keys@, j as int, missing);
            let before = requested_keys@.take(j as int).filter(missing);
            if missing(key) {
                assert(before.push(key).drop_last() =~= before);
            }
        }
        if !contains_tile_key(cached_keys, key) {
            if !contains_tile_key(seen.as_slice(), key) {
                seen.push(key);
            }
        }
        j += 1;
    }
    proof {
        assert(requested_keys@.take(j as int) =~= requested_keys@);
        seqs::lemma_append_new_add(none, kept_keys, requested_keys@.filter(missing));
    }
    let mut pending: VecDeque<PendingTileBuild> = VecDeque::new();
    let mut k: usize = 0;
    while k < seen.len()
        invariant
            k <= seen@.len(),
            pending@ == builds_for(view_revision, seen@.take(k as int)),
        decreases seen@.len() - k,
    {
        assert(seen@.take(k + 1) =~= seen@.take(k as int).push(seen@[k as int]));
        pending.push_back(PendingTileBuild { view_revision, tile_key: seen[k] });
        assert(pending@ =~= builds_for(view_revision, seen@.take(k + 1)));
        k += 1;
    }
    assert(seen@.take(k as int) =~= seen@);
    (pending, dropped)
}

/// The layers of the requested keys, each once, in the order in which they are first asked for.
pub fn requested_layers_in_order(requested_keys: &[TileCacheKey]) -> (ordered: Vec<LayerId>)
    ensures
        ordered@ == seqs::distinct(key_layers(requested_keys@)),
{
    let ghost layers = key_layers(requested_keys@);
    let ghost none = Seq::<LayerId>::empty();
    let mut ordered: Vec<LayerId> = Vec::new();
    let mut i: usize = 0;
    assert(layers.take(0) =~= none);
    while i < requested_keys.len()
        invariant
            i <= requested_keys@.len(),
            layers == key_layers(requested_keys@),
            none == Seq::<LayerId>::empty(),
            ordered@ == seqs::append_new(none, layers.take(i as int)),
        decreases requested_keys@.len() - i,
    {
        let layer = requested_keys[i].layer;
        proof {
            assert(layers[i as int] == layer);
            seqs::lemma_append_new_take(none, layers, i as int);
        }
        if !contains_layer(ordered.as_slice(), layer) {
            ordered.push(layer);
        }
        i += 1;
    }
    assert(layers.take(i as int) =~= layers);
    ordered
}

/// Whether a layer is in the list.
pub fn contains_layer(layers: &[LayerId], layer: LayerId) -> (found: bool)
    ensures
        found == layers@.contains(layer),
{
    let mut i: usize = 0;
    while i < layers.len()
        invariant
            i <= layers@.len(),
            forall|j: int| 0 <= j < i ==> layers@[j] != layer,
        decreases layers@.len() - i,
    {
        if layers[i] == layer {
            return true;
        }
        i += 1;
    }
    false
}

/// Whether a build of the layer waits.
pub fn has_pending_for_layer(pending: &VecDeque<PendingTileBuild>, layer: LayerId) -> (found: bool)
    ensures
        found == pending_layers(pending@).contains(layer),
{
    let mut i: usize = 0;
    while i < pending.len()
        invariant
            i <= pending@.len(),
            forall|j: int| 0 <= j < i ==> pending_layers(pending@)[j] != layer,
        decreases pending@.len() - i,
    {
        if pending[i].tile_key.layer == layer {
            assert(pending_layers(pending@)[i as int] == layer);
            return true;
        }
        i += 1;
    }
    false
}

/// The layers of a list of pending builds.
pub open spec fn pending_layers(pending: Seq<PendingTileBuild>) -> Seq<LayerId> {
    pending.map_values(|item: PendingTileBuild| item.tile_key.layer)
}

/// The prefix of `layers` that may be shown: layers with nothing pending, up to the active layer
/// (shown too) or to the first other layer that still waits (not shown).
pub open spec fn revealed_prefix(
    layers: Seq<LayerId>,
    pending: Seq<LayerId>,
    active_layer: Option<LayerId>,
) -> Seq<LayerId>
    decreases layers.len(),
{
    if layers.len() == 0 {
        Seq::empty()
    } else if Some(layers[0]) == active_layer {
        seq![layers[0]]
    } else if pending.contains(layers[0]) {
        Seq::empty()
    } else {
        seq![layers[0]] + revealed_prefix(layers.skip(1), pending, active_layer)
    }
}

/// The layers that may be shown in this frame, in request order.
///
/// Layers are opened one after the other: a later layer stays hidden, even where it is cached,
/// until every layer before it has been completed.
pub fn compute_revealed_layers_for_display(
    requested_keys: &[TileCacheKey],
    pending: &VecDeque<PendingTileBuild>,
    active_layer: Option<LayerId>,
) -> (revealed: Vec<LayerId>)
    ensures
        revealed@ == revealed_prefix(
            seqs::distinct(key_layers(requested_keys@)),
            pending_layers(pending@),
            active_layer,
        ),
{
    let layers = requested_layers_in_order(requested_keys);
    let ghost waiting = pending_layers(pending@);
    let mut revealed: Vec<LayerId> = Vec::new();
    let mut i: usize = 0;
    assert(layers@.skip(0) =~= layers@);
    while i < layers.len()
        invariant
            i <= layers@.len(),
            waiting == pending_layers(pending@),
            layers@ == seqs::distinct(key_layers(requested_keys@)),
            revealed@ + revealed_prefix(layers@.skip(i as int), waiting, active_layer)
                == revealed_prefix(layers@, waiting, active_layer),
        decreases layers@.len() - i,
    {
        let layer = layers[i];
        let ghost rest = layers@.skip(i as int);
        assert(rest[0] == layer);
        assert(rest.skip(1) =~= layers@.skip(i + 1));
        if active_layer == Some(layer) {
            revealed.push(layer);
            assert(revealed@ =~= revealed_prefix(layers@, waiting, active_layer));
            return revealed;
        }
        if has_pending_for_layer(pending, layer) {
            assert(revealed@ =~= revealed_prefix(layers@, waiting, active_layer));
            return revealed;
        }
        let ghost before = revealed@;
        revealed.push(layer);
        assert(revealed@ + revealed_prefix(rest.skip(1), waiting, active_layer) =~= before + (
        seq![layer] + revealed_prefix(rest.skip(1), waiting, active_layer)));
        i += 1;
    }
    assert(revealed@ =~= revealed_prefix(layers@, waiting, active_layer));
    revealed
}

/// Whether a cached entry may be shown in this frame.
///
/// Entries that stayed in view through a pan are always shown. Those of the active layer are
/// shown up to its budget, those of another layer once the layer has been revealed.
pub fn should_display_cached_tile_key(
    tile_key: TileCacheKey,
    stable_overlap_keys: &[TileCacheKey],
    progressive_bypassed: bool,
    displayed_active_layer: Option<LayerId>,
    active_display_budget: usize,
    active_layer_visible_count: usize,
    revealed_layers: &[LayerId],
) -> (shown: bool)
    ensures
        shown == shows_cached_key(
            tile_key,
            stable_overlap_keys@,
            progressive_bypassed,
            displayed_active_layer,
            active_display_budget,
            active_layer_visible_count as nat,
            revealed_layers@,
        ),
{
    if progressive_bypassed || contains_tile_key(stable_overlap_keys, tile_key) {
        return true;
    }
    if displayed_active_layer == Some(tile_key.layer) {
        return active_display_budget == usize::MAX
            || active_layer_visible_count < active_display_budget;
    }
    contains_layer(revealed_layers, tile_key.layer)
}

/// When a cached entry is shown, where `visible` entries of the active layer are shown already.
pub open spec fn shows_cached_key(
    tile_key: TileCacheKey,
    stable_overlap_keys: Seq<TileCacheKey>,
    progressive_bypassed: bool,
    displayed_active_layer: Option<LayerId>,
    active_display_budget: usize,
    visible: nat,
    revealed_layers: Seq<LayerId>,
) -> bool {
    ||| progressive_bypassed
    ||| stable_overlap_keys.contains(tile_key)
    ||| if displayed_active_layer == Some(tile_key.layer) {
        active_display_budget == usize::MAX || visible < active_display_budget
    } else {
        revealed_layers.contains(tile_key.layer)
    }
}

/// The layer to build next: the current one while it has builds waiting, else the layer of the
/// first build in the queue.
pub open spec fn active_layer_for(
    current: Option<LayerId>,
    pending: Seq<PendingTileBuild>,
) -> Option<LayerId> {
    if current is Some && pending_layers(pending).contains(current->0) {
        current
    } else if pending.len() == 0 {
        None
    } else {
        Some(pending[0].tile_key.layer)
    }
}

/// The layer to build next; a layer is not left before all its builds are done.
pub fn next_active_progressive_layer(
    current: Option<LayerId>,
    pending: &VecDeque<PendingTileBuild>,
) -> (next: Option<LayerId>)
    ensures
        next == active_layer_for(current, pending@),
{
    if let Some(layer) = current {
        if has_pending_for_layer(pending, layer) {
            return Some(layer);
        }
    }
    if pending.len() == 0 {
        None
    } else {
        Some(pending[0].tile_key.layer)
    }
}

/// The place of the first build of the layer, or the length of the queue if there is none.
pub open spec fn first_of_layer(pending: Seq<PendingTileBuild>, layer: LayerId) -> int
    decreases pending.len(),
{
    if pending.len() == 0 {
        0
    } else if pending[0].tile_key.layer == layer {
        0
    } else {
        1 + first_of_layer(pending.skip(1), layer)
    }
}

/// `first_of_layer` is the least place that holds a build of the layer.
pub proof fn lemma_first_of_layer(pending: Seq<PendingTileBuild>, layer: LayerId, at: int)
    requires
        0 <= at <= pending.len(),
        at < pending.len() ==> pending[at].tile_key.layer == layer,
        forall|j: int| 0 <= j < at ==> pending[j].tile_key.layer != layer,
    ensures
        first_of_layer(pending, layer) == at,
    decreases at,
{
    if at > 0 {
        let rest = pending.skip(1);
        assert forall|j: int| 0 <= j < at - 1 implies rest[j].tile_key.layer != layer by {
            assert(rest[j] == pending[j + 1]);
        }
        lemma_first_of_layer(rest, layer, at - 1);
    }
}

/// Takes the first build of the layer out of the queue.
pub fn pop_next_pending_for_layer(
    pending: &mut VecDeque<PendingTileBuild>,
    layer: LayerId,
) -> (popped: Option<PendingTileBuild>)
    ensures
        popped is Some <==> pending_layers(old(pending)@).contains(layer),
        popped is None ==> final(pending)@ == old(pending)@,
        popped matches Some(item) ==> {
            let at = first_of_layer(old(pending)@, layer);
            &&& 0 <= at < old(pending)@.len()
            &&& item == old(pending)@[at]
            &&& item.tile_key.layer == layer
            &&& final(pending)@ == old(pending)@.remove(at)
        },
{
    let mut i: usize = 0;
    while i < pending.len()
        invariant
            i <= pending@.len(),
            pending@ == old(pending)@,
            forall|j: int| 0 <= j < i ==> #[trigger] pending@[j].tile_key.layer != layer,
        decreases pending@.len() - i,
    {
        if pending[i].tile_key.layer == layer {
            proof {
                lemma_first_of_layer(pending@, layer, i as int);
                assert(pending_layers(pending@)[i as int] == layer);
            }
            return pending.remove(i);
        }
        i += 1;
    }
    assert forall|j: int| 0 <= j < pending@.len() implies pending_layers(pending@)[j] != layer by {
        assert(pending@[j].tile_key.layer != layer);
    }
    None
}

/// How many builds of the layer wait.
pub open spec fn count_for_layer(pending: Seq<PendingTileBuild>, layer: LayerId) -> nat {
    pending.filter(|item: PendingTileBuild| item.tile_key.layer == layer).len()
}

/// How many builds of the active layer wait; none where no layer is active.
pub fn active_layer_pending_count(
    active_layer: Option<LayerId>,
    pending: &VecDeque<PendingTileBuild>,
) -> (count: usize)
    ensures
        count == (match active_layer {
            Some(layer) => count_for_layer(pending@, layer),
            None => 0,
        }),
{
    match active_layer {
        None => 0,
        Some(layer) => {
            let ghost of_layer = |item: PendingTileBuild| item.tile_key.layer == layer;
            let mut count: usize = 0;
            let mut i: usize = 0;
            proof {
                reveal(Seq::filter);
            }
            while i < pending.len()
                invariant
                    i <= pending@.len(),
                    of_layer == (|item: PendingTileBuild| item.tile_key.layer == layer),
                    count == pending@.take(i as int).filter(of_layer).len(),
                    count <= i,
                decreases pending@.len() - i,
            {
                proof {
                    seqs::lemma_filter_take(pending@, i as int, of_layer);
                }
                if pending[i].tile_key.layer == layer {
                    count += 1;
                }
                i += 1;
            }
            assert(pending@.take(i as int) =~= pending@);
            count
        },
    }
}

} // verus!
