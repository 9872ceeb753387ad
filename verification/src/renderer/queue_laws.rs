//! What holds of requests, the queue of builds and the cache.

use crate::renderer::eviction;
use crate::renderer::eviction::TileUsage;
use crate::renderer::queue;
use crate::renderer::queue::{PendingTileBuild, TileCacheKey};
use crate::renderer::requests;
use crate::scene::LayerId;
use crate::seqs;
use vstd::prelude::*;

verus! {

/// Whether an element turns up before another does.
pub open spec fn turns_up_before<A>(s: Seq<A>, a: A, b: A) -> bool {
    exists|k: int|
        0 <= k < s.len() && #[trigger] s[k] == a && forall|m: int| 0 <= m <= k ==> s[m] != b
}

pub proof fn lemma_distinct_order<A>(s: Seq<A>, i: int, j: int)
    requires
        0 <= i < j < seqs::distinct(s).len(),
    ensures
        turns_up_before(s, seqs::distinct(s)[i], seqs::distinct(s)[j]),
    decreases s.len(),
{
    let d = seqs::distinct(s);
    let init = s.drop_last();
    let head = seqs::distinct(init);
    seqs::lemma_append_new(Seq::<A>::empty(), init);
    if j < head.len() {
        lemma_distinct_order(init, i, j);
        let k = choose|k: int|
            0 <= k < init.len() && #[trigger] init[k] == d[i] && forall|m: int|
                0 <= m <= k ==> init[m] != d[j];
        assert(s[k] == d[i]);
        assert forall|m: int| 0 <= m <= k implies s[m] != d[j] by {
            assert(init[m] == s[m]);
        }
    } else {
        assert(d[j] == s.last());
        assert(head.contains(d[i]));
        assert(init.contains(d[i]));
        let k = choose|k: int| 0 <= k < init.len() && init[k] == d[i];
        assert(s[k] == d[i]);
        assert forall|m: int| 0 <= m <= k implies s[m] != d[j] by {
            assert(init[m] == s[m]);
            assert(init.contains(init[m]));
        }
    }
}

/// A filtered list keeps its order.
proof fn lemma_filter_order<A>(s: Seq<A>, p: spec_fn(A) -> bool, i: int, j: int) -> (at: (int, int))
    requires
        0 <= i < j < s.filter(p).len(),
    ensures
        0 <= at.0 < at.1 < s.len(),
        s[at.0] == s.filter(p)[i],
        s[at.1] == s.filter(p)[j],
    decreases s.len(),
{
    reveal(Seq::filter);
    let init = s.drop_last();
    let head = init.filter(p);
    if j < head.len() {
        let at = lemma_filter_order(init, p, i, j);
        assert(s[at.0] == init[at.0] && s[at.1] == init[at.1]);
        at
    } else {
        assert(s.filter(p)[j] == s.last());
        assert(head.contains(head[i]));
        seqs::lemma_filter_contains(init, p, head[i]);
        let k = choose|k: int| 0 <= k < init.len() && init[k] == head[i];
        assert(s[k] == head[i]);
        (k, s.len() - 1)
    }
}

/// The queue of a new view holds a build for every requested entry that is not cached, for no
/// other, in the order of the requests and all of the view's revision.
pub proof fn law_new_view_queues_what_is_missing(
    view_revision: u64,
    requested: Seq<TileCacheKey>,
    cached: Seq<TileCacheKey>,
    key: TileCacheKey,
    i: int,
    j: int,
)
    ensures
        ({
            let pending = queue::fresh_queue(view_revision, requested, cached);
            &&& queue::pending_keys(pending).contains(key) <==> requested.contains(key)
                && !cached.contains(key)
            &&& 0 <= i < pending.len() ==> pending[i].view_revision == view_revision
            &&& 0 <= i < j < pending.len() ==> exists|a: int, b: int|
                0 <= a < b < requested.len() && #[trigger] requested[a] == pending[i].tile_key
                    && #[trigger] requested[b] == pending[j].tile_key
        }),
{
    let missing = |k: TileCacheKey| !cached.contains(k);
    let kept = requested.filter(missing);
    let pending = queue::fresh_queue(view_revision, requested, cached);
    assert(queue::pending_keys(pending) =~= kept);
    seqs::lemma_filter_contains(requested, missing, key);
    if 0 <= i < j < pending.len() {
        let at = lemma_filter_order(requested, missing, i, j);
        assert(requested[at.0] == pending[i].tile_key);
        assert(requested[at.1] == pending[j].tile_key);
    }
}

/// The queue after a pan holds one build for every requested entry that is not cached and no other:
/// those that waited before come first, in their order, then the others, in that of the requests.
pub proof fn law_pan_keeps_the_queue_in_order(
    view_revision: u64,
    pending: Seq<PendingTileBuild>,
    requested: Seq<TileCacheKey>,
    cached: Seq<TileCacheKey>,
    key: TileCacheKey,
    i: int,
    j: int,
)
    ensures
        ({
            let after = queue::panned_queue(view_revision, pending, requested, cached);
            let before = queue::pending_keys(pending);
            &&& queue::pending_keys(after).contains(key) <==> requested.contains(key)
                && !cached.contains(key)
            &&& 0 <= i < after.len() ==> after[i].view_revision == view_revision
            &&& 0 <= i < j < after.len() ==> {
                let a = after[i].tile_key;
                let b = after[j].tile_key;
                &&& a != b
                &&& before.contains(b) ==> turns_up_before(before, a, b)
                &&& !before.contains(a) ==> !before.contains(b) && turns_up_before(requested, a, b)
            }
        }),
{
    let before = queue::pending_keys(pending);
    let wanted = |k: TileCacheKey| requested.contains(k) && !cached.contains(k);
    let missing = |k: TileCacheKey| !cached.contains(k);
    let first = before.filter(wanted);
    let second = requested.filter(missing);
    let all = first + second;
    let keys = seqs::distinct(all);
    let after = queue::panned_queue(view_revision, pending, requested, cached);
    assert(queue::pending_keys(after) =~= keys);
    seqs::lemma_append_new(Seq::<TileCacheKey>::empty(), all);
    assert forall|k: TileCacheKey| #[trigger] all.contains(k) <==> requested.contains(k)
        && !cached.contains(k) by {
        seqs::lemma_filter_contains(before, wanted, k);
        seqs::lemma_filter_contains(requested, missing, k);
        if all.contains(k) {
            let m = choose|m: int| 0 <= m < all.len() && all[m] == k;
            if m < first.len() {
                assert(first[m] == k);
            } else {
                assert(second[m - first.len()] == k);
            }
        }
        if second.contains(k) {
            let m = choose|m: int| 0 <= m < second.len() && second[m] == k;
            assert(all[first.len() + m] == k);
        }
    }
    assert(keys.contains(key) <==> all.contains(key));
    if 0 <= i < j < after.len() {
        let a = after[i].tile_key;
        let b = after[j].tile_key;
        assert(keys[i] == a && keys[j] == b);
        assert(keys.contains(a) && keys.contains(b));
        lemma_distinct_order(all, i, j);
        let k = choose|k: int|
            0 <= k < all.len() && #[trigger] all[k] == a && forall|m: int|
                0 <= m <= k ==> all[m] != b;
        seqs::lemma_filter_contains(before, wanted, a);
        seqs::lemma_filter_contains(before, wanted, b);
        if before.contains(b) {
            assert(first.contains(b));
            let y = choose|y: int| 0 <= y < first.len() && first[y] == b;
            assert(all[y] == b);
            assert(k < y);
            assert(first[k] == a);
            assert forall|m: int| 0 <= m <= k implies first[m] != b by {
                assert(all[m] == first[m]);
            }
            lemma_filter_turns_up(before, wanted, k, b);
        }
        if !before.contains(a) {
            if k < first.len() {
                assert(first[k] == a);
                assert(first.contains(a));
            }
            assert(second[k - first.len()] == a);
            if before.contains(b) {
                assert(first.contains(b));
                let y = choose|y: int| 0 <= y < first.len() && first[y] == b;
                assert(all[y] == b);
            }
            assert forall|m: int| 0 <= m <= k - first.len() implies second[m] != b by {
                assert(all[first.len() + m] == second[m]);
            }
            lemma_filter_turns_up(requested, missing, k - first.len(), b);
        }
    }
}

/// What turns up in a filtered list before something that the filter lets through does so in the
/// list.
proof fn lemma_filter_turns_up<A>(s: Seq<A>, p: spec_fn(A) -> bool, k: int, b: A)
    requires
        0 <= k < s.filter(p).len(),
        forall|m: int| 0 <= m <= k ==> s.filter(p)[m] != b,
        p(b),
    ensures
        turns_up_before(s, s.filter(p)[k], b),
    decreases s.len(),
{
    reveal(Seq::filter);
    let init = s.drop_last();
    let head = init.filter(p);
    let all = s.filter(p);
    let a = all[k];
    if k < head.len() {
        assert(head[k] == a);
        assert forall|m: int| 0 <= m <= k implies head[m] != b by {
            assert(all[m] == head[m]);
        }
        lemma_filter_turns_up(init, p, k, b);
        let x = choose|x: int|
            0 <= x < init.len() && #[trigger] init[x] == a && forall|m: int|
                0 <= m <= x ==> init[m] != b;
        assert(s[x] == a);
        assert forall|m: int| 0 <= m <= x implies s[m] != b by {
            assert(init[m] == s[m]);
        }
    } else {
        assert(a == s.last());
        let x = s.len() - 1;
        assert(s[x] == a);
        assert forall|m: int| 0 <= m <= x implies s[m] != b by {
            if s[m] == b {
                if m < x {
                    assert(init[m] == b);
                    assert(init.contains(b));
                    seqs::lemma_filter_contains(init, p, b);
                    let y = choose|y: int| 0 <= y < head.len() && head[y] == b;
                    assert(all[y] == b);
                } else {
                    assert(all[k] == b);
                }
            }
        }
    }
}

/// After a pan the entries that were asked for before come first, in their order, then the new
/// ones, in the order in which they are asked for.
pub proof fn law_pan_keeps_the_requests_in_order(
    previous: Seq<TileCacheKey>,
    next: Seq<TileCacheKey>,
    i: int,
    j: int,
)
    requires
        0 <= i < j < queue::panned_requests(previous, next).len(),
    ensures
        ({
            let a = queue::panned_requests(previous, next)[i];
            let b = queue::panned_requests(previous, next)[j];
            &&& a != b
            &&& previous.contains(b) ==> turns_up_before(previous, a, b)
            &&& !previous.contains(a) ==> !previous.contains(b) && turns_up_before(next, a, b)
        }),
{
    let shared = |k: TileCacheKey| next.contains(k);
    let first = previous.filter(shared);
    let all = first + next;
    let keys = seqs::distinct(all);
    let a = keys[i];
    let b = keys[j];
    seqs::lemma_append_new(Seq::<TileCacheKey>::empty(), all);
    assert(keys.contains(a) && keys.contains(b));
    lemma_distinct_order(all, i, j);
    let k = choose|k: int|
        0 <= k < all.len() && #[trigger] all[k] == a && forall|m: int| 0 <= m <= k ==> all[m] != b;
    seqs::lemma_filter_contains(previous, shared, a);
    seqs::lemma_filter_contains(previous, shared, b);
    assert(next.contains(b)) by {
        let y = choose|y: int| 0 <= y < all.len() && all[y] == b;
        if y < first.len() {
            assert(first[y] == b);
            assert(first.contains(b));
        } else {
            assert(next[y - first.len()] == b);
        }
    }
    assert(next.contains(a)) by {
        if k < first.len() {
            assert(first[k] == a);
            assert(first.contains(a));
        } else {
            assert(next[k - first.len()] == a);
        }
    }
    if previous.contains(b) {
        assert(first.contains(b));
        let y = choose|y: int| 0 <= y < first.len() && first[y] == b;
        assert(all[y] == b);
        assert(first[k] == a);
        assert forall|m: int| 0 <= m <= k implies first[m] != b by {
            assert(all[m] == first[m]);
        }
        lemma_filter_turns_up(previous, shared, k, b);
    }
    if !previous.contains(a) {
        if k < first.len() {
            assert(first[k] == a);
            assert(first.contains(a));
        }
        if previous.contains(b) {
            assert(first.contains(b));
            let y = choose|y: int| 0 <= y < first.len() && first[y] == b;
            assert(all[y] == b);
        }
        let x = k - first.len();
        assert(next[x] == a);
        assert forall|m: int| 0 <= m <= x implies next[m] != b by {
            assert(all[first.len() + m] == next[m]);
        }
    }
}

/// A new view gives up as many builds as there are entries in the queue that it does not ask for,
/// each counted once; a pan counts each build.
pub proof fn law_given_up_builds_are_counted(
    pending: Seq<PendingTileBuild>,
    requested: Seq<TileCacheKey>,
    item: PendingTileBuild,
)
    ensures
        queue::fresh_drops(pending, requested) == queue::pending_keys(pending).to_set().difference(
            requested.to_set(),
        ).len(),
        queue::panned_drops(pending.push(item), requested) == queue::panned_drops(
            pending,
            requested,
        ) + (if requested.contains(item.tile_key) {
            0int
        } else {
            1int
        }),
        queue::panned_drops(Seq::empty(), requested) == 0,
{
    let unwanted = |k: TileCacheKey| !requested.contains(k);
    let keys = queue::pending_keys(pending);
    let gone = keys.filter(unwanted);
    let once = seqs::distinct(gone);
    seqs::lemma_append_new(Seq::<TileCacheKey>::empty(), gone);
    assert(once.to_set() =~= keys.to_set().difference(requested.to_set())) by {
        assert forall|k: TileCacheKey| once.to_set().contains(k) <==> keys.to_set().difference(
            requested.to_set(),
        ).contains(k) by {
            seqs::lemma_filter_contains(keys, unwanted, k);
            assert(once.contains(k) <==> gone.contains(k));
        }
    }
    once.unique_seq_to_set();
    let more = queue::pending_keys(pending.push(item));
    assert(more.drop_last() =~= keys);
    assert(more.last() == item.tile_key);
    reveal(Seq::filter);
    assert(queue::pending_keys(Seq::<PendingTileBuild>::empty()).len() == 0);
}

/// Layers are opened one after the other: those that are shown are the first ones up to the active
/// layer, or up to the first one that still waits, which is not shown.
pub proof fn law_layers_open_in_order(
    all: Seq<LayerId>,
    pending: Seq<LayerId>,
    active: Option<LayerId>,
)
    ensures
        ({
            let shown = queue::revealed_prefix(all, pending, active);
            let n = shown.len() as int;
            &&& n <= all.len()
            &&& shown == all.take(n)
            &&& forall|k: int|
                0 <= k < n ==> Some(#[trigger] all[k]) == active || !pending.contains(all[k])
            &&& forall|k: int| 0 <= k < n - 1 ==> Some(#[trigger] all[k]) != active
            &&& n < all.len() ==> (n > 0 && Some(all[n - 1]) == active) || (Some(all[n]) != active
                && pending.contains(all[n]))
        }),
    decreases all.len(),
{
    let shown = queue::revealed_prefix(all, pending, active);
    let n = shown.len() as int;
    if all.len() == 0 {
        assert(shown =~= all.take(0));
    } else if Some(all[0]) == active {
        assert(shown =~= all.take(1));
    } else if pending.contains(all[0]) {
        assert(shown =~= all.take(0));
    } else {
        let rest = all.skip(1);
        law_layers_open_in_order(rest, pending, active);
        let below = queue::revealed_prefix(rest, pending, active);
        assert(shown =~= all.take(n)) by {
            assert forall|k: int| 0 <= k < n implies shown[k] == all[k] by {
                if k > 0 {
                    assert(below[k - 1] == rest[k - 1]);
                }
            }
        }
        assert forall|k: int| 0 <= k < n implies Some(#[trigger] all[k]) == active
            || !pending.contains(all[k]) by {
            if k > 0 {
                assert(rest[k - 1] == all[k]);
            }
        }
        assert forall|k: int| 0 <= k < n - 1 implies Some(#[trigger] all[k]) != active by {
            if k > 0 {
                assert(rest[k - 1] == all[k]);
            }
        }
        if n < all.len() {
            assert(rest[n - 1] == all[n]);
            if n > 1 {
                assert(rest[n - 2] == all[n - 1]);
            }
        }
    }
}

/// Which cached entries are shown: all where a frame completes everything, those that stay in view
/// through a pan, of the active layer as many as its budget allows, and of the others those of open
/// layers.
pub proof fn law_which_cached_entries_are_shown(
    key: TileCacheKey,
    overlap: Seq<TileCacheKey>,
    active: Option<LayerId>,
    budget: usize,
    shown: nat,
    open: Seq<LayerId>,
)
    ensures
        queue::shows_cached_key(key, overlap, true, active, budget, shown, open),
        overlap.contains(key) ==> queue::shows_cached_key(
            key,
            overlap,
            false,
            active,
            budget,
            shown,
            open,
        ),
        !overlap.contains(key) && active == Some(key.layer) ==> (queue::shows_cached_key(
            key,
            overlap,
            false,
            active,
            budget,
            shown,
            open,
        ) <==> budget == usize::MAX || shown < budget),
        !overlap.contains(key) && active != Some(key.layer) ==> (queue::shows_cached_key(
            key,
            overlap,
            false,
            active,
            budget,
            shown,
            open,
        ) <==> open.contains(key.layer)),
{
}

/// The layer that is built is not left before its builds are done; then it is that of the build
/// that waits first, and there is none where none waits.
pub proof fn law_layers_are_finished_first(
    current: Option<LayerId>,
    pending: Seq<PendingTileBuild>,
    k: int,
)
    ensures
        0 <= k < pending.len() && current == Some(pending[k].tile_key.layer)
            ==> queue::active_layer_for(current, pending) == current,
        (current matches Some(layer) ==> forall|i: int|
            0 <= i < pending.len() ==> (#[trigger] pending[i]).tile_key.layer != layer) && pending.len()
            > 0 ==> queue::active_layer_for(current, pending) == Some(pending[0].tile_key.layer),
        pending.len() == 0 ==> queue::active_layer_for(current, pending) is None,
{
    let layers = queue::pending_layers(pending);
    if 0 <= k < pending.len() {
        assert(layers[k] == pending[k].tile_key.layer);
    }
    if current is Some && layers.contains(current->0) {
        let i = choose|i: int| 0 <= i < layers.len() && layers[i] == current->0;
        assert(pending[i].tile_key.layer == current->0);
    }
}

/// The first build of a layer is the one before which none is of that layer; a layer has as many
/// builds as the queue holds.
pub proof fn law_first_build_of_a_layer(
    pending: Seq<PendingTileBuild>,
    layer: LayerId,
    item: PendingTileBuild,
)
    ensures
        ({
            let at = queue::first_of_layer(pending, layer);
            &&& 0 <= at <= pending.len()
            &&& at < pending.len() ==> pending[at].tile_key.layer == layer
            &&& forall|i: int| 0 <= i < at ==> (#[trigger] pending[i]).tile_key.layer != layer
        }),
        queue::count_for_layer(pending.push(item), layer) == queue::count_for_layer(pending, layer)
            + (if item.tile_key.layer == layer {
            1int
        } else {
            0int
        }),
        queue::count_for_layer(Seq::empty(), layer) == 0,
    decreases pending.len(),
{
    if pending.len() > 0 && pending[0].tile_key.layer != layer {
        let rest = pending.skip(1);
        law_first_build_of_a_layer(rest, layer, item);
        let at = queue::first_of_layer(pending, layer);
        assert forall|i: int| 0 <= i < at implies (#[trigger] pending[i]).tile_key.layer
            != layer by {
            if i > 0 {
                assert(rest[i - 1] == pending[i]);
            }
        }
    }
    reveal(Seq::filter);
    assert(pending.push(item).drop_last() =~= pending);
}

/// Whether no key is there twice.
pub open spec fn keys_differ(usage: Seq<TileUsage>) -> bool {
    forall|i: int, j: int|
        0 <= i < j < usage.len() ==> (#[trigger] usage[i]).key != (#[trigger] usage[j]).key
}

proof fn lemma_victims(
    usage: Seq<TileUsage>,
    capacity: usize,
    byte_budget: usize,
    protected: Seq<TileCacheKey>,
) -> (sorted: Seq<(u64, TileUsage)>)
    ensures
        ({
            let victims = eviction::eviction_victims(usage, capacity, byte_budget, protected);
            &&& sorted == seqs::sort_ranked(eviction::eviction_candidates(usage, protected))
            &&& victims.len() <= sorted.len()
            &&& forall|i: int| 0 <= i < victims.len() ==> #[trigger] victims[i] == sorted[i].1.key
            &&& seqs::ranks_ascend(sorted)
            &&& forall|e: TileUsage|
                #![trigger sorted.contains((e.last_used_tick, e))]
                sorted.contains((e.last_used_tick, e)) <==> usage.contains(e)
                    && !protected.contains(e.key)
            &&& forall|k: int|
                0 <= k < sorted.len() ==> (#[trigger] sorted[k]).0 == sorted[k].1.last_used_tick
        }),
{
    eviction::law_eviction_is_oldest_first(usage, capacity, byte_budget, protected);
    let free = |entry: TileUsage| !protected.contains(entry.key);
    let kept = usage.filter(free);
    let candidates = eviction::eviction_candidates(usage, protected);
    let sorted = seqs::sort_ranked(candidates);
    seqs::lemma_sort_ranked(candidates);
    assert forall|e: TileUsage|
        #![trigger sorted.contains((e.last_used_tick, e))]
        sorted.contains((e.last_used_tick, e)) <==> usage.contains(e) && !protected.contains(
            e.key,
        ) by {
        seqs::lemma_filter_contains(usage, free, e);
        assert(sorted.contains((e.last_used_tick, e)) <==> candidates.contains(
            (e.last_used_tick, e),
        ));
        if candidates.contains((e.last_used_tick, e)) {
            let k = choose|k: int|
                0 <= k < candidates.len() && candidates[k] == (e.last_used_tick, e);
            assert(kept[k] == e);
        }
        if kept.contains(e) {
            let k = choose|k: int| 0 <= k < kept.len() && kept[k] == e;
            assert(candidates[k] == (e.last_used_tick, e));
        }
    }
    assert forall|k: int| 0 <= k < sorted.len() implies (#[trigger] sorted[k]).0
        == sorted[k].1.last_used_tick by {
        assert(sorted.contains(sorted[k]));
        assert(candidates.contains(sorted[k]));
        let m = choose|m: int| 0 <= m < candidates.len() && candidates[m] == sorted[k];
        assert(candidates[m].0 == kept[m].last_used_tick);
    }
    sorted
}

/// Only entries that are there and not in view are dropped, and the longest unused go first: none
/// that may be dropped and stays was used before one that goes.
pub proof fn law_longest_unused_entries_go_first(
    usage: Seq<TileUsage>,
    capacity: usize,
    byte_budget: usize,
    protected: Seq<TileCacheKey>,
    i: int,
    j: int,
)
    requires
        keys_differ(usage),
        0 <= i < usage.len(),
        0 <= j < usage.len(),
    ensures
        ({
            let victims = eviction::eviction_victims(usage, capacity, byte_budget, protected);
            &&& forall|k: int|
                0 <= k < victims.len() ==> !protected.contains(#[trigger] victims[k]) && exists|
                    m: int,
                | 0 <= m < usage.len() && (#[trigger] usage[m]).key == victims[k]
            &&& victims.contains(usage[i].key) && !victims.contains(usage[j].key)
                && !protected.contains(usage[j].key) ==> usage[i].last_used_tick
                <= usage[j].last_used_tick
        }),
{
    let victims = eviction::eviction_victims(usage, capacity, byte_budget, protected);
    let sorted = lemma_victims(usage, capacity, byte_budget, protected);
    assert forall|k: int| 0 <= k < victims.len() implies !protected.contains(
        #[trigger] victims[k],
    ) && exists|m: int| 0 <= m < usage.len() && (#[trigger] usage[m]).key == victims[k] by {
        let e = sorted[k].1;
        assert(sorted[k] == (e.last_used_tick, e));
        assert(sorted.contains((e.last_used_tick, e)));
        let m = choose|m: int| 0 <= m < usage.len() && usage[m] == e;
        assert(usage[m].key == victims[k]);
    }
    let u = usage[i];
    let w = usage[j];
    if victims.contains(u.key) && !victims.contains(w.key) && !protected.contains(w.key) {
        let a = choose|a: int| 0 <= a < victims.len() && victims[a] == u.key;
        let e = sorted[a].1;
        assert(sorted[a] == (e.last_used_tick, e));
        assert(sorted.contains((e.last_used_tick, e)));
        let m = choose|m: int| 0 <= m < usage.len() && usage[m] == e;
        assert(m == i) by {
            if m < i {
                assert(usage[m].key != usage[i].key);
            } else if i < m {
                assert(usage[i].key != usage[m].key);
            }
        }
        assert(usage.contains(w));
        assert(sorted.contains((w.last_used_tick, w)));
        let b = choose|b: int| 0 <= b < sorted.len() && sorted[b] == (w.last_used_tick, w);
        assert(b >= victims.len()) by {
            if b < victims.len() {
                assert(victims[b] == w.key);
            }
        }
        assert(sorted[a].0 <= sorted[b].0);
    }
}

/// The bytes that the entries with these keys take.
pub open spec fn bytes_of(usage: Seq<TileUsage>, keys: Seq<TileCacheKey>) -> int
    decreases keys.len(),
{
    if keys.len() == 0 {
        0
    } else {
        bytes_of(usage, keys.drop_last()) + size_of_key(usage, keys.last())
    }
}

/// The bytes that the entry with the key takes.
pub open spec fn size_of_key(usage: Seq<TileUsage>, key: TileCacheKey) -> int {
    let i = choose|i: int| 0 <= i < usage.len() && (#[trigger] usage[i]).key == key;
    usage[i].byte_size as int
}

/// Whether the cache is within both limits once these entries are dropped.
pub open spec fn fits_without(
    usage: Seq<TileUsage>,
    keys: Seq<TileCacheKey>,
    capacity: usize,
    byte_budget: usize,
) -> bool {
    usage.len() - keys.len() <= capacity && eviction::usage_bytes(usage) - bytes_of(usage, keys)
        <= byte_budget
}

proof fn lemma_candidate_bytes_last(candidates: Seq<(u64, TileUsage)>)
    requires
        candidates.len() > 0,
    ensures
        eviction::candidate_bytes(candidates) == eviction::candidate_bytes(candidates.drop_last())
            + candidates.last().1.byte_size,
    decreases candidates.len(),
{
    if candidates.len() > 1 {
        lemma_candidate_bytes_last(candidates.skip(1));
        assert(candidates.skip(1).drop_last() =~= candidates.drop_last().skip(1));
        assert(candidates.drop_last()[0] == candidates[0]);
        assert(candidates.skip(1).last() == candidates.last());
    } else {
        assert(eviction::candidate_bytes(candidates.skip(1)) == 0);
        assert(eviction::candidate_bytes(candidates.drop_last()) == 0);
        assert(candidates[0] == candidates.last());
    }
}

/// Dropping stops as soon as the cache is within both limits, and not before, unless nothing more
/// may be dropped.
pub proof fn law_no_more_is_dropped_than_needed(
    usage: Seq<TileUsage>,
    capacity: usize,
    byte_budget: usize,
    protected: Seq<TileCacheKey>,
)
    requires
        keys_differ(usage),
    ensures
        ({
            let victims = eviction::eviction_victims(usage, capacity, byte_budget, protected);
            &&& fits_without(usage, victims, capacity, byte_budget) || forall|i: int|
                0 <= i < usage.len() && !protected.contains((#[trigger] usage[i]).key)
                    ==> victims.contains(usage[i].key)
            &&& forall|n: int|
                0 <= n < victims.len() ==> !#[trigger] fits_without(
                    usage,
                    victims.take(n),
                    capacity,
                    byte_budget,
                )
        }),
{
    let victims = eviction::eviction_victims(usage, capacity, byte_budget, protected);
    let sorted = lemma_victims(usage, capacity, byte_budget, protected);
    eviction::law_eviction_restores_limits(usage, capacity, byte_budget, protected);
    assert forall|n: int| 0 <= n <= victims.len() implies bytes_of(usage, #[trigger] victims.take(n))
        == eviction::candidate_bytes(sorted.take(n)) by {
        lemma_bytes_of(usage, protected, victims, sorted, n);
    }
    assert(victims.take(victims.len() as int) =~= victims);
    if victims.len() == sorted.len() {
        assert forall|i: int| 0 <= i < usage.len() && !protected.contains(
            (#[trigger] usage[i]).key,
        ) implies victims.contains(usage[i].key) by {
            let w = usage[i];
            assert(usage.contains(w));
            assert(sorted.contains((w.last_used_tick, w)));
            let b = choose|b: int| 0 <= b < sorted.len() && sorted[b] == (w.last_used_tick, w);
            assert(victims[b] == w.key);
        }
    }
    assert forall|n: int| 0 <= n < victims.len() implies !#[trigger] fits_without(
        usage,
        victims.take(n),
        capacity,
        byte_budget,
    ) by {
        lemma_still_too_much(
            usage.len() as int,
            eviction::usage_bytes(usage),
            sorted,
            capacity,
            byte_budget,
            n,
        );
        assert(bytes_of(usage, victims.take(n)) == eviction::candidate_bytes(sorted.take(n)));
    }
}

proof fn lemma_bytes_of(
    usage: Seq<TileUsage>,
    protected: Seq<TileCacheKey>,
    victims: Seq<TileCacheKey>,
    sorted: Seq<(u64, TileUsage)>,
    n: int,
)
    requires
        keys_differ(usage),
        0 <= n <= victims.len() <= sorted.len(),
        forall|i: int| 0 <= i < victims.len() ==> #[trigger] victims[i] == sorted[i].1.key,
        forall|e: TileUsage|
            #![trigger sorted.contains((e.last_used_tick, e))]
            sorted.contains((e.last_used_tick, e)) <==> usage.contains(e) && !protected.contains(
                e.key,
            ),
        forall|k: int|
            0 <= k < sorted.len() ==> (#[trigger] sorted[k]).0 == sorted[k].1.last_used_tick,
    ensures
        bytes_of(usage, victims.take(n)) == eviction::candidate_bytes(sorted.take(n)),
    decreases n,
{
    if n > 0 {
        lemma_bytes_of(usage, protected, victims, sorted, n - 1);
        assert(victims.take(n).drop_last() =~= victims.take(n - 1));
        assert(sorted.take(n).drop_last() =~= sorted.take(n - 1));
        lemma_candidate_bytes_last(sorted.take(n));
        let e = sorted[n - 1].1;
        assert(sorted[n - 1] == (e.last_used_tick, e));
        assert(sorted.contains((e.last_used_tick, e)));
        let m = choose|m: int| 0 <= m < usage.len() && usage[m] == e;
        assert(usage[m].key == victims[n - 1]);
        let i = choose|i: int| 0 <= i < usage.len() && (#[trigger] usage[i]).key == victims[n - 1];
        if i < m {
            assert(usage[i].key != usage[m].key);
        } else if m < i {
            assert(usage[m].key != usage[i].key);
        }
    } else {
        assert(victims.take(0).len() == 0);
        assert(sorted.take(0).len() == 0);
    }
}

proof fn lemma_still_too_much(
    entries: int,
    bytes: int,
    candidates: Seq<(u64, TileUsage)>,
    capacity: usize,
    byte_budget: usize,
    n: int,
)
    requires
        0 <= n < eviction::evicted_until_fit(
            entries,
            bytes,
            candidates,
            capacity,
            byte_budget,
        ).len(),
    ensures
        n < candidates.len(),
        entries - n > capacity || bytes - eviction::candidate_bytes(candidates.take(n))
            > byte_budget,
    decreases candidates.len(),
{
    if n > 0 {
        let rest = candidates.skip(1);
        let left = bytes - candidates[0].1.byte_size;
        lemma_still_too_much(entries - 1, left, rest, capacity, byte_budget, n - 1);
        assert(candidates.take(n).skip(1) =~= rest.take(n - 1));
        assert(candidates.take(n)[0] == candidates[0]);
    } else {
        assert(candidates.take(0).len() == 0);
    }
}

/// The bytes of a cache are those of its entries together.
pub proof fn law_bytes_add_up(usage: Seq<TileUsage>, entry: TileUsage)
    ensures
        eviction::usage_bytes(usage.push(entry)) == eviction::usage_bytes(usage) + entry.byte_size,
        eviction::usage_bytes(Seq::empty()) == 0,
{
    assert(usage.push(entry).drop_last() =~= usage);
}

/// Of the shapes of a tile those are drawn whole that were not cut ahead of drawing, in order.
pub proof fn law_cut_shapes_are_not_drawn_whole(bucket: Seq<u32>, cut: Seq<u32>, shape: u32)
    ensures
        requests::uncut(bucket, cut).contains(shape) <==> bucket.contains(shape) && !cut.contains(
            shape,
        ),
        requests::uncut(bucket, cut) == bucket.filter(|s: u32| !cut.contains(s)),
    decreases bucket.len(),
{
    let free = |s: u32| !cut.contains(s);
    reveal(Seq::filter);
    if bucket.len() > 0 {
        law_cut_shapes_are_not_drawn_whole(bucket.drop_last(), cut, shape);
    } else {
        assert(requests::uncut(bucket, cut) =~= bucket.filter(free));
    }
    seqs::lemma_filter_contains(bucket, free, shape);
}

/// While something waits, what was in view before stays in view, behind what is shown now; once
/// nothing waits only the latter is in view.
pub proof fn law_views_change_without_gaps(
    current: Vec<TileCacheKey>,
    previous: &[TileCacheKey],
    waiting: usize,
    result: Vec<TileCacheKey>,
    key: TileCacheKey,
)
    requires
        call_ensures(
            queue::stabilize_visible_tile_keys_during_transition,
            (current, previous, waiting),
            result,
        ),
    ensures
        waiting == 0 ==> result@ == current@,
        waiting > 0 ==> (result@.contains(key) <==> current@.contains(key) || previous@.contains(
            key,
        )),
        current@.is_prefix_of(result@),
        current@.no_duplicates() ==> result@.no_duplicates(),
{
    seqs::lemma_append_new(current@, previous@);
}

/// A build waits once: one for a key that waits is not added, any other is added at the end.
pub proof fn law_builds_wait_once(
    before: std::collections::VecDeque<PendingTileBuild>,
    item: PendingTileBuild,
    after: std::collections::VecDeque<PendingTileBuild>,
    i: int,
)
    requires
        call_ensures(queue::enqueue_unique_pending, (before, item), after),
    ensures
        before@.is_prefix_of(after@),
        0 <= i < before@.len() && before@[i].tile_key == item.tile_key ==> after@ == before@,
        after@.len() == before@.len() + 1 ==> after@.last() == item,
        after@.len() == before@.len() || after@.len() == before@.len() + 1,
        after@.len() == before@.len() ==> exists|k: int|
            0 <= k < before@.len() && (#[trigger] before@[k]).tile_key == item.tile_key,
{
    if 0 <= i < before@.len() && before@[i].tile_key == item.tile_key {
        assert(queue::pending_keys(before@)[i] == item.tile_key);
    }
    if queue::pending_keys(before@).contains(item.tile_key) {
        let k = choose|k: int|
            0 <= k < before@.len() && queue::pending_keys(before@)[k] == item.tile_key;
        assert(before@[k].tile_key == item.tile_key);
    }
}

} // verus!
