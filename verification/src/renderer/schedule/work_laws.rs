//! What holds of the entries that are built, handed out and kept.

use crate::renderer::queue;
use crate::renderer::queue::{PendingTileBuild, TileCacheKey};
use crate::renderer::queue_laws;
use crate::renderer::schedule;
use crate::renderer::schedule::frame;
use crate::renderer::schedule::{BuiltTile, CachedTile, ScheduleModel};
use crate::scene::LayerId;
use crate::seqs;
use vstd::prelude::*;

verus! {

/// Whether the cache holds something for a key.
pub open spec fn is_there(cache: Seq<CachedTile>, key: TileCacheKey) -> bool {
    exists|i: int| 0 <= i < cache.len() && (#[trigger] cache[i]).key == key
}

pub proof fn lemma_place(cache: Seq<CachedTile>, key: TileCacheKey)
    requires
        is_there(cache, key),
    ensures
        0 <= schedule::place_of(cache, key) < cache.len(),
        cache[schedule::place_of(cache, key)].key == key,
        forall|i: int|
            0 <= i < schedule::place_of(cache, key) ==> (#[trigger] cache[i]).key != key,
{
    let p = |i: int| cache[i].key == key;
    seqs::lemma_least_from_is(0, cache.len() as int, p);
    let at = schedule::place_of(cache, key);
    let i = choose|i: int| 0 <= i < cache.len() && (#[trigger] cache[i]).key == key;
    assert(p(i));
    assert forall|i: int| 0 <= i < at implies (#[trigger] cache[i]).key != key by {
        assert(!p(i));
    }
}

/// Storing an entry makes it the one for its key, in the place of an earlier one or at the end, and
/// leaves all others as they are.
pub proof fn law_stored_entry_replaces_its_own(cache: Seq<CachedTile>, tile: CachedTile)
    ensures
        ({
            let after = schedule::with_tile(cache, tile);
            &&& exists|at: int|
                0 <= at < after.len() && #[trigger] after[at] == tile && forall|i: int|
                    0 <= i < at ==> (#[trigger] after[i]).key != tile.key
            &&& after.len() == cache.len() + (if is_there(cache, tile.key) {
                0int
            } else {
                1int
            })
            &&& forall|i: int|
                0 <= i < cache.len() && (#[trigger] cache[i]).key != tile.key ==> after[i]
                    == cache[i]
        }),
{
    let after = schedule::with_tile(cache, tile);
    if is_there(cache, tile.key) {
        lemma_place(cache, tile.key);
        let at = schedule::place_of(cache, tile.key);
        assert(after[at] == tile);
        assert forall|i: int| 0 <= i < at implies (#[trigger] after[i]).key != tile.key by {
            assert(after[i] == cache[i]);
        }
    } else {
        let at = cache.len() as int;
        assert(after[at] == tile);
        assert forall|i: int| 0 <= i < at implies (#[trigger] after[i]).key != tile.key by {
            assert(after[i] == cache[i]);
        }
    }
}

/// A key is added to a list once, and taken out wholly; the other keys stay in their order.
pub proof fn law_keys_of_a_list(keys: Seq<TileCacheKey>, key: TileCacheKey, other: TileCacheKey)
    ensures
        schedule::with_key(keys, key).contains(other) <==> keys.contains(other) || other == key,
        keys.no_duplicates() ==> schedule::with_key(keys, key).no_duplicates(),
        keys.is_prefix_of(schedule::with_key(keys, key)),
        seqs::made_in_order(
            keys,
            schedule::without_key(keys, key),
            |k: TileCacheKey| k != key,
            |k: TileCacheKey, kept: TileCacheKey| kept == k,
        ),
{
    seqs::lemma_push_contains(keys, key, other);
    seqs::lemma_filter_in_order(
        keys,
        schedule::other_than(key),
        |k: TileCacheKey| k != key,
        |k: TileCacheKey, kept: TileCacheKey| kept == k,
    );
    if keys.no_duplicates() && !keys.contains(key) {
        let after = keys.push(key);
        assert forall|i: int, j: int| 0 <= i < j < after.len() implies after[i] != after[j] by {
            if j == keys.len() {
                assert(keys.contains(keys[i]));
            }
        }
    }
}

/// Making room takes out the entries with these keys, and leaves the others in their order.
pub proof fn law_others_are_kept(cache: Seq<CachedTile>, keys: Seq<TileCacheKey>)
    ensures
        seqs::made_in_order(
            cache,
            schedule::outside(cache, keys),
            |tile: CachedTile| !keys.contains(tile.key),
            |tile: CachedTile, kept: CachedTile| kept == tile,
        ),
        forall|i: int|
            0 <= i < cache.len() ==> {
                let usage = #[trigger] schedule::usages(cache)[i];
                &&& usage.key == cache[i].key
                &&& usage.last_used_tick == cache[i].last_used_tick
                &&& usage.byte_size == cache[i].built.byte_size
            },
        schedule::usages(cache).len() == cache.len(),
{
    seqs::lemma_filter_in_order(
        cache,
        |tile: CachedTile| !keys.contains(tile.key),
        |tile: CachedTile| !keys.contains(tile.key),
        |tile: CachedTile, kept: CachedTile| kept == tile,
    );
}

/// What comes in for the view that is shown is there from then on, or known to be empty, and is no
/// longer under way; the frame after it draws anew. What comes in for another view is only counted.
pub proof fn law_results_that_come_in(
    m: ScheduleModel,
    view_revision: u64,
    key: TileCacheKey,
    built: Option<BuiltTile>,
    other: TileCacheKey,
)
    ensures
        ({
            let after = frame::received(m, view_revision, key, built);
            let current = view_revision == m.view_revision;
            &&& after == (ScheduleModel {
                cache: after.cache,
                empty: after.empty,
                in_flight: after.in_flight,
                batch: after.batch,
                arrived: after.arrived,
                stale_drops: after.stale_drops,
                ..m
            })
            &&& after.in_flight.contains(other) <==> m.in_flight.contains(other) && other != key
            &&& current ==> after.stale_drops == m.stale_drops && after.arrived
                && after.batch is None
            &&& !current ==> after.cache == m.cache && after.empty == m.empty && after.batch
                == m.batch && after.arrived == m.arrived
            &&& !current ==> after.stale_drops == (if m.stale_drops == usize::MAX {
                usize::MAX as int
            } else {
                m.stale_drops + 1
            })
            &&& current && built is Some ==> after.empty == m.empty && exists|i: int|
                0 <= i < after.cache.len() && #[trigger] after.cache[i] == (CachedTile {
                    key,
                    built: built->0,
                    last_used_tick: m.tick,
                })
            &&& current && built is None ==> after.cache == m.cache
            &&& current && built is None ==> (after.empty.contains(other) <==> m.empty.contains(
                other,
            ) || other == key)
            &&& is_there(m.cache, other) ==> is_there(after.cache, other)
            &&& is_there(after.cache, other) ==> is_there(m.cache, other) || (current && other
                == key)
        }),
{
    seqs::lemma_filter_contains(m.in_flight, schedule::other_than(key), other);
    seqs::lemma_push_contains(m.empty, key, other);
    if built is Some {
        let tile = CachedTile { key, built: built->0, last_used_tick: m.tick };
        law_stored_entry_replaces_its_own(m.cache, tile);
        lemma_with_tile(m.cache, tile, other);
    }
}

proof fn lemma_with_tile(cache: Seq<CachedTile>, tile: CachedTile, other: TileCacheKey)
    ensures
        is_there(schedule::with_tile(cache, tile), other) <==> is_there(cache, other) || other
            == tile.key,
{
    let after = schedule::with_tile(cache, tile);
    law_stored_entry_replaces_its_own(cache, tile);
    let at = choose|at: int| 0 <= at < after.len() && #[trigger] after[at] == tile;
    if is_there(cache, other) && other != tile.key {
        let i = choose|i: int| 0 <= i < cache.len() && (#[trigger] cache[i]).key == other;
        assert(after[i].key == other);
    }
    if is_there(after, other) && other != tile.key {
        let i = choose|i: int| 0 <= i < after.len() && (#[trigger] after[i]).key == other;
        if is_there(cache, tile.key) {
            lemma_place(cache, tile.key);
        }
        assert(cache[i].key == other);
    }
}

/// The builds of a layer that wait, in order.
pub open spec fn of_layer(pending: Seq<PendingTileBuild>, layer: LayerId) -> Seq<PendingTileBuild> {
    pending.filter(|item: PendingTileBuild| item.tile_key.layer == layer)
}

/// The builds of an older view that wait.
pub open spec fn outdated(pending: Seq<PendingTileBuild>, view_revision: u64) -> Seq<
    PendingTileBuild,
> {
    pending.filter(|item: PendingTileBuild| item.view_revision != view_revision)
}

/// Whether a layer has lost builds from its front only.
pub open spec fn went_from_front(
    before: Seq<PendingTileBuild>,
    after: Seq<PendingTileBuild>,
    layer: LayerId,
) -> bool {
    exists|n: int|
        0 <= n <= of_layer(before, layer).len() && #[trigger] of_layer(before, layer).skip(n)
            == of_layer(after, layer)
}

proof fn lemma_filter_remove<A>(s: Seq<A>, p: spec_fn(A) -> bool, at: int)
    requires
        0 <= at < s.len(),
    ensures
        s.filter(p) == s.take(at).filter(p) + (if p(s[at]) {
            seq![s[at]]
        } else {
            Seq::empty()
        }) + s.skip(at + 1).filter(p),
        s.remove(at).filter(p) == s.take(at).filter(p) + s.skip(at + 1).filter(p),
{
    let one = seq![s[at]];
    assert(s =~= s.take(at) + one + s.skip(at + 1));
    assert(s.remove(at) =~= s.take(at) + s.skip(at + 1));
    Seq::filter_distributes_over_add(s.take(at), s.skip(at + 1), p);
    Seq::filter_distributes_over_add(s.take(at) + one, s.skip(at + 1), p);
    Seq::filter_distributes_over_add(s.take(at), one, p);
    reveal_with_fuel(Seq::filter, 2);
    assert(one.drop_last() =~= Seq::empty());
    assert(one.last() == s[at]);
    assert(one.filter(p) =~= if p(s[at]) {
        one
    } else {
        Seq::empty()
    });
}

proof fn lemma_none_pass<A>(s: Seq<A>, p: spec_fn(A) -> bool)
    requires
        forall|i: int| 0 <= i < s.len() ==> !p(#[trigger] s[i]),
    ensures
        s.filter(p).len() == 0,
    decreases s.len(),
{
    reveal(Seq::filter);
    if s.len() > 0 {
        lemma_none_pass(s.drop_last(), p);
        assert(!p(s[s.len() - 1]));
    }
}

/// Taking the first build of a layer takes the first of its builds and no other.
proof fn lemma_take_first(
    pending: Seq<PendingTileBuild>,
    layer: LayerId,
    other: LayerId,
    view_revision: u64,
)
    requires
        queue::first_of_layer(pending, layer) < pending.len(),
    ensures
        ({
            let at = queue::first_of_layer(pending, layer);
            let rest = pending.remove(at);
            &&& 0 <= at
            &&& pending[at].tile_key.layer == layer
            &&& of_layer(pending, layer).len() > 0
            &&& of_layer(rest, layer) == of_layer(pending, layer).skip(1)
            &&& other != layer ==> of_layer(rest, other) == of_layer(pending, other)
            &&& outdated(pending, view_revision).len() == outdated(rest, view_revision).len() + (
            if pending[at].view_revision != view_revision {
                1int
            } else {
                0int
            })
        }),
{
    let at = queue::first_of_layer(pending, layer);
    queue_laws::law_first_build_of_a_layer(pending, layer, pending[0]);
    let p = |item: PendingTileBuild| item.tile_key.layer == layer;
    let q = |item: PendingTileBuild| item.tile_key.layer == other;
    let r = |item: PendingTileBuild| item.view_revision != view_revision;
    lemma_filter_remove(pending, p, at);
    lemma_filter_remove(pending, q, at);
    lemma_filter_remove(pending, r, at);
    lemma_none_pass(pending.take(at), p);
    assert(pending.filter(p).skip(1) =~= pending.remove(at).filter(p));
    if other != layer {
        assert(pending.filter(q) =~= pending.remove(at).filter(q));
    }
}

proof fn lemma_from_front(
    before: Seq<PendingTileBuild>,
    rest: Seq<PendingTileBuild>,
    after: Seq<PendingTileBuild>,
    layer: LayerId,
    other: LayerId,
)
    requires
        queue::first_of_layer(before, layer) < before.len(),
        rest == before.remove(queue::first_of_layer(before, layer)),
        went_from_front(rest, after, other),
    ensures
        went_from_front(before, after, other),
{
    lemma_take_first(before, layer, other, 0);
    let n = choose|n: int|
        0 <= n <= of_layer(rest, other).len() && #[trigger] of_layer(rest, other).skip(n)
            == of_layer(after, other);
    if other == layer {
        assert(of_layer(before, other).skip(n + 1) =~= of_layer(rest, other).skip(n));
    } else {
        assert(of_layer(before, other).skip(n) == of_layer(after, other));
    }
}

proof fn lemma_none_went(pending: Seq<PendingTileBuild>, layer: LayerId)
    ensures
        went_from_front(pending, pending, layer),
{
    assert(of_layer(pending, layer).skip(0) =~= of_layer(pending, layer));
}

/// A count with some more, held at the largest.
pub open spec fn counted_on(count: usize, more: int) -> int {
    if count + more > usize::MAX {
        usize::MAX as int
    } else {
        count + more
    }
}

/// Whether an entry was made for a build that waited: one of the current view, as it was made, used
/// last at the current time, where nothing was there before.
pub open spec fn was_made(
    m: ScheduleModel,
    made: spec_fn(TileCacheKey) -> Option<BuiltTile>,
    tile: CachedTile,
) -> bool {
    &&& m.pending.contains(
        PendingTileBuild { view_revision: m.view_revision, tile_key: tile.key },
    )
    &&& made(tile.key) == Some(tile.built)
    &&& tile.last_used_tick == m.tick
    &&& !is_there(m.cache, tile.key)
}

/// Whether a key was found to be empty: a build of the current view made nothing for it.
pub open spec fn was_empty(
    m: ScheduleModel,
    made: spec_fn(TileCacheKey) -> Option<BuiltTile>,
    key: TileCacheKey,
) -> bool {
    &&& m.pending.contains(PendingTileBuild { view_revision: m.view_revision, tile_key: key })
    &&& made(key) is None
}

/// Whether a build that no longer waits is accounted for: it was of an older view, or its entry is
/// there or known to be empty.
pub open spec fn is_done(m: ScheduleModel, after: ScheduleModel, item: PendingTileBuild) -> bool {
    ||| item.view_revision != m.view_revision
    ||| is_there(after.cache, item.tile_key)
    ||| after.empty.contains(item.tile_key)
}

/// Builds are made from the queue alone: what was there stays, what is new was made for a build of
/// the current view that waited, within the budget; every build that is gone is accounted for,
/// those of an older view are counted, and each layer gives its builds from the front.
pub proof fn law_builds_come_from_the_queue(
    m: ScheduleModel,
    budget: nat,
    made: spec_fn(TileCacheKey) -> Option<BuiltTile>,
)
    ensures
        ({
            let after = frame::after_builds(m, budget, made);
            &&& after == (ScheduleModel {
                cache: after.cache,
                empty: after.empty,
                pending: after.pending,
                building_layer: after.building_layer,
                stale_drops: after.stale_drops,
                ..m
            })
            &&& m.cache.is_prefix_of(after.cache)
            &&& m.empty.is_prefix_of(after.empty)
            &&& forall|i: int|
                m.cache.len() <= i < after.cache.len() ==> was_made(
                    m,
                    made,
                    #[trigger] after.cache[i],
                )
            &&& forall|i: int|
                m.empty.len() <= i < after.empty.len() ==> was_empty(
                    m,
                    made,
                    #[trigger] after.empty[i],
                )
            &&& (after.cache.len() - m.cache.len()) + (after.empty.len() - m.empty.len()) <= budget
            &&& forall|item: PendingTileBuild| #[trigger]
                m.pending.contains(item) ==> after.pending.contains(item) || is_done(m, after, item)
            &&& forall|layer: LayerId| #[trigger] went_from_front(m.pending, after.pending, layer)
            &&& after.stale_drops == counted_on(
                m.stale_drops,
                outdated(m.pending, m.view_revision).len() - outdated(
                    after.pending,
                    m.view_revision,
                ).len(),
            )
            &&& outdated(after.pending, m.view_revision).len() <= outdated(
                m.pending,
                m.view_revision,
            ).len()
        }),
    decreases m.pending.len(),
{
    let after = frame::after_builds(m, budget, made);
    if budget == 0 {
        assert forall|layer: LayerId| #[trigger] went_from_front(
            m.pending,
            after.pending,
            layer,
        ) by {
            lemma_none_went(m.pending, layer);
        }
    } else {
        match queue::active_layer_for(m.building_layer, m.pending) {
            None => {
                assert forall|layer: LayerId| #[trigger] went_from_front(
                    m.pending,
                    after.pending,
                    layer,
                ) by {
                    lemma_none_went(m.pending, layer);
                }
            },
            Some(layer) => {
                let at = queue::first_of_layer(m.pending, layer);
                lemma_active_waits(m.building_layer, m.pending, layer);
                lemma_take_first(m.pending, layer, layer, m.view_revision);
                let item = m.pending[at];
                let rest = frame::taken_from(m, layer);
                assert(m.pending.contains(item));
                assert forall|x: PendingTileBuild| #[trigger] m.pending.contains(
                    x,
                ) implies rest.pending.contains(x) || x == item by {
                    let k = choose|k: int| 0 <= k < m.pending.len() && m.pending[k] == x;
                    if k < at {
                        assert(rest.pending[k] == x);
                    } else if k > at {
                        assert(rest.pending[k - 1] == x);
                    }
                }
                assert forall|x: PendingTileBuild| #[trigger] rest.pending.contains(
                    x,
                ) implies m.pending.contains(x) by {
                    let k = choose|k: int| 0 <= k < rest.pending.len() && rest.pending[k] == x;
                    if k < at {
                        assert(m.pending[k] == x);
                    } else {
                        assert(m.pending[k + 1] == x);
                    }
                }
                let next = if item.view_revision != m.view_revision {
                    frame::one_dropped(rest)
                } else if schedule::is_cached(m.cache, item.tile_key) {
                    rest
                } else {
                    frame::released(
                        frame::stored(rest, item.tile_key, made(item.tile_key)),
                        layer,
                    )
                };
                let left: nat = if item.view_revision != m.view_revision || schedule::is_cached(
                    m.cache,
                    item.tile_key,
                ) {
                    budget
                } else {
                    (budget - 1) as nat
                };
                law_builds_come_from_the_queue(next, left, made);
                assert(after == frame::after_builds(next, left, made));
                assert(next.pending == rest.pending);
                assert(m.cache.is_prefix_of(next.cache));
                assert(m.empty.is_prefix_of(next.empty));
                lemma_prefix(m.cache, next.cache, after.cache);
                lemma_prefix(m.empty, next.empty, after.empty);
                assert forall|l: LayerId| #[trigger] went_from_front(
                    m.pending,
                    after.pending,
                    l,
                ) by {
                    assert(went_from_front(next.pending, after.pending, l));
                    lemma_from_front(m.pending, rest.pending, after.pending, layer, l);
                }
                assert forall|x: PendingTileBuild| #[trigger] m.pending.contains(
                    x,
                ) implies after.pending.contains(x) || is_done(m, after, x) by {
                    if rest.pending.contains(x) {
                        assert(next.pending.contains(x));
                        assert(after.pending.contains(x) || is_done(next, after, x));
                    } else if item.view_revision == m.view_revision {
                        if schedule::is_cached(m.cache, item.tile_key) {
                            let k = choose|k: int|
                                0 <= k < m.cache.len() && (#[trigger] m.cache[k]).key
                                    == item.tile_key;
                            assert(after.cache[k].key == item.tile_key);
                        } else if made(item.tile_key) is Some {
                            let k = m.cache.len() as int;
                            assert(next.cache[k].key == item.tile_key);
                            assert(after.cache[k].key == item.tile_key);
                        } else {
                            seqs::lemma_push_contains(m.empty, item.tile_key, item.tile_key);
                            assert(next.empty.contains(item.tile_key));
                            let k = choose|k: int|
                                0 <= k < next.empty.len() && next.empty[k] == item.tile_key;
                            assert(after.empty[k] == item.tile_key);
                        }
                    }
                }
                let current = PendingTileBuild {
                    view_revision: m.view_revision,
                    tile_key: item.tile_key,
                };
                assert forall|i: int| m.cache.len() <= i < after.cache.len() implies was_made(
                    m,
                    made,
                    #[trigger] after.cache[i],
                ) by {
                    if i < next.cache.len() {
                        assert(after.cache[i] == next.cache[i]);
                        assert(item == current);
                    } else {
                        assert(was_made(next, made, after.cache[i]));
                        if is_there(m.cache, after.cache[i].key) {
                            let k = choose|k: int|
                                0 <= k < m.cache.len() && (#[trigger] m.cache[k]).key
                                    == after.cache[i].key;
                            assert(next.cache[k].key == after.cache[i].key);
                        }
                    }
                }
                assert forall|i: int| m.empty.len() <= i < after.empty.len() implies was_empty(
                    m,
                    made,
                    #[trigger] after.empty[i],
                ) by {
                    if i < next.empty.len() {
                        assert(after.empty[i] == next.empty[i]);
                        assert(item == current);
                    } else {
                        assert(was_empty(next, made, after.empty[i]));
                    }
                }
            },
        }
    }
}

proof fn lemma_prefix<A>(a: Seq<A>, b: Seq<A>, c: Seq<A>)
    requires
        a.is_prefix_of(b),
        b.is_prefix_of(c),
    ensures
        a.is_prefix_of(c),
{
    assert forall|k: int| 0 <= k < a.len() implies a[k] == c[k] by {
        assert(a[k] == b.subrange(0, a.len() as int)[k]);
        assert(b[k] == c.subrange(0, b.len() as int)[k]);
    }
    assert(a =~= c.subrange(0, a.len() as int));
}

proof fn lemma_active_waits(
    current: Option<LayerId>,
    pending: Seq<PendingTileBuild>,
    layer: LayerId,
)
    requires
        queue::active_layer_for(current, pending) == Some(layer),
    ensures
        queue::first_of_layer(pending, layer) < pending.len(),
{
    queue_laws::law_first_build_of_a_layer(pending, layer, pending[0]);
    let at = queue::first_of_layer(pending, layer);
    if at == pending.len() {
        if current == Some(layer) && queue::pending_layers(pending).contains(layer) {
            let k = choose|k: int|
                0 <= k < pending.len() && queue::pending_layers(pending)[k] == layer;
            assert(pending[k].tile_key.layer == layer);
        } else {
            assert(pending[0].tile_key.layer == layer);
        }
    }
}

/// Whether a build was handed out: it was of the current view and waited, nothing was there or
/// under way for it, and it was taken.
pub open spec fn was_handed_out(
    m: ScheduleModel,
    taken: spec_fn(u64, TileCacheKey) -> bool,
    key: TileCacheKey,
) -> bool {
    &&& m.pending.contains(PendingTileBuild { view_revision: m.view_revision, tile_key: key })
    &&& taken(m.view_revision, key)
    &&& !is_there(m.cache, key)
    &&& !m.empty.contains(key)
    &&& !m.in_flight.contains(key)
}

/// Builds are handed out from the queue alone: what is newly under way was a build of the current
/// view that waited, for which nothing was there, and was taken; no more than the budget are.
/// Every build that is gone is accounted for, those of an older view are counted, and each layer
/// gives its builds from the front.
pub proof fn law_handed_out_builds_come_from_the_queue(
    m: ScheduleModel,
    budget: nat,
    taken: spec_fn(u64, TileCacheKey) -> bool,
)
    ensures
        ({
            let after = frame::after_dispatch(m, budget, taken);
            &&& after == (ScheduleModel {
                in_flight: after.in_flight,
                pending: after.pending,
                building_layer: after.building_layer,
                stale_drops: after.stale_drops,
                ..m
            })
            &&& m.in_flight.is_prefix_of(after.in_flight)
            &&& forall|i: int|
                m.in_flight.len() <= i < after.in_flight.len() ==> was_handed_out(
                    m,
                    taken,
                    #[trigger] after.in_flight[i],
                )
            &&& after.in_flight.len() - m.in_flight.len() <= budget
            &&& forall|item: PendingTileBuild| #[trigger]
                m.pending.contains(item) ==> after.pending.contains(item) || is_done(
                    m,
                    after,
                    item,
                ) || after.in_flight.contains(item.tile_key) || !taken(
                    m.view_revision,
                    item.tile_key,
                )
            &&& forall|layer: LayerId| #[trigger] went_from_front(m.pending, after.pending, layer)
            &&& after.stale_drops == counted_on(
                m.stale_drops,
                outdated(m.pending, m.view_revision).len() - outdated(
                    after.pending,
                    m.view_revision,
                ).len(),
            )
            &&& outdated(after.pending, m.view_revision).len() <= outdated(
                m.pending,
                m.view_revision,
            ).len()
        }),
    decreases m.pending.len(),
{
    let after = frame::after_dispatch(m, budget, taken);
    if budget == 0 {
        assert forall|layer: LayerId| #[trigger] went_from_front(
            m.pending,
            after.pending,
            layer,
        ) by {
            lemma_none_went(m.pending, layer);
        }
    } else {
        match queue::active_layer_for(m.building_layer, m.pending) {
            None => {
                assert forall|layer: LayerId| #[trigger] went_from_front(
                    m.pending,
                    after.pending,
                    layer,
                ) by {
                    lemma_none_went(m.pending, layer);
                }
            },
            Some(layer) => {
                let at = queue::first_of_layer(m.pending, layer);
                lemma_active_waits(m.building_layer, m.pending, layer);
                lemma_take_first(m.pending, layer, layer, m.view_revision);
                let item = m.pending[at];
                let rest = frame::taken_from(m, layer);
                let there = schedule::is_cached(m.cache, item.tile_key) || m.empty.contains(
                    item.tile_key,
                ) || m.in_flight.contains(item.tile_key);
                assert(m.pending.contains(item));
                assert forall|x: PendingTileBuild| #[trigger] m.pending.contains(
                    x,
                ) implies rest.pending.contains(x) || x == item by {
                    let k = choose|k: int| 0 <= k < m.pending.len() && m.pending[k] == x;
                    if k < at {
                        assert(rest.pending[k] == x);
                    } else if k > at {
                        assert(rest.pending[k - 1] == x);
                    }
                }
                assert forall|x: PendingTileBuild| #[trigger] rest.pending.contains(
                    x,
                ) implies m.pending.contains(x) by {
                    let k = choose|k: int| 0 <= k < rest.pending.len() && rest.pending[k] == x;
                    if k < at {
                        assert(m.pending[k] == x);
                    } else {
                        assert(m.pending[k + 1] == x);
                    }
                }
                if item.view_revision == m.view_revision && !there && !taken(
                    m.view_revision,
                    item.tile_key,
                ) {
                    assert(after == rest);
                    assert forall|l: LayerId| #[trigger] went_from_front(
                        m.pending,
                        after.pending,
                        l,
                    ) by {
                        lemma_none_went(rest.pending, l);
                        lemma_from_front(m.pending, rest.pending, after.pending, layer, l);
                    }
                } else {
                    let next = if item.view_revision != m.view_revision {
                        frame::one_dropped(rest)
                    } else if there {
                        rest
                    } else {
                        frame::released(
                            ScheduleModel {
                                in_flight: schedule::with_key(rest.in_flight, item.tile_key),
                                ..rest
                            },
                            layer,
                        )
                    };
                    let left: nat = if item.view_revision != m.view_revision || there {
                        budget
                    } else {
                        (budget - 1) as nat
                    };
                    law_handed_out_builds_come_from_the_queue(next, left, taken);
                    assert(after == frame::after_dispatch(next, left, taken));
                    assert(next.pending == rest.pending);
                    assert(m.in_flight.is_prefix_of(next.in_flight));
                    lemma_prefix(m.in_flight, next.in_flight, after.in_flight);
                    assert forall|l: LayerId| #[trigger] went_from_front(
                        m.pending,
                        after.pending,
                        l,
                    ) by {
                        assert(went_from_front(next.pending, after.pending, l));
                        lemma_from_front(m.pending, rest.pending, after.pending, layer, l);
                    }
                    assert forall|x: PendingTileBuild| #[trigger] m.pending.contains(
                        x,
                    ) implies after.pending.contains(x) || is_done(m, after, x)
                        || after.in_flight.contains(x.tile_key) || !taken(
                        m.view_revision,
                        x.tile_key,
                    ) by {
                        if rest.pending.contains(x) {
                            assert(next.pending.contains(x));
                        } else if item.view_revision == m.view_revision {
                            if m.in_flight.contains(item.tile_key) {
                                let k = choose|k: int|
                                    0 <= k < m.in_flight.len() && m.in_flight[k] == item.tile_key;
                                assert(after.in_flight[k] == item.tile_key);
                            } else if !there {
                                let k = m.in_flight.len() as int;
                                assert(next.in_flight[k] == item.tile_key);
                                assert(after.in_flight[k] == item.tile_key);
                            }
                        }
                    }
                    let current = PendingTileBuild {
                        view_revision: m.view_revision,
                        tile_key: item.tile_key,
                    };
                    assert forall|i: int|
                        m.in_flight.len() <= i < after.in_flight.len() implies was_handed_out(
                        m,
                        taken,
                        #[trigger] after.in_flight[i],
                    ) by {
                        if i < next.in_flight.len() {
                            assert(after.in_flight[i] == next.in_flight[i]);
                            assert(item == current);
                        } else {
                            assert(was_handed_out(next, taken, after.in_flight[i]));
                            if m.in_flight.contains(after.in_flight[i]) {
                                let k = choose|k: int|
                                    0 <= k < m.in_flight.len() && m.in_flight[k]
                                        == after.in_flight[i];
                                assert(next.in_flight[k] == after.in_flight[i]);
                            }
                        }
                    }
                }
            },
        }
    }
}

/// While builds of the layer that is being built wait, no build of another layer is made.
pub proof fn law_a_layer_is_built_before_the_next(
    m: ScheduleModel,
    budget: nat,
    made: spec_fn(TileCacheKey) -> Option<BuiltTile>,
    layer: LayerId,
    other: LayerId,
)
    requires
        queue::active_layer_for(m.building_layer, m.pending) == Some(layer),
        other != layer,
        of_layer(frame::after_builds(m, budget, made).pending, layer).len() > 0,
    ensures
        of_layer(frame::after_builds(m, budget, made).pending, other) == of_layer(
            m.pending,
            other,
        ),
    decreases m.pending.len(),
{
    if budget > 0 {
        let after = frame::after_builds(m, budget, made);
        let at = queue::first_of_layer(m.pending, layer);
        lemma_active_waits(m.building_layer, m.pending, layer);
        lemma_take_first(m.pending, layer, other, m.view_revision);
        let item = m.pending[at];
        let rest = frame::taken_from(m, layer);
        let next = if item.view_revision != m.view_revision {
            frame::one_dropped(rest)
        } else if schedule::is_cached(m.cache, item.tile_key) {
            rest
        } else {
            frame::released(frame::stored(rest, item.tile_key, made(item.tile_key)), layer)
        };
        let left: nat = if item.view_revision != m.view_revision || schedule::is_cached(
            m.cache,
            item.tile_key,
        ) {
            budget
        } else {
            (budget - 1) as nat
        };
        assert(after == frame::after_builds(next, left, made));
        law_builds_come_from_the_queue(next, left, made);
        assert(went_from_front(next.pending, after.pending, layer));
        assert(of_layer(next.pending, layer).len() > 0);
        lemma_waiting_layer(next.pending, layer);
        assert(next.building_layer == Some(layer));
        law_a_layer_is_built_before_the_next(next, left, made, layer, other);
    }
}

proof fn lemma_waiting_layer(pending: Seq<PendingTileBuild>, layer: LayerId)
    requires
        of_layer(pending, layer).len() > 0,
    ensures
        queue::pending_layers(pending).contains(layer),
{
    let p = |item: PendingTileBuild| item.tile_key.layer == layer;
    let x = pending.filter(p)[0];
    assert(pending.filter(p).contains(x));
    seqs::lemma_filter_contains(pending, p, x);
    let k = choose|k: int| 0 <= k < pending.len() && pending[k] == x;
    assert(queue::pending_layers(pending)[k] == layer);
}

/// While builds of the layer that is being handed out wait, no build of another layer is handed
/// out.
pub proof fn law_a_layer_is_handed_out_before_the_next(
    m: ScheduleModel,
    budget: nat,
    taken: spec_fn(u64, TileCacheKey) -> bool,
    layer: LayerId,
    other: LayerId,
)
    requires
        queue::active_layer_for(m.building_layer, m.pending) == Some(layer),
        other != layer,
        of_layer(frame::after_dispatch(m, budget, taken).pending, layer).len() > 0,
    ensures
        of_layer(frame::after_dispatch(m, budget, taken).pending, other) == of_layer(
            m.pending,
            other,
        ),
    decreases m.pending.len(),
{
    if budget > 0 {
        let after = frame::after_dispatch(m, budget, taken);
        let at = queue::first_of_layer(m.pending, layer);
        lemma_active_waits(m.building_layer, m.pending, layer);
        lemma_take_first(m.pending, layer, other, m.view_revision);
        let item = m.pending[at];
        let rest = frame::taken_from(m, layer);
        let there = schedule::is_cached(m.cache, item.tile_key) || m.empty.contains(item.tile_key)
            || m.in_flight.contains(item.tile_key);
        if item.view_revision != m.view_revision || there || taken(
            m.view_revision,
            item.tile_key,
        ) {
            let next = if item.view_revision != m.view_revision {
                frame::one_dropped(rest)
            } else if there {
                rest
            } else {
                frame::released(
                    ScheduleModel {
                        in_flight: schedule::with_key(rest.in_flight, item.tile_key),
                        ..rest
                    },
                    layer,
                )
            };
            let left: nat = if item.view_revision != m.view_revision || there {
                budget
            } else {
                (budget - 1) as nat
            };
            assert(after == frame::after_dispatch(next, left, taken));
            law_handed_out_builds_come_from_the_queue(next, left, taken);
            assert(went_from_front(next.pending, after.pending, layer));
            assert(of_layer(next.pending, layer).len() > 0);
            lemma_waiting_layer(next.pending, layer);
            assert(next.building_layer == Some(layer));
            law_a_layer_is_handed_out_before_the_next(next, left, taken, layer, other);
        }
    }
}

/// As long as builds are taken, handing out makes progress: the budget is used up or nothing is
/// left to do.
pub proof fn law_handing_out_makes_progress(
    m: ScheduleModel,
    budget: nat,
    taken: spec_fn(u64, TileCacheKey) -> bool,
)
    requires
        forall|v: u64, k: TileCacheKey| #[trigger] taken(v, k),
    ensures
        frame::after_dispatch(m, budget, taken).pending.len() == 0 || frame::after_dispatch(
            m,
            budget,
            taken,
        ).in_flight.len() - m.in_flight.len() == budget,
    decreases m.pending.len(),
{
    if budget > 0 {
        match queue::active_layer_for(m.building_layer, m.pending) {
            None => {},
            Some(layer) => {
                lemma_active_waits(m.building_layer, m.pending, layer);
                queue_laws::law_first_build_of_a_layer(m.pending, layer, m.pending[0]);
                let at = queue::first_of_layer(m.pending, layer);
                let item = m.pending[at];
                let rest = frame::taken_from(m, layer);
                assert(taken(m.view_revision, item.tile_key));
                if item.view_revision != m.view_revision {
                    law_handing_out_makes_progress(frame::one_dropped(rest), budget, taken);
                } else if schedule::is_cached(m.cache, item.tile_key) || m.empty.contains(
                    item.tile_key,
                ) || m.in_flight.contains(item.tile_key) {
                    law_handing_out_makes_progress(rest, budget, taken);
                } else {
                    law_handing_out_makes_progress(
                        frame::released(
                            ScheduleModel {
                                in_flight: schedule::with_key(rest.in_flight, item.tile_key),
                                ..rest
                            },
                            layer,
                        ),
                        (budget - 1) as nat,
                        taken,
                    );
                }
            },
        }
    }
}

} // verus!
