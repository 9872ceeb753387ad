//! Dropping tile entries: oldest first, never those in view.

use crate::renderer::queue::{contains_tile_key, TileCacheKey};
use crate::seqs;
use crate::seqs::sort_ranked_items;
use vstd::prelude::*;

verus! {

/// What the cache knows of one entry: when it was used last, and how many bytes it takes.
#[derive(Debug, Clone, Copy, PartialEq, Eq, Structural)]
pub struct TileUsage {
    pub key: TileCacheKey,
    pub last_used_tick: u64,
    pub byte_size: usize,
}

/// The bytes that the entries take together.
pub open spec fn usage_bytes(usage: Seq<TileUsage>) -> int
    decreases usage.len(),
{
    if usage.len() == 0 {
        0
    } else {
        usage_bytes(usage.drop_last()) + usage.last().byte_size
    }
}

/// The entries that may be dropped, each with its age rank, in the order of the list.
pub open spec fn eviction_candidates(
    usage: Seq<TileUsage>,
    protected: Seq<TileCacheKey>,
) -> Seq<(u64, TileUsage)> {
    usage.filter(|entry: TileUsage| !protected.contains(entry.key)).map_values(
        |entry: TileUsage| (entry.last_used_tick, entry),
    )
}

/// The keys dropped, in order, until the rest fits: `entries` and `bytes` are what is there.
pub open spec fn evicted_until_fit(
    entries: int,
    bytes: int,
    candidates: Seq<(u64, TileUsage)>,
    capacity: usize,
    byte_budget: usize,
) -> Seq<TileCacheKey>
    decreases candidates.len(),
{
    if candidates.len() == 0 || (entries <= capacity && bytes <= byte_budget) {
        Seq::empty()
    } else {
        seq![candidates[0].1.key] + evicted_until_fit(
            entries - 1,
            bytes - candidates[0].1.byte_size,
            candidates.skip(1),
            capacity,
            byte_budget,
        )
    }
}

/// The keys that a cache with this usage drops.
pub open spec fn eviction_victims(
    usage: Seq<TileUsage>,
    capacity: usize,
    byte_budget: usize,
    protected: Seq<TileCacheKey>,
) -> Seq<TileCacheKey> {
    evicted_until_fit(
        usage.len() as int,
        usage_bytes(usage),
        seqs::sort_ranked(eviction_candidates(usage, protected)),
        capacity,
        byte_budget,
    )
}

proof fn lemma_usage_bytes_take(usage: Seq<TileUsage>, i: int)
    requires
        0 <= i < usage.len(),
    ensures
        usage_bytes(usage.take(i + 1)) == usage_bytes(usage.take(i)) + usage[i].byte_size,
{
    assert(usage.take(i + 1).drop_last() =~= usage.take(i));
}

proof fn lemma_usage_bytes_nonneg(usage: Seq<TileUsage>)
    ensures
        0 <= usage_bytes(usage),
    decreases usage.len(),
{
    if usage.len() > 0 {
        lemma_usage_bytes_nonneg(usage.drop_last());
    }
}

/// The bytes of a list of candidates.
pub open spec fn candidate_bytes(candidates: Seq<(u64, TileUsage)>) -> int
    decreases candidates.len(),
{
    if candidates.len() == 0 {
        0
    } else {
        candidates[0].1.byte_size + candidate_bytes(candidates.skip(1))
    }
}

/// Chooses what to drop: entries outside `protected`, least recently used first, until at most
/// `capacity` entries and `byte_budget` bytes are left.
pub fn select_tile_eviction_victims(
    usage: &[TileUsage],
    capacity: usize,
    byte_budget: usize,
    protected: &[TileCacheKey],
) -> (victims: Vec<TileCacheKey>)
    ensures
        victims@ == eviction_victims(usage@, capacity, byte_budget, protected@),
{
    let ghost free = |entry: TileUsage| !protected@.contains(entry.key);
    let ghost ranked = |entry: TileUsage| (entry.last_used_tick, entry);
    let mut total_bytes: u128 = 0;
    let mut candidates: Vec<(u64, TileUsage)> = Vec::new();
    let mut i: usize = 0;
    proof {
        reveal(Seq::filter);
        assert(usage@.take(0).filter(free).map_values(ranked) =~= Seq::empty());
    }
    while i < usage.len()
        invariant
            i <= usage@.len(),
            total_bytes <= i * 0xffff_ffff_ffff_ffff,
            free == (|entry: TileUsage| !protected@.contains(entry.key)),
            ranked == (|entry: TileUsage| (entry.last_used_tick, entry)),
            total_bytes == usage_bytes(usage@.take(i as int)),
            candidates@ == usage@.take(i as int).filter(free).map_values(ranked),
        decreases usage@.len() - i,
    {
        let entry = usage[i];
        proof {
            lemma_usage_bytes_take(usage@, i as int);
            seqs::lemma_filter_take(usage@, i as int, free);
            let kept = usage@.take(i as int).filter(free);
            assert(kept.push(entry).map_values(ranked) =~= kept.map_values(ranked).push(
                ranked(entry),
            ));
        }
        total_bytes += entry.byte_size as u128;
        if !contains_tile_key(protected, entry.key) {
            candidates.push((entry.last_used_tick, entry));
        }
        i += 1;
    }
    assert(usage@.take(i as int) =~= usage@);
    let ordered = sort_ranked_items(candidates);
    let mut victims: Vec<TileCacheKey> = Vec::new();
    let mut remaining_entries: usize = usage.len();
    let mut remaining_bytes: u128 = total_bytes;
    let mut j: usize = 0;
    let ghost goal = eviction_victims(usage@, capacity, byte_budget, protected@);
    assert(ordered@.skip(0) =~= ordered@);
    proof {
        lemma_candidates_bound(usage@, protected@);
    }
    while j < ordered.len()
        invariant
            j <= ordered@.len(),
            candidate_bytes(ordered@.skip(j as int)) <= remaining_bytes,
            ordered@.len() - j <= remaining_entries,
            victims@ + evicted_until_fit(
                remaining_entries as int,
                remaining_bytes as int,
                ordered@.skip(j as int),
                capacity,
                byte_budget,
            ) == goal,
            goal == eviction_victims(usage@, capacity, byte_budget, protected@),
        decreases ordered@.len() - j,
    {
        let ghost rest = ordered@.skip(j as int);
        if remaining_entries <= capacity && remaining_bytes <= byte_budget as u128 {
            assert(victims@ =~= goal);
            return victims;
        }
        let entry = ordered[j].1;
        proof {
            assert(rest[0].1 == entry);
            assert(rest.skip(1) =~= ordered@.skip(j + 1));
            lemma_candidate_bytes_nonneg(rest.skip(1));
        }
        let ghost before = victims@;
        victims.push(entry.key);
        remaining_entries -= 1;
        remaining_bytes -= entry.byte_size as u128;
        j += 1;
        proof {
            let tail = evicted_until_fit(
                remaining_entries as int,
                remaining_bytes as int,
                ordered@.skip(j as int),
                capacity,
                byte_budget,
            );
            assert(victims@ + tail =~= before + (seq![entry.key] + tail));
        }
    }
    assert(victims@ =~= goal);
    victims
}

proof fn lemma_candidate_bytes_nonneg(candidates: Seq<(u64, TileUsage)>)
    ensures
        0 <= candidate_bytes(candidates),
    decreases candidates.len(),
{
    if candidates.len() > 0 {
        lemma_candidate_bytes_nonneg(candidates.skip(1));
    }
}

proof fn lemma_candidate_bytes_push(candidates: Seq<(u64, TileUsage)>, x: (u64, TileUsage))
    ensures
        candidate_bytes(candidates.push(x)) == candidate_bytes(candidates) + x.1.byte_size,
    decreases candidates.len(),
{
    if candidates.len() > 0 {
        lemma_candidate_bytes_push(candidates.skip(1), x);
        assert(candidates.push(x).skip(1) =~= candidates.skip(1).push(x));
    } else {
        reveal_with_fuel(candidate_bytes, 2);
        assert(candidates.push(x).skip(1) =~= Seq::empty());
    }
}

proof fn lemma_candidate_bytes_insert(candidates: Seq<(u64, TileUsage)>, x: (u64, TileUsage))
    ensures
        candidate_bytes(seqs::insert_ranked(candidates, x)) == candidate_bytes(candidates)
            + x.1.byte_size,
    decreases candidates.len(),
{
    if candidates.len() == 0 || candidates.last().0 <= x.0 {
        lemma_candidate_bytes_push(candidates, x);
    } else {
        let init = candidates.drop_last();
        lemma_candidate_bytes_insert(init, x);
        lemma_candidate_bytes_push(seqs::insert_ranked(init, x), candidates.last());
        lemma_candidate_bytes_push(init, candidates.last());
        assert(init.push(candidates.last()) =~= candidates);
    }
}

proof fn lemma_candidate_bytes_sort(candidates: Seq<(u64, TileUsage)>)
    ensures
        candidate_bytes(seqs::sort_ranked(candidates)) == candidate_bytes(candidates),
    decreases candidates.len(),
{
    if candidates.len() > 0 {
        let init = candidates.drop_last();
        lemma_candidate_bytes_sort(init);
        lemma_candidate_bytes_insert(seqs::sort_ranked(init), candidates.last());
        lemma_candidate_bytes_push(init, candidates.last());
        assert(init.push(candidates.last()) =~= candidates);
    }
}

proof fn lemma_candidates_bound(usage: Seq<TileUsage>, protected: Seq<TileCacheKey>)
    ensures
        seqs::sort_ranked(eviction_candidates(usage, protected)).len() <= usage.len(),
        candidate_bytes(seqs::sort_ranked(eviction_candidates(usage, protected))) <= usage_bytes(usage),
    decreases usage.len(),
{
    let candidates = eviction_candidates(usage, protected);
    seqs::lemma_sort_ranked(candidates);
    lemma_candidate_bytes_sort(candidates);
    reveal(Seq::filter);
    if usage.len() > 0 {
        let init = usage.drop_last();
        lemma_candidates_bound(init, protected);
        let before = eviction_candidates(init, protected);
        seqs::lemma_sort_ranked(before);
        lemma_candidate_bytes_sort(before);
        let free = |entry: TileUsage| !protected.contains(entry.key);
        let ranked = |entry: TileUsage| (entry.last_used_tick, entry);
        if free(usage.last()) {
            assert(candidates =~= before.push(ranked(usage.last())));
            lemma_candidate_bytes_push(before, ranked(usage.last()));
        } else {
            assert(candidates =~= before);
        }
    } else {
        assert(candidates =~= Seq::empty());
    }
}

proof fn lemma_evicted_are_candidates(
    entries: int,
    bytes: int,
    candidates: Seq<(u64, TileUsage)>,
    capacity: usize,
    byte_budget: usize,
)
    ensures
        ({
            let victims = evicted_until_fit(entries, bytes, candidates, capacity, byte_budget);
            &&& victims.len() <= candidates.len()
            &&& forall|i: int|
                0 <= i < victims.len() ==> #[trigger] victims[i] == candidates[i].1.key
        }),
    decreases candidates.len(),
{
    if !(candidates.len() == 0 || (entries <= capacity && bytes <= byte_budget)) {
        let rest = candidates.skip(1);
        lemma_evicted_are_candidates(
            entries - 1,
            bytes - candidates[0].1.byte_size,
            rest,
            capacity,
            byte_budget,
        );
        let tail = evicted_until_fit(
            entries - 1,
            bytes - candidates[0].1.byte_size,
            rest,
            capacity,
            byte_budget,
        );
        let victims = evicted_until_fit(entries, bytes, candidates, capacity, byte_budget);
        assert forall|i: int| 0 <= i < victims.len() implies #[trigger] victims[i]
            == candidates[i].1.key by {
            if i > 0 {
                assert(victims[i] == tail[i - 1]);
                assert(rest[i - 1] == candidates[i]);
            }
        }
    }
}

/// An entry in view is never dropped.
pub proof fn law_eviction_spares_protected(
    usage: Seq<TileUsage>,
    capacity: usize,
    byte_budget: usize,
    protected: Seq<TileCacheKey>,
    key: TileCacheKey,
)
    requires
        protected.contains(key),
    ensures
        !eviction_victims(usage, capacity, byte_budget, protected).contains(key),
{
    let candidates = eviction_candidates(usage, protected);
    let sorted = seqs::sort_ranked(candidates);
    let victims = eviction_victims(usage, capacity, byte_budget, protected);
    seqs::lemma_sort_ranked(candidates);
    lemma_evicted_are_candidates(
        usage.len() as int,
        usage_bytes(usage),
        sorted,
        capacity,
        byte_budget,
    );
    if victims.contains(key) {
        let i = choose|i: int| 0 <= i < victims.len() && victims[i] == key;
        assert(sorted.contains(sorted[i]));
        assert(candidates.contains(sorted[i]));
        let k = choose|k: int| 0 <= k < candidates.len() && candidates[k] == sorted[i];
        let free = |entry: TileUsage| !protected.contains(entry.key);
        let kept = usage.filter(free);
        assert(kept.contains(kept[k]));
        seqs::lemma_filter_contains(usage, free, kept[k]);
    }
}

/// A cache within both limits drops nothing.
pub proof fn law_eviction_keeps_what_fits(
    usage: Seq<TileUsage>,
    capacity: usize,
    byte_budget: usize,
    protected: Seq<TileCacheKey>,
)
    requires
        usage.len() <= capacity,
        usage_bytes(usage) <= byte_budget,
    ensures
        eviction_victims(usage, capacity, byte_budget, protected) == Seq::<TileCacheKey>::empty(),
{
}

/// Entries are dropped from the least recently used on: the victims are the first entries, by
/// last use, of those that may be dropped.
pub proof fn law_eviction_is_oldest_first(
    usage: Seq<TileUsage>,
    capacity: usize,
    byte_budget: usize,
    protected: Seq<TileCacheKey>,
)
    ensures
        ({
            let victims = eviction_victims(usage, capacity, byte_budget, protected);
            let sorted = seqs::sort_ranked(eviction_candidates(usage, protected));
            &&& seqs::ranks_ascend(sorted)
            &&& victims.len() <= sorted.len()
            &&& forall|i: int| 0 <= i < victims.len() ==> #[trigger] victims[i] == sorted[i].1.key
        }),
{
    seqs::lemma_sort_ranked(eviction_candidates(usage, protected));
    lemma_evicted_are_candidates(
        usage.len() as int,
        usage_bytes(usage),
        seqs::sort_ranked(eviction_candidates(usage, protected)),
        capacity,
        byte_budget,
    );
}

proof fn lemma_eviction_fits(
    entries: int,
    bytes: int,
    candidates: Seq<(u64, TileUsage)>,
    capacity: usize,
    byte_budget: usize,
)
    ensures
        ({
            let victims = evicted_until_fit(entries, bytes, candidates, capacity, byte_budget);
            &&& victims.len() <= candidates.len()
            &&& victims.len() == candidates.len() || (entries - victims.len() <= capacity && bytes
                - candidate_bytes(candidates.take(victims.len() as int)) <= byte_budget)
        }),
    decreases candidates.len(),
{
    let victims = evicted_until_fit(entries, bytes, candidates, capacity, byte_budget);
    if candidates.len() == 0 || (entries <= capacity && bytes <= byte_budget) {
        assert(candidates.take(0) =~= Seq::empty());
    } else {
        let rest = candidates.skip(1);
        let left = bytes - candidates[0].1.byte_size;
        lemma_eviction_fits(entries - 1, left, rest, capacity, byte_budget);
        let tail = evicted_until_fit(entries - 1, left, rest, capacity, byte_budget);
        let head = candidates.take(victims.len() as int);
        assert(victims.len() == tail.len() + 1);
        assert(head.skip(1) =~= rest.take(tail.len() as int));
        assert(head[0] == candidates[0]);
    }
}

/// After the drop the cache is within both limits, unless everything that may be dropped is gone.
pub proof fn law_eviction_restores_limits(
    usage: Seq<TileUsage>,
    capacity: usize,
    byte_budget: usize,
    protected: Seq<TileCacheKey>,
)
    ensures
        ({
            let victims = eviction_victims(usage, capacity, byte_budget, protected);
            let sorted = seqs::sort_ranked(eviction_candidates(usage, protected));
            victims.len() == sorted.len() || (usage.len() - victims.len() <= capacity
                && usage_bytes(usage) - candidate_bytes(sorted.take(victims.len() as int))
                <= byte_budget)
        }),
{
    lemma_eviction_fits(
        usage.len() as int,
        usage_bytes(usage),
        seqs::sort_ranked(eviction_candidates(usage, protected)),
        capacity,
        byte_budget,
    );
}

} // verus!
