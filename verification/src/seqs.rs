//! Sequence vocabulary shared by the contracts of the crate.

use vstd::prelude::*;

verus! {

/// `base` followed by those elements of `extra`, in order, that are not there yet.
pub open spec fn append_new<A>(base: Seq<A>, extra: Seq<A>) -> Seq<A>
    decreases extra.len(),
{
    if extra.len() == 0 {
        base
    } else {
        let head = append_new(base, extra.drop_last());
        if head.contains(extra.last()) {
            head
        } else {
            head.push(extra.last())
        }
    }
}

/// The elements of `s` without repetitions, in the order of first occurrence.
pub open spec fn distinct<A>(s: Seq<A>) -> Seq<A> {
    append_new(Seq::empty(), s)
}

/// `append_new` keeps `base` as a prefix, holds exactly the elements of both arguments, and
/// adds no repetition of its own.
pub proof fn lemma_append_new<A>(base: Seq<A>, extra: Seq<A>)
    ensures
        base.is_prefix_of(append_new(base, extra)),
        forall|x: A|
            #![trigger append_new(base, extra).contains(x)]
            append_new(base, extra).contains(x) <==> base.contains(x) || extra.contains(x),
        base.no_duplicates() ==> append_new(base, extra).no_duplicates(),
        append_new(base, extra).len() <= base.len() + extra.len(),
    decreases extra.len(),
{
    if extra.len() > 0 {
        let init = extra.drop_last();
        let last = extra.last();
        let head = append_new(base, init);
        lemma_append_new(base, init);
        assert(extra == init.push(last));
        assert forall|x: A| #![trigger append_new(base, extra).contains(x)]
            append_new(base, extra).contains(x) <==> base.contains(x) || extra.contains(x) by {
            lemma_push_contains(init, last, x);
            lemma_push_contains(head, last, x);
            assert(head.contains(x) <==> base.contains(x) || init.contains(x));
        }
        if !head.contains(last) && base.no_duplicates() {
            let result = head.push(last);
            assert forall|i: int, j: int|
                0 <= i < result.len() && 0 <= j < result.len() && i != j implies result[i]
                != result[j] by {
                if i < head.len() && j < head.len() {
                    assert(head[i] != head[j]);
                } else if i < head.len() {
                    assert(head.contains(head[i]));
                } else {
                    assert(head.contains(head[j]));
                }
            }
        }
    }
}

/// Pushing adds one element and nothing else.
pub proof fn lemma_push_contains<A>(s: Seq<A>, a: A, x: A)
    ensures
        s.push(a).contains(x) <==> s.contains(x) || x == a,
{
    if s.contains(x) {
        let i = choose|i: int| 0 <= i < s.len() && s[i] == x;
        assert(s.push(a)[i] == x);
    }
    if x == a {
        assert(s.push(a)[s.len() as int] == x);
    }
    if s.push(a).contains(x) {
        let i = choose|i: int| 0 <= i < s.push(a).len() && s.push(a)[i] == x;
        if i < s.len() {
            assert(s[i] == x);
        }
    }
}

/// Appending the elements of a concatenation is appending those of its parts in turn.
pub proof fn lemma_append_new_add<A>(base: Seq<A>, a: Seq<A>, b: Seq<A>)
    ensures
        append_new(base, a + b) == append_new(append_new(base, a), b),
    decreases b.len(),
{
    if b.len() == 0 {
        assert(a + b =~= a);
    } else {
        assert((a + b).drop_last() =~= a + b.drop_last());
        assert((a + b).last() == b.last());
        lemma_append_new_add(base, a, b.drop_last());
    }
}

/// One more element of a prefix, seen through `append_new`.
pub proof fn lemma_append_new_take<A>(base: Seq<A>, s: Seq<A>, i: int)
    requires
        0 <= i < s.len(),
    ensures
        append_new(base, s.take(i + 1)) == (if append_new(base, s.take(i)).contains(s[i]) {
            append_new(base, s.take(i))
        } else {
            append_new(base, s.take(i)).push(s[i])
        }),
{
    assert(s.take(i + 1).drop_last() =~= s.take(i));
    assert(s.take(i + 1).last() == s[i]);
}

/// One more element of a prefix, seen through `filter`.
pub proof fn lemma_filter_take<A>(s: Seq<A>, i: int, p: spec_fn(A) -> bool)
    requires
        0 <= i < s.len(),
    ensures
        s.take(i + 1).filter(p) == (if p(s[i]) {
            s.take(i).filter(p).push(s[i])
        } else {
            s.take(i).filter(p)
        }),
{
    reveal(Seq::filter);
    assert(s.take(i + 1).drop_last() =~= s.take(i));
    assert(s.take(i + 1).last() == s[i]);
}

/// A filtered sequence holds exactly the elements that pass.
pub proof fn lemma_filter_contains<A>(s: Seq<A>, p: spec_fn(A) -> bool, x: A)
    ensures
        s.filter(p).contains(x) <==> s.contains(x) && p(x),
    decreases s.len(),
{
    reveal(Seq::filter);
    if s.len() > 0 {
        let init = s.drop_last();
        lemma_filter_contains(init, p, x);
        assert(s == init.push(s.last()));
        lemma_push_contains(init, s.last(), x);
        lemma_push_contains(init.filter(p), s.last(), x);
    }
}

/// The least number from `from` on, below `end`, with the property; `end` where there is none.
pub open spec fn least_from(from: int, end: int, p: spec_fn(int) -> bool) -> int
    decreases end - from,
{
    if from >= end {
        end
    } else if p(from) {
        from
    } else {
        least_from(from + 1, end, p)
    }
}

/// A number is the least with the property where none before it has it.
pub proof fn lemma_least_from(from: int, end: int, p: spec_fn(int) -> bool, at: int)
    requires
        from <= at <= end,
        at < end ==> p(at),
        forall|k: int| from <= k < at ==> !(#[trigger] p(k)),
    ensures
        least_from(from, end, p) == at,
    decreases at - from,
{
    if from < at {
        assert(!p(from));
        lemma_least_from(from + 1, end, p, at);
    }
}

/// What the least number with a property is.
pub proof fn lemma_least_from_is(from: int, end: int, p: spec_fn(int) -> bool)
    requires
        from <= end,
    ensures
        ({
            let at = least_from(from, end, p);
            &&& from <= at <= end
            &&& at < end ==> p(at)
            &&& forall|k: int| from <= k < at ==> !(#[trigger] p(k))
        }),
    decreases end - from,
{
    if from < end && !p(from) {
        lemma_least_from_is(from + 1, end, p);
    }
}

/// Where no number has the property, a given one has it not.
pub proof fn lemma_least_from_none(from: int, end: int, p: spec_fn(int) -> bool, at: int)
    requires
        from <= at < end,
        least_from(from, end, p) == end,
    ensures
        !p(at),
    decreases at - from,
{
    if from < at {
        lemma_least_from_none(from + 1, end, p, at);
    }
}

/// `s` with `x` put behind every element whose rank is not above its own.
pub open spec fn insert_ranked<T>(s: Seq<(u64, T)>, x: (u64, T)) -> Seq<(u64, T)>
    decreases s.len(),
{
    if s.len() == 0 || s.last().0 <= x.0 {
        s.push(x)
    } else {
        insert_ranked(s.drop_last(), x).push(s.last())
    }
}

/// The elements by ascending rank; elements of one rank keep their order.
pub open spec fn sort_ranked<T>(s: Seq<(u64, T)>) -> Seq<(u64, T)>
    decreases s.len(),
{
    if s.len() == 0 {
        s
    } else {
        insert_ranked(sort_ranked(s.drop_last()), s.last())
    }
}

/// The elements of one rank, in order.
pub open spec fn of_rank<T>(s: Seq<(u64, T)>, rank: u64) -> Seq<(u64, T)> {
    s.filter(|p: (u64, T)| p.0 == rank)
}

/// Whether the ranks ascend.
pub open spec fn ranks_ascend<T>(s: Seq<(u64, T)>) -> bool {
    forall|i: int, j: int| 0 <= i <= j < s.len() ==> (#[trigger] s[i]).0 <= (#[trigger] s[j]).0
}

proof fn lemma_of_rank_push<T>(s: Seq<(u64, T)>, x: (u64, T), rank: u64)
    ensures
        of_rank(s.push(x), rank) == (if x.0 == rank {
            of_rank(s, rank).push(x)
        } else {
            of_rank(s, rank)
        }),
{
    reveal(Seq::filter);
    assert(s.push(x).drop_last() =~= s);
}

proof fn lemma_insert_ranked<T>(s: Seq<(u64, T)>, x: (u64, T))
    requires
        ranks_ascend(s),
    ensures
        ranks_ascend(insert_ranked(s, x)),
        insert_ranked(s, x).len() == s.len() + 1,
        forall|y: (u64, T)|
            #![trigger insert_ranked(s, x).contains(y)]
            insert_ranked(s, x).contains(y) <==> s.contains(y) || y == x,
        insert_ranked(s, x).to_multiset() == s.to_multiset().insert(x),
        forall|r: u64|
            #![trigger of_rank(insert_ranked(s, x), r)]
            of_rank(insert_ranked(s, x), r) == of_rank(s.push(x), r),
    decreases s.len(),
{
    broadcast use vstd::seq_lib::group_to_multiset_ensures;

    if s.len() == 0 || s.last().0 <= x.0 {
        assert forall|y: (u64, T)| #![trigger insert_ranked(s, x).contains(y)]
            insert_ranked(s, x).contains(y) <==> s.contains(y) || y == x by {
            lemma_push_contains(s, x, y);
        }
    } else {
        let init = s.drop_last();
        let head = insert_ranked(init, x);
        let last = s.last();
        lemma_insert_ranked(init, x);
        assert(init.push(last) =~= s);
        assert forall|y: (u64, T)| #![trigger insert_ranked(s, x).contains(y)]
            insert_ranked(s, x).contains(y) <==> s.contains(y) || y == x by {
            lemma_push_contains(init, last, y);
            lemma_push_contains(head, last, y);
            assert(head.contains(y) <==> init.contains(y) || y == x);
        }
        let result = head.push(last);
        assert forall|i: int, j: int| 0 <= i <= j < result.len() implies (#[trigger] result[i]).0
            <= (#[trigger] result[j]).0 by {
            if j < head.len() {
                assert(head[i].0 <= head[j].0);
            } else if i < head.len() {
                assert(head.contains(head[i]));
                if init.contains(head[i]) {
                    let k = choose|k: int| 0 <= k < init.len() && init[k] == head[i];
                    assert(s[k].0 <= s[s.len() - 1].0);
                }
            }
        }
        assert(result.to_multiset() =~= s.to_multiset().insert(x));
        assert forall|r: u64|
            #![trigger of_rank(insert_ranked(s, x), r)]
            of_rank(insert_ranked(s, x), r) == of_rank(s.push(x), r) by {
            assert(of_rank(head, r) == of_rank(init.push(x), r));
            lemma_of_rank_push(head, last, r);
            lemma_of_rank_push(s, x, r);
            lemma_of_rank_push(init, last, r);
            lemma_of_rank_push(init, x, r);
        }
    }
}

/// Sorting yields the same elements by ascending rank, those of one rank in their old order.
pub proof fn lemma_sort_ranked<T>(s: Seq<(u64, T)>)
    ensures
        ranks_ascend(sort_ranked(s)),
        sort_ranked(s).len() == s.len(),
        sort_ranked(s).to_multiset() == s.to_multiset(),
        forall|y: (u64, T)| #![trigger sort_ranked(s).contains(y)]
            sort_ranked(s).contains(y) <==> s.contains(y),
        forall|r: u64|
            #![trigger of_rank(sort_ranked(s), r)]
            of_rank(sort_ranked(s), r) == of_rank(s, r),
    decreases s.len(),
{
    broadcast use vstd::seq_lib::group_to_multiset_ensures;

    if s.len() > 0 {
        let init = s.drop_last();
        lemma_sort_ranked(init);
        lemma_insert_ranked(sort_ranked(init), s.last());
        assert(init.push(s.last()) =~= s);
        assert forall|y: (u64, T)| #![trigger sort_ranked(s).contains(y)]
            sort_ranked(s).contains(y) <==> s.contains(y) by {
            lemma_push_contains(init, s.last(), y);
            assert(sort_ranked(init).contains(y) <==> init.contains(y));
        }
        assert forall|r: u64|
            #![trigger of_rank(sort_ranked(s), r)]
            of_rank(sort_ranked(s), r) == of_rank(s, r) by {
            let sorted = sort_ranked(init);
            assert(of_rank(sorted, r) == of_rank(init, r));
            assert(of_rank(insert_ranked(sorted, s.last()), r) == of_rank(sorted.push(s.last()), r));
            lemma_of_rank_push(sorted, s.last(), r);
            lemma_of_rank_push(init, s.last(), r);
        }
    }
}

proof fn lemma_insert_ranked_at<T>(s: Seq<(u64, T)>, x: (u64, T), at: int)
    requires
        0 <= at <= s.len(),
        at > 0 ==> s[at - 1].0 <= x.0,
        forall|k: int| at <= k < s.len() ==> (#[trigger] s[k]).0 > x.0,
    ensures
        insert_ranked(s, x) == s.insert(at, x),
    decreases s.len(),
{
    if at == s.len() {
        assert(s.insert(at, x) =~= s.push(x));
    } else {
        lemma_insert_ranked_at(s.drop_last(), x, at);
        assert(s.drop_last().insert(at, x).push(s.last()) =~= s.insert(at, x));
    }
}

/// Sorts by ascending rank and keeps the order of elements of one rank.
pub fn sort_ranked_items<T: Copy>(items: Vec<(u64, T)>) -> (sorted: Vec<(u64, T)>)
    ensures
        sorted@ == sort_ranked(items@),
{
    let mut sorted: Vec<(u64, T)> = Vec::new();
    let mut i: usize = 0;
    while i < items.len()
        invariant
            i <= items@.len(),
            sorted@ == sort_ranked(items@.take(i as int)),
        decreases items@.len() - i,
    {
        let item = items[i];
        let mut at: usize = sorted.len();
        while at > 0 && sorted[at - 1].0 > item.0
            invariant
                at <= sorted@.len(),
                forall|k: int| at <= k < sorted@.len() ==> (#[trigger] sorted@[k]).0 > item.0,
            decreases at,
        {
            at -= 1;
        }
        proof {
            lemma_insert_ranked_at(sorted@, item, at as int);
            assert(items@.take(i + 1).drop_last() =~= items@.take(i as int));
        }
        sorted.insert(at, item);
        i += 1;
    }
    assert(items@.take(i as int) =~= items@);
    sorted
}

/// Whether the elements of `made` come, in order, from the elements of `from` at these places: those
/// that make something, and from each what it makes.
pub open spec fn made_at<A, B>(
    from: Seq<A>,
    made: Seq<B>,
    at: Seq<int>,
    makes_some: spec_fn(A) -> bool,
    makes: spec_fn(A, B) -> bool,
) -> bool {
    &&& at.len() == made.len()
    &&& forall|k: int|
        0 <= k < at.len() ==> 0 <= (#[trigger] at[k]) < from.len() && makes(from[at[k]], made[k])
    &&& forall|j: int, k: int| 0 <= j < k < at.len() ==> (#[trigger] at[j]) < (#[trigger] at[k])
    &&& forall|i: int|
        #![trigger at.contains(i)]
        0 <= i < from.len() ==> (at.contains(i) <==> makes_some(from[i]))
}

/// Whether `made` holds, in order, what the elements of `from` make that make something.
pub open spec fn made_in_order<A, B>(
    from: Seq<A>,
    made: Seq<B>,
    makes_some: spec_fn(A) -> bool,
    makes: spec_fn(A, B) -> bool,
) -> bool {
    exists|at: Seq<int>| #[trigger] made_at(from, made, at, makes_some, makes)
}

/// One more element makes one thing more, or nothing.
pub proof fn lemma_made_in_order<A, B>(
    from: Seq<A>,
    made: Seq<B>,
    x: A,
    more: Seq<B>,
    makes_some: spec_fn(A) -> bool,
    makes: spec_fn(A, B) -> bool,
)
    requires
        made_in_order(from, made, makes_some, makes),
        makes_some(x) ==> more.len() == 1 && makes(x, more[0]),
        !makes_some(x) ==> more.len() == 0,
    ensures
        made_in_order(from.push(x), made + more, makes_some, makes),
{
    let before = choose|at: Seq<int>| #[trigger] made_at(from, made, at, makes_some, makes);
    let end = from.len() as int;
    let all = from.push(x);
    let at = if makes_some(x) {
        before.push(end)
    } else {
        before
    };
    assert forall|i: int| #![trigger at.contains(i)] 0 <= i < all.len() implies (at.contains(i)
        <==> makes_some(all[i])) by {
        lemma_push_contains(before, end, i);
        if i < end {
            assert(before.contains(i) <==> makes_some(from[i]));
        } else if before.contains(end) {
            let k = choose|k: int| 0 <= k < before.len() && before[k] == end;
            assert(before[k] < from.len());
        }
    }
    assert forall|k: int| 0 <= k < at.len() implies 0 <= (#[trigger] at[k]) < all.len() && makes(
        all[at[k]],
        (made + more)[k],
    ) by {
        if k < before.len() {
            assert(0 <= before[k] < from.len() && makes(from[before[k]], made[k]));
        }
    }
    assert forall|j: int, k: int| 0 <= j < k < at.len() implies (#[trigger] at[j]) < (
    #[trigger] at[k]) by {
        assert(before[j] < from.len());
        if k < before.len() {
            assert(before[j] < before[k]);
        }
    }
    assert(made_at(all, made + more, at, makes_some, makes));
}

/// No more is made than there are elements.
pub proof fn lemma_no_more_is_made<A, B>(
    from: Seq<A>,
    made: Seq<B>,
    makes_some: spec_fn(A) -> bool,
    makes: spec_fn(A, B) -> bool,
)
    requires
        made_in_order(from, made, makes_some, makes),
    ensures
        made.len() <= from.len(),
{
    let at = choose|at: Seq<int>| #[trigger] made_at(from, made, at, makes_some, makes);
    lemma_ascending_fit(at, from.len());
}

proof fn lemma_ascending_fit(at: Seq<int>, count: nat)
    requires
        forall|k: int| 0 <= k < at.len() ==> 0 <= (#[trigger] at[k]) < count,
        forall|j: int, k: int| 0 <= j < k < at.len() ==> (#[trigger] at[j]) < (#[trigger] at[k]),
    ensures
        at.len() <= count,
    decreases at.len(),
{
    if at.len() > 0 {
        let last = at.last();
        let init = at.drop_last();
        assert(at[at.len() - 1] == last);
        assert forall|k: int| 0 <= k < init.len() implies 0 <= (#[trigger] init[k]) < last as nat by {
            assert(init[k] == at[k]);
        }
        assert forall|j: int, k: int| 0 <= j < k < init.len() implies (#[trigger] init[j]) < (
        #[trigger] init[k]) by {
            assert(init[j] == at[j] && init[k] == at[k]);
        }
        lemma_ascending_fit(init, last as nat);
    }
}

/// Nothing is made of nothing.
pub proof fn lemma_made_of_nothing<A, B>(
    makes_some: spec_fn(A) -> bool,
    makes: spec_fn(A, B) -> bool,
)
    ensures
        made_in_order(Seq::<A>::empty(), Seq::<B>::empty(), makes_some, makes),
{
    assert(made_at(Seq::<A>::empty(), Seq::<B>::empty(), Seq::<int>::empty(), makes_some, makes));
}

/// A filtered sequence holds, in order, the elements that pass.
pub proof fn lemma_filter_in_order<A>(
    s: Seq<A>,
    p: spec_fn(A) -> bool,
    passes: spec_fn(A) -> bool,
    same: spec_fn(A, A) -> bool,
)
    requires
        forall|x: A| #[trigger] p(x) <==> passes(x),
        forall|x: A| #[trigger] same(x, x),
    ensures
        made_in_order(s, s.filter(p), passes, same),
    decreases s.len(),
{
    reveal(Seq::filter);
    if s.len() == 0 {
        lemma_made_of_nothing(passes, same);
        assert(s =~= Seq::empty());
    } else {
        let init = s.drop_last();
        let x = s.last();
        lemma_filter_in_order(init, p, passes, same);
        assert(init.push(x) =~= s);
        assert(p(x) <==> passes(x));
        assert(same(x, x));
        let more = if p(x) {
            seq![x]
        } else {
            Seq::empty()
        };
        lemma_made_in_order(init, init.filter(p), x, more, passes, same);
        assert(init.filter(p) + more =~= s.filter(p));
    }
}

} // verus!
