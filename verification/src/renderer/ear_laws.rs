//! What holds of splitting outlines into triangles.

use crate::renderer::polygon;
use crate::renderer::polygon::Winding;
use crate::seqs;
use vstd::prelude::*;

verus! {

/// How many corners further on `to` is, going round an outline of `count` corners the way it runs.
pub open spec fn steps_round(count: nat, winding: Winding, from: usize, to: usize) -> int {
    let ahead = if winding is Clockwise {
        from - to
    } else {
        to - from
    };
    if ahead < 0 {
        ahead + count
    } else {
        ahead
    }
}

/// The corner that going round starts with.
pub open spec fn start_corner(count: nat, winding: Winding) -> usize {
    (if winding is Clockwise {
        count - 1
    } else {
        0
    }) as usize
}

/// Whether the corner is still there once these triangles have been cut off, each of which takes
/// away its second corner.
pub open spec fn is_left(count: nat, cut: Seq<(usize, usize, usize)>, corner: usize) -> bool {
    corner < count && forall|j: int| 0 <= j < cut.len() ==> (#[trigger] cut[j]).1 != corner
}

/// Whether the second corner comes next after the first one, of those that are still there.
pub open spec fn comes_next(
    count: nat,
    winding: Winding,
    cut: Seq<(usize, usize, usize)>,
    a: usize,
    b: usize,
) -> bool {
    &&& a != b
    &&& is_left(count, cut, a)
    &&& is_left(count, cut, b)
    &&& forall|q: usize|
        #![trigger is_left(count, cut, q)]
        is_left(count, cut, q) && q != a ==> steps_round(count, winding, a, b) <= steps_round(
            count,
            winding,
            a,
            q,
        )
}

/// Whether the three corners follow each other, of those that are still there, bulge, and have none
/// of the others in their triangle.
pub open spec fn can_be_cut(
    count: nat,
    winding: Winding,
    bulges: spec_fn(usize, usize, usize) -> bool,
    holds: spec_fn(usize, usize, usize, usize) -> bool,
    cut: Seq<(usize, usize, usize)>,
    t: (usize, usize, usize),
) -> bool {
    &&& comes_next(count, winding, cut, t.0, t.1)
    &&& comes_next(count, winding, cut, t.1, t.2)
    &&& bulges(t.0, t.1, t.2)
    &&& forall|q: usize|
        #![trigger is_left(count, cut, q)]
        is_left(count, cut, q) && q != t.0 && q != t.1 && q != t.2 ==> !holds(q, t.0, t.1, t.2)
}

/// Whether each triangle could be cut off when it was its turn, and none with an earlier second
/// corner could.
pub open spec fn are_cut_in_turn(
    count: nat,
    winding: Winding,
    bulges: spec_fn(usize, usize, usize) -> bool,
    holds: spec_fn(usize, usize, usize, usize) -> bool,
    triangles: Seq<(usize, usize, usize)>,
) -> bool {
    forall|j: int|
        0 <= j < triangles.len() ==> is_first_cut(
            count,
            winding,
            bulges,
            holds,
            triangles.take(j),
            #[trigger] triangles[j],
        )
}

/// Whether the triangle can be cut off, and none with an earlier second corner can.
pub open spec fn is_first_cut(
    count: nat,
    winding: Winding,
    bulges: spec_fn(usize, usize, usize) -> bool,
    holds: spec_fn(usize, usize, usize, usize) -> bool,
    cut: Seq<(usize, usize, usize)>,
    t: (usize, usize, usize),
) -> bool {
    let start = start_corner(count, winding);
    &&& can_be_cut(count, winding, bulges, holds, cut, t)
    &&& forall|other: (usize, usize, usize)| #[trigger]
        can_be_cut(count, winding, bulges, holds, cut, other) ==> steps_round(
            count,
            winding,
            start,
            t.1,
        ) <= steps_round(count, winding, start, other.1)
}

/// Whether nothing more can be cut off.
pub open spec fn is_stuck(
    count: nat,
    winding: Winding,
    bulges: spec_fn(usize, usize, usize) -> bool,
    holds: spec_fn(usize, usize, usize, usize) -> bool,
    cut: Seq<(usize, usize, usize)>,
) -> bool {
    &&& cut.len() + 3 < count
    &&& are_cut_in_turn(count, winding, bulges, holds, cut)
    &&& forall|t: (usize, usize, usize)| !#[trigger]
        can_be_cut(count, winding, bulges, holds, cut, t)
}

/// Whether the triangles split the outline: all but the last are cut off in turn, and the last one
/// is what is left, from the corner that comes first.
pub open spec fn is_splitting(
    count: nat,
    winding: Winding,
    bulges: spec_fn(usize, usize, usize) -> bool,
    holds: spec_fn(usize, usize, usize, usize) -> bool,
    triangles: Seq<(usize, usize, usize)>,
) -> bool {
    let cut = triangles.drop_last();
    let t = triangles.last();
    let start = start_corner(count, winding);
    &&& triangles.len() == count - 2
    &&& are_cut_in_turn(count, winding, bulges, holds, cut)
    &&& comes_next(count, winding, cut, t.0, t.1)
    &&& comes_next(count, winding, cut, t.1, t.2)
    &&& comes_next(count, winding, cut, t.2, t.0)
    &&& steps_round(count, winding, start, t.0) < steps_round(count, winding, start, t.1)
    &&& steps_round(count, winding, start, t.1) < steps_round(count, winding, start, t.2)
}

/// Whether the list holds the corners that are still there, in the order of going round.
spec fn lists_left(
    count: nat,
    winding: Winding,
    cut: Seq<(usize, usize, usize)>,
    remaining: Seq<usize>,
) -> bool {
    let start = start_corner(count, winding);
    &&& count <= usize::MAX
    &&& remaining.len() + cut.len() == count
    &&& forall|i: int, j: int|
        0 <= i < j < remaining.len() ==> steps_round(
            count,
            winding,
            start,
            #[trigger] remaining[i],
        ) < steps_round(count, winding, start, #[trigger] remaining[j])
    &&& forall|q: usize| #[trigger] remaining.contains(q) <==> is_left(count, cut, q)
}

spec fn place_after(remaining: Seq<usize>, i: int) -> int {
    if i + 1 == remaining.len() {
        0
    } else {
        i + 1
    }
}

proof fn lemma_after_comes_next(
    count: nat,
    winding: Winding,
    cut: Seq<(usize, usize, usize)>,
    remaining: Seq<usize>,
    i: int,
    b: usize,
)
    requires
        lists_left(count, winding, cut, remaining),
        remaining.len() >= 2,
        0 <= i < remaining.len(),
    ensures
        comes_next(count, winding, cut, remaining[i], b) <==> b == polygon::corner_after(
            remaining,
            i,
        ),
{
    let start = start_corner(count, winding);
    let a = remaining[i];
    let n = place_after(remaining, i);
    let next = remaining[n];
    assert(next == polygon::corner_after(remaining, i));
    assert(remaining.contains(a));
    assert(remaining.contains(next));
    if i < n {
        assert(steps_round(count, winding, start, a) < steps_round(count, winding, start, next));
    } else {
        assert(steps_round(count, winding, start, next) < steps_round(count, winding, start, a));
    }
    assert forall|q: usize|
        #![trigger is_left(count, cut, q)]
        is_left(count, cut, q) && q != a && q != next implies steps_round(count, winding, a, next)
        < steps_round(count, winding, a, q) by {
        assert(remaining.contains(q));
        let m = choose|m: int| 0 <= m < remaining.len() && remaining[m] == q;
        if m < i {
            assert(steps_round(count, winding, start, q) < steps_round(count, winding, start, a));
        } else {
            assert(steps_round(count, winding, start, a) < steps_round(count, winding, start, q));
        }
        if m < n {
            assert(steps_round(count, winding, start, q) < steps_round(
                count,
                winding,
                start,
                next,
            ));
        } else {
            assert(steps_round(count, winding, start, next) < steps_round(
                count,
                winding,
                start,
                q,
            ));
        }
    }
    if comes_next(count, winding, cut, a, b) && b != next {
        assert(is_left(count, cut, b));
        assert(is_left(count, cut, next));
    }
}

proof fn lemma_ear_can_be_cut(
    count: nat,
    winding: Winding,
    bulges: spec_fn(usize, usize, usize) -> bool,
    holds: spec_fn(usize, usize, usize, usize) -> bool,
    cut: Seq<(usize, usize, usize)>,
    remaining: Seq<usize>,
    i: int,
)
    requires
        lists_left(count, winding, cut, remaining),
        remaining.len() > 3,
        0 <= i < remaining.len(),
    ensures
        polygon::is_ear(remaining, i, bulges, holds) <==> can_be_cut(
            count,
            winding,
            bulges,
            holds,
            cut,
            (
                polygon::corner_before(remaining, i),
                remaining[i],
                polygon::corner_after(remaining, i),
            ),
        ),
{
    let a = polygon::corner_before(remaining, i);
    let b = remaining[i];
    let c = polygon::corner_after(remaining, i);
    let h = if i == 0 {
        remaining.len() - 1
    } else {
        i - 1
    };
    assert(place_after(remaining, h) == i);
    lemma_after_comes_next(count, winding, cut, remaining, h, b);
    lemma_after_comes_next(count, winding, cut, remaining, i, c);
    if can_be_cut(count, winding, bulges, holds, cut, (a, b, c)) {
        assert forall|k: int|
            0 <= k < remaining.len() && #[trigger] remaining[k] != a && remaining[k] != b
                && remaining[k] != c implies !holds(remaining[k], a, b, c) by {
            assert(remaining.contains(remaining[k]));
            assert(is_left(count, cut, remaining[k]));
        }
    }
    if polygon::is_ear(remaining, i, bulges, holds) {
        assert forall|q: usize|
            #![trigger is_left(count, cut, q)]
            is_left(count, cut, q) && q != a && q != b && q != c implies !holds(q, a, b, c) by {
            assert(remaining.contains(q));
            let k = choose|k: int| 0 <= k < remaining.len() && remaining[k] == q;
            assert(remaining[k] == q);
        }
    }
}

/// What can be cut off is an ear of the list.
proof fn lemma_cut_is_an_ear(
    count: nat,
    winding: Winding,
    bulges: spec_fn(usize, usize, usize) -> bool,
    holds: spec_fn(usize, usize, usize, usize) -> bool,
    cut: Seq<(usize, usize, usize)>,
    remaining: Seq<usize>,
    t: (usize, usize, usize),
) -> (i: int)
    requires
        lists_left(count, winding, cut, remaining),
        remaining.len() > 3,
        can_be_cut(count, winding, bulges, holds, cut, t),
    ensures
        0 <= i < remaining.len(),
        remaining[i] == t.1,
        polygon::is_ear(remaining, i, bulges, holds),
{
    assert(remaining.contains(t.0));
    assert(remaining.contains(t.1));
    let h = choose|h: int| 0 <= h < remaining.len() && remaining[h] == t.0;
    lemma_after_comes_next(count, winding, cut, remaining, h, t.1);
    let i = place_after(remaining, h);
    assert(remaining[i] == t.1);
    lemma_after_comes_next(count, winding, cut, remaining, i, t.2);
    assert(polygon::corner_before(remaining, i) == t.0);
    lemma_ear_can_be_cut(count, winding, bulges, holds, cut, remaining, i);
    i
}

proof fn lemma_rest_is_left(
    count: nat,
    winding: Winding,
    cut: Seq<(usize, usize, usize)>,
    remaining: Seq<usize>,
    i: int,
    t: (usize, usize, usize),
)
    requires
        lists_left(count, winding, cut, remaining),
        0 <= i < remaining.len(),
        t.1 == remaining[i],
    ensures
        lists_left(count, winding, cut.push(t), remaining.remove(i)),
{
    let start = start_corner(count, winding);
    let rest = remaining.remove(i);
    let more = cut.push(t);
    assert forall|x: int, y: int| 0 <= x < y < rest.len() implies steps_round(
        count,
        winding,
        start,
        #[trigger] rest[x],
    ) < steps_round(count, winding, start, #[trigger] rest[y]) by {
        let u = if x < i {
            x
        } else {
            x + 1
        };
        let v = if y < i {
            y
        } else {
            y + 1
        };
        assert(rest[x] == remaining[u] && rest[y] == remaining[v]);
    }
    assert forall|q: usize| #[trigger] rest.contains(q) <==> is_left(count, more, q) by {
        assert(remaining.contains(q) <==> is_left(count, cut, q));
        if rest.contains(q) {
            let x = choose|x: int| 0 <= x < rest.len() && rest[x] == q;
            let u = if x < i {
                x
            } else {
                x + 1
            };
            assert(remaining[u] == q);
            if u < i {
                assert(steps_round(count, winding, start, remaining[u]) < steps_round(
                    count,
                    winding,
                    start,
                    remaining[i],
                ));
            } else {
                assert(steps_round(count, winding, start, remaining[i]) < steps_round(
                    count,
                    winding,
                    start,
                    remaining[u],
                ));
            }
            assert forall|j: int| 0 <= j < more.len() implies (#[trigger] more[j]).1 != q by {
                if j < cut.len() {
                    assert(more[j] == cut[j]);
                }
            }
        }
        if is_left(count, more, q) {
            assert forall|j: int| 0 <= j < cut.len() implies (#[trigger] cut[j]).1 != q by {
                assert(more[j] == cut[j]);
            }
            assert(more[cut.len() as int].1 != q);
            let u = choose|u: int| 0 <= u < remaining.len() && remaining[u] == q;
            assert(u != i);
            if u < i {
                assert(rest[u] == q);
            } else {
                assert(rest[u - 1] == q);
            }
        }
    }
}

proof fn lemma_splitting(
    count: nat,
    winding: Winding,
    bulges: spec_fn(usize, usize, usize) -> bool,
    holds: spec_fn(usize, usize, usize, usize) -> bool,
    cut: Seq<(usize, usize, usize)>,
    remaining: Seq<usize>,
)
    requires
        lists_left(count, winding, cut, remaining),
        remaining.len() >= 3,
        are_cut_in_turn(count, winding, bulges, holds, cut),
    ensures
        match polygon::ears(remaining, bulges, holds) {
            Some(rest) => is_splitting(count, winding, bulges, holds, cut + rest),
            None => exists|stuck: Seq<(usize, usize, usize)>|
                is_stuck(count, winding, bulges, holds, stuck),
        },
    decreases remaining.len(),
{
    let start = start_corner(count, winding);
    if remaining.len() == 3 {
        let t = (remaining[0], remaining[1], remaining[2]);
        let all = cut + seq![t];
        assert(all.drop_last() =~= cut);
        lemma_after_comes_next(count, winding, cut, remaining, 0, t.1);
        lemma_after_comes_next(count, winding, cut, remaining, 1, t.2);
        lemma_after_comes_next(count, winding, cut, remaining, 2, t.0);
        assert(polygon::ears(remaining, bulges, holds) == Some(seq![t]));
    } else {
        let i = polygon::first_ear(remaining, bulges, holds);
        let p = |k: int| polygon::is_ear(remaining, k, bulges, holds);
        lemma_least(0, remaining.len() as int, p);
        if 0 <= i < remaining.len() {
            let t = (
                polygon::corner_before(remaining, i),
                remaining[i],
                polygon::corner_after(remaining, i),
            );
            assert(p(i));
            lemma_ear_can_be_cut(count, winding, bulges, holds, cut, remaining, i);
            assert forall|other: (usize, usize, usize)| #[trigger]
                can_be_cut(count, winding, bulges, holds, cut, other) implies steps_round(
                count,
                winding,
                start,
                t.1,
            ) <= steps_round(count, winding, start, other.1) by {
                let k = lemma_cut_is_an_ear(
                    count,
                    winding,
                    bulges,
                    holds,
                    cut,
                    remaining,
                    other,
                );
                assert(p(k));
                if i < k {
                    assert(steps_round(count, winding, start, remaining[i]) < steps_round(
                        count,
                        winding,
                        start,
                        remaining[k],
                    ));
                }
            }
            let more = cut.push(t);
            assert forall|j: int| 0 <= j < more.len() implies is_first_cut(
                count,
                winding,
                bulges,
                holds,
                more.take(j),
                #[trigger] more[j],
            ) by {
                assert(more.take(j) =~= cut.take(j));
                if j < cut.len() {
                    assert(more[j] == cut[j]);
                } else {
                    assert(cut.take(j) =~= cut);
                }
            }
            lemma_rest_is_left(count, winding, cut, remaining, i, t);
            lemma_splitting(count, winding, bulges, holds, more, remaining.remove(i));
            if let Some(rest) = polygon::ears(remaining.remove(i), bulges, holds) {
                assert(cut + (seq![t] + rest) =~= more + rest);
            }
        } else {
            assert forall|t: (usize, usize, usize)| !#[trigger]
                can_be_cut(count, winding, bulges, holds, cut, t) by {
                if can_be_cut(count, winding, bulges, holds, cut, t) {
                    let k = lemma_cut_is_an_ear(
                        count,
                        winding,
                        bulges,
                        holds,
                        cut,
                        remaining,
                        t,
                    );
                    assert(p(k));
                }
            }
            assert(is_stuck(count, winding, bulges, holds, cut));
        }
    }
}

proof fn lemma_least(from: int, end: int, p: spec_fn(int) -> bool)
    requires
        from <= end,
    ensures
        from <= seqs::least_from(from, end, p) <= end,
        seqs::least_from(from, end, p) < end ==> p(seqs::least_from(from, end, p)),
        forall|k: int| from <= k < seqs::least_from(from, end, p) ==> !#[trigger] p(k),
    decreases end - from,
{
    if from < end && !p(from) {
        lemma_least(from + 1, end, p);
    }
}

/// What splitting an outline comes to. Each triangle but the last is that of a corner with its two
/// neighbours, of the corners that were left when it was cut off; it bulges, none of the other
/// corners that were left lies in it, and no corner before it could be cut off. The last triangle
/// is what is left. There are none where the outline has no area or fewer than three corners, or
/// where cutting off gets stuck.
pub proof fn law_triangles_are_free_of_other_corners(
    count: nat,
    winding: Winding,
    bulges: spec_fn(usize, usize, usize) -> bool,
    holds: spec_fn(usize, usize, usize, usize) -> bool,
)
    requires
        count <= usize::MAX,
    ensures
        match polygon::triangles_of(count, winding, bulges, holds) {
            Some(triangles) => count >= 3 && winding !is Flat && is_splitting(
                count,
                winding,
                bulges,
                holds,
                triangles,
            ),
            None => count < 3 || winding is Flat || exists|cut: Seq<(usize, usize, usize)>|
                is_stuck(count, winding, bulges, holds, cut),
        },
{
    if count >= 3 && winding !is Flat {
        let order = polygon::running_order(count, winding);
        let none = Seq::<(usize, usize, usize)>::empty();
        assert forall|q: usize| #[trigger] order.contains(q) <==> is_left(count, none, q) by {
            if q < count {
                let i = if winding is Clockwise {
                    count - 1 - q
                } else {
                    q as int
                };
                assert(order[i] == q);
            }
        }
        lemma_splitting(count, winding, bulges, holds, none, order);
        if let Some(rest) = polygon::ears(order, bulges, holds) {
            assert(none + rest =~= rest);
        }
    }
}

} // verus!
