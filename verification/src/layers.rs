//! Ordered sets and maps of layers.

use crate::scene::LayerId;
use crate::seqs;
use vstd::prelude::*;

verus! {

/// The order of layers: by layer number, then by datatype.
pub open spec fn layer_lt(a: LayerId, b: LayerId) -> bool {
    a.layer < b.layer || (a.layer == b.layer && a.datatype < b.datatype)
}

/// Whether the layers ascend, each of them once.
pub open spec fn layers_ascend(s: Seq<LayerId>) -> bool {
    forall|i: int, j: int| 0 <= i < j < s.len() ==> layer_lt(#[trigger] s[i], #[trigger] s[j])
}

/// Whether one layer comes before another.
pub fn layer_before(a: LayerId, b: LayerId) -> (before: bool)
    ensures
        before == layer_lt(a, b),
{
    a.layer < b.layer || (a.layer == b.layer && a.datatype < b.datatype)
}

/// The layers of a set in ascending order.
pub open spec fn ascending(set: Set<LayerId>) -> Seq<LayerId> {
    choose|s: Seq<LayerId>| #[trigger] layers_ascend(s) && s.to_set() == set
}

/// An ascending list is the list of its layers.
pub proof fn lemma_ascending(s: Seq<LayerId>)
    requires
        layers_ascend(s),
    ensures
        ascending(s.to_set()) == s,
{
    let t = ascending(s.to_set());
    assert(layers_ascend(t) && t.to_set() == s.to_set());
    assert forall|x: LayerId| t.contains(x) <==> s.contains(x) by {
        assert(t.to_set().contains(x) <==> s.to_set().contains(x));
    }
    law_ascending_layers_are_unique(t, s);
}

/// The layers of a list that are not in another have an ascending list.
pub proof fn lemma_ascending_exists(ids: Seq<LayerId>, without: Seq<LayerId>)
    ensures
        layers_ascend(ascending(ids.to_set().difference(without.to_set()))),
        ascending(ids.to_set().difference(without.to_set())).to_set() == ids.to_set().difference(
            without.to_set(),
        ),
    decreases ids.len(),
{
    let wanted = ids.to_set().difference(without.to_set());
    if ids.len() == 0 {
        let none = Seq::<LayerId>::empty();
        assert(none.to_set() =~= wanted);
        assert(layers_ascend(none));
    } else {
        let head = ids.drop_last();
        let last = ids.last();
        lemma_ascending_exists(head, without);
        let earlier = head.to_set().difference(without.to_set());
        let s = ascending(earlier);
        assert(head.push(last) =~= ids);
        assert forall|x: LayerId| ids.contains(x) <==> head.contains(x) || x == last by {
            seqs::lemma_push_contains(head, last, x);
        }
        if without.contains(last) || head.contains(last) {
            assert(wanted =~= earlier);
        } else {
            assert(wanted =~= earlier.insert(last));
            assert(!s.contains(last)) by {
                assert(s.to_set().contains(last) <==> earlier.contains(last));
            }
            lemma_insert_ascending(s, last);
            let t = insert_ascending(s, last);
            assert(t.to_set() =~= wanted) by {
                assert forall|x: LayerId| t.to_set().contains(x) <==> wanted.contains(x) by {
                    assert(s.to_set().contains(x) <==> earlier.contains(x));
                    assert(t.contains(x) <==> s.contains(x) || x == last);
                }
            }
            assert(layers_ascend(t));
        }
    }
}

/// The ascending list with one more layer, in its place.
spec fn insert_ascending(s: Seq<LayerId>, layer: LayerId) -> Seq<LayerId>
    decreases s.len(),
{
    if s.len() == 0 || layer_lt(s.last(), layer) {
        s.push(layer)
    } else {
        insert_ascending(s.drop_last(), layer).push(s.last())
    }
}

proof fn lemma_insert_ascending(s: Seq<LayerId>, layer: LayerId)
    requires
        layers_ascend(s),
        !s.contains(layer),
    ensures
        layers_ascend(insert_ascending(s, layer)),
        forall|x: LayerId| #[trigger]
            insert_ascending(s, layer).contains(x) <==> s.contains(x) || x == layer,
    decreases s.len(),
{
    let t = insert_ascending(s, layer);
    if s.len() == 0 || layer_lt(s.last(), layer) {
        assert forall|x: LayerId| #[trigger] t.contains(x) <==> s.contains(x) || x == layer by {
            seqs::lemma_push_contains(s, layer, x);
        }
        assert forall|i: int, j: int| 0 <= i < j < t.len() implies layer_lt(
            #[trigger] t[i],
            #[trigger] t[j],
        ) by {
            if j == s.len() && i < s.len() - 1 {
                assert(layer_lt(s[i], s[s.len() - 1]));
            }
        }
    } else {
        let head = s.drop_last();
        let last = s.last();
        assert(head.push(last) =~= s);
        assert forall|x: LayerId| s.contains(x) <==> head.contains(x) || x == last by {
            seqs::lemma_push_contains(head, last, x);
        }
        assert(s.contains(last));
        lemma_insert_ascending(head, layer);
        let inner = insert_ascending(head, layer);
        assert forall|x: LayerId| #[trigger] t.contains(x) <==> s.contains(x) || x == layer by {
            seqs::lemma_push_contains(inner, last, x);
            assert(inner.contains(x) <==> head.contains(x) || x == layer);
        }
        assert forall|i: int, j: int| 0 <= i < j < t.len() implies layer_lt(
            #[trigger] t[i],
            #[trigger] t[j],
        ) by {
            if j == inner.len() {
                assert(inner.contains(inner[i]));
                if head.contains(inner[i]) {
                    let k = choose|k: int| 0 <= k < head.len() && head[k] == inner[i];
                    assert(layer_lt(s[k], s[s.len() - 1]));
                }
            }
        }
    }
}

/// Two ascending lists of the same layers are equal.
pub proof fn law_ascending_layers_are_unique(a: Seq<LayerId>, b: Seq<LayerId>)
    requires
        layers_ascend(a),
        layers_ascend(b),
        forall|x: LayerId| a.contains(x) <==> b.contains(x),
    ensures
        a == b,
    decreases a.len(),
{
    if a.len() == 0 {
        if b.len() > 0 {
            assert(b.contains(b[0]));
            assert(a.contains(b[0]));
        }
        assert(a =~= b);
    } else {
        let last = a.last();
        assert(a.contains(last));
        assert(b.contains(last));
        assert(b.len() > 0);
        let at = choose|k: int| 0 <= k < b.len() && b[k] == last;
        assert(b.contains(b.last()));
        assert(a.contains(b.last()));
        let from = choose|k: int| 0 <= k < a.len() && a[k] == b.last();
        if at < b.len() - 1 {
            assert(layer_lt(b[at], b[b.len() - 1]));
            if from < a.len() - 1 {
                assert(layer_lt(a[from], a[a.len() - 1]));
            }
            assert(false);
        }
        let a1 = a.drop_last();
        let b1 = b.drop_last();
        assert forall|x: LayerId| a1.contains(x) <==> b1.contains(x) by {
            if a1.contains(x) {
                let k = choose|k: int| 0 <= k < a1.len() && a1[k] == x;
                assert(a[k] == x);
                assert(a.contains(x));
                assert(b.contains(x));
                let m = choose|m: int| 0 <= m < b.len() && b[m] == x;
                assert(layer_lt(a[k], a[a.len() - 1]));
                assert(b1[m] == x);
            }
            if b1.contains(x) {
                let k = choose|k: int| 0 <= k < b1.len() && b1[k] == x;
                assert(b[k] == x);
                assert(b.contains(x));
                assert(a.contains(x));
                let m = choose|m: int| 0 <= m < a.len() && a[m] == x;
                assert(layer_lt(b[k], b[b.len() - 1]));
                assert(a1[m] == x);
            }
        }
        law_ascending_layers_are_unique(a1, b1);
        assert(a =~= a1.push(last));
        assert(b =~= b1.push(last));
    }
}

/// A set of layers, listed in ascending order.
#[derive(Debug, PartialEq, Eq)]
pub struct LayerSet {
    ids: Vec<LayerId>,
}

impl View for LayerSet {
    type V = Set<LayerId>;

    open spec fn view(&self) -> Set<LayerId> {
        self.listed().to_set()
    }
}

/// The place at which the layer stands or would stand in the ascending list.
fn layer_position(ids: &Vec<LayerId>, layer: LayerId) -> (at: usize)
    requires
        layers_ascend(ids@),
    ensures
        at <= ids@.len(),
        forall|k: int| 0 <= k < at ==> layer_lt(#[trigger] ids@[k], layer),
        forall|k: int| at <= k < ids@.len() ==> !layer_lt(#[trigger] ids@[k], layer),
{
    let mut low: usize = 0;
    let mut high: usize = ids.len();
    while low < high
        invariant
            layers_ascend(ids@),
            low <= high <= ids@.len(),
            forall|k: int| 0 <= k < low ==> layer_lt(#[trigger] ids@[k], layer),
            forall|k: int| high <= k < ids@.len() ==> !layer_lt(#[trigger] ids@[k], layer),
        decreases high - low,
    {
        let mid: usize = low + (high - low) / 2;
        if layer_before(ids[mid], layer) {
            assert forall|k: int| 0 <= k < mid + 1 implies layer_lt(#[trigger] ids@[k], layer) by {
                if k < mid {
                    assert(layer_lt(ids@[k], ids@[mid as int]));
                }
            }
            low = mid + 1;
        } else {
            assert forall|k: int| mid <= k < ids@.len() implies !layer_lt(
                #[trigger] ids@[k],
                layer,
            ) by {
                if k > mid {
                    assert(layer_lt(ids@[mid as int], ids@[k]));
                }
            }
            high = mid;
        }
    }
    low
}

impl LayerSet {
    /// The layers in ascending order.
    pub closed spec fn listed(self) -> Seq<LayerId> {
        self.ids@
    }

    #[verifier::type_invariant]
    spec fn well_formed(self) -> bool {
        layers_ascend(self.ids@)
    }

    /// The empty set.
    pub fn new() -> (set: Self)
        ensures
            set@ == Set::<LayerId>::empty(),
            set.listed() == Seq::<LayerId>::empty(),
    {
        let set = LayerSet { ids: Vec::new() };
        assert(set@ =~= Set::empty());
        set
    }

    /// The set of the layers in the list.
    pub fn from_layers(layers: &[LayerId]) -> (set: Self)
        ensures
            set@ == layers@.to_set(),
    {
        let mut set = LayerSet::new();
        let mut i: usize = 0;
        while i < layers.len()
            invariant
                i <= layers@.len(),
                set@ == layers@.take(i as int).to_set(),
            decreases layers@.len() - i,
        {
            proof {
                assert(layers@.take(i + 1) =~= layers@.take(i as int).push(layers@[i as int]));
                assert forall|x: LayerId|
                    layers@.take(i + 1).to_set().contains(x) <==> layers@.take(
                        i as int,
                    ).to_set().insert(layers@[i as int]).contains(x) by {
                    crate::seqs::lemma_push_contains(
                        layers@.take(i as int),
                        layers@[i as int],
                        x,
                    );
                }
                assert(layers@.take(i + 1).to_set() =~= layers@.take(i as int).to_set().insert(
                    layers@[i as int],
                ));
            }
            set.insert(layers[i]);
            i += 1;
        }
        assert(layers@.take(i as int) =~= layers@);
        set
    }

    /// The layers in ascending order.
    pub fn ids(&self) -> (ids: &[LayerId])
        ensures
            ids@ == self.listed(),
            layers_ascend(ids@),
            ids@.to_set() == self@,
            ids@ == ascending(self@),
    {
        proof {
            use_type_invariant(self);
            lemma_ascending(self.ids@);
        }
        self.ids.as_slice()
    }

    /// The layers in ascending order, as a list of its own.
    pub fn into_ids(self) -> (ids: Vec<LayerId>)
        ensures
            ids@ == self.listed(),
            layers_ascend(ids@),
            ids@.to_set() == self@,
            ids@ == ascending(self@),
    {
        proof {
            use_type_invariant(&self);
            lemma_ascending(self.ids@);
        }
        self.ids
    }

    /// Whether the set is empty.
    pub fn is_empty(&self) -> (empty: bool)
        ensures
            empty == (self@ == Set::<LayerId>::empty()),
    {
        proof {
            if self.ids@.len() > 0 {
                assert(self.ids@.contains(self.ids@[0]));
                assert(self@.contains(self.ids@[0]));
            } else {
                assert(self@ =~= Set::empty());
            }
        }
        self.ids.len() == 0
    }

    /// Whether the layer is in the set.
    pub fn contains(&self, layer: LayerId) -> (found: bool)
        ensures
            found == self@.contains(layer),
    {
        proof {
            use_type_invariant(self);
        }
        let at: usize = layer_position(&self.ids, layer);
        if at < self.ids.len() && self.ids[at] == layer {
            assert(self.ids@.contains(layer));
            true
        } else {
            proof {
                if self.ids@.contains(layer) {
                    let k = choose|k: int| 0 <= k < self.ids@.len() && self.ids@[k] == layer;
                    assert(!layer_lt(self.ids@[k], layer));
                    assert(at <= k);
                    assert(!layer_lt(self.ids@[at as int], layer));
                    if at < k {
                        assert(layer_lt(self.ids@[at as int], self.ids@[k]));
                    }
                }
            }
            false
        }
    }

    /// Adds the layer; tells whether it was new.
    pub fn insert(&mut self, layer: LayerId) -> (added: bool)
        ensures
            added == !old(self)@.contains(layer),
            final(self)@ == old(self)@.insert(layer),
    {
        if self.contains(layer) {
            assert(self@.insert(layer) =~= self@);
            return false;
        }
        proof {
            use_type_invariant(&*self);
        }
        let ghost before = self.ids@;
        let at: usize = layer_position(&self.ids, layer);
        let mut ids: Vec<LayerId> = Vec::new();
        std::mem::swap(&mut ids, &mut self.ids);
        ids.insert(at, layer);
        proof {
            assert(!before.contains(layer));
            assert forall|i: int, j: int| 0 <= i < j < ids@.len() implies layer_lt(
                #[trigger] ids@[i],
                #[trigger] ids@[j],
            ) by {
                if j < at {
                    assert(layer_lt(before[i], before[j]));
                } else if j == at {
                    assert(layer_lt(before[i], layer));
                } else if i == at {
                    assert(before.contains(before[j - 1]));
                    assert(!layer_lt(before[j - 1], layer));
                } else if i < at {
                    assert(layer_lt(before[i], before[j - 1]));
                } else {
                    assert(layer_lt(before[i - 1], before[j - 1]));
                }
            }
            assert forall|x: LayerId|
                ids@.contains(x) <==> before.contains(x) || x == layer by {
                if ids@.contains(x) {
                    let k = choose|k: int| 0 <= k < ids@.len() && ids@[k] == x;
                    if k < at {
                        assert(before[k] == x);
                    } else if k > at {
                        assert(before[k - 1] == x);
                    }
                }
                if before.contains(x) {
                    let k = choose|k: int| 0 <= k < before.len() && before[k] == x;
                    if k < at {
                        assert(ids@[k] == x);
                    } else {
                        assert(ids@[k + 1] == x);
                    }
                }
                assert(ids@[at as int] == layer);
            }
            assert(ids@.to_set() =~= before.to_set().insert(layer));
        }
        self.ids = ids;
        true
    }

    /// Takes the layer out; tells whether it was there.
    pub fn remove(&mut self, layer: LayerId) -> (removed: bool)
        ensures
            removed == old(self)@.contains(layer),
            final(self)@ == old(self)@.remove(layer),
    {
        if !self.contains(layer) {
            assert(self@.remove(layer) =~= self@);
            return false;
        }
        proof {
            use_type_invariant(&*self);
        }
        let ghost before = self.ids@;
        let at: usize = layer_position(&self.ids, layer);
        proof {
            let k = choose|k: int| 0 <= k < before.len() && before[k] == layer;
            assert(!layer_lt(before[k], layer));
            if at < k {
                assert(layer_lt(before[at as int], before[k]));
            }
            assert(at == k);
        }
        let mut ids: Vec<LayerId> = Vec::new();
        std::mem::swap(&mut ids, &mut self.ids);
        ids.remove(at);
        proof {
            assert forall|i: int, j: int| 0 <= i < j < ids@.len() implies layer_lt(
                #[trigger] ids@[i],
                #[trigger] ids@[j],
            ) by {
                let i0 = if i < at { i } else { i + 1 };
                let j0 = if j < at { j } else { j + 1 };
                assert(layer_lt(before[i0], before[j0]));
            }
            assert forall|x: LayerId| ids@.contains(x) <==> before.contains(x) && x != layer by {
                if ids@.contains(x) {
                    let k = choose|k: int| 0 <= k < ids@.len() && ids@[k] == x;
                    let k0 = if k < at { k } else { k + 1 };
                    assert(before[k0] == x);
                    if k0 < at {
                        assert(layer_lt(before[k0], before[at as int]));
                    } else {
                        assert(layer_lt(before[at as int], before[k0]));
                    }
                }
                if before.contains(x) && x != layer {
                    let k = choose|k: int| 0 <= k < before.len() && before[k] == x;
                    if k < at {
                        assert(ids@[k] == x);
                    } else {
                        assert(ids@[k - 1] == x);
                    }
                }
            }
            assert(ids@.to_set() =~= before.to_set().remove(layer));
        }
        self.ids = ids;
        true
    }
}

impl LayerSet {
    /// Keeps the layers in the list only.
    pub fn retain_layers(&mut self, layers: &[LayerId])
        ensures
            final(self)@ == old(self)@.intersect(layers@.to_set()),
    {
        let wanted = LayerSet::from_layers(layers);
        let held = self.ids();
        let mut kept: Vec<LayerId> = Vec::new();
        let mut i: usize = 0;
        while i < held.len()
            invariant
                i <= held@.len(),
                wanted@ == layers@.to_set(),
                forall|x: LayerId| #![trigger kept@.contains(x)]
                    kept@.contains(x) <==> held@.take(i as int).contains(x) && wanted@.contains(x),
            decreases held@.len() - i,
        {
            let layer = held[i];
            let ghost before = kept@;
            let ghost head = held@.take(i as int);
            assert(held@.take(i + 1) =~= head.push(layer));
            if wanted.contains(layer) {
                kept.push(layer);
            }
            proof {
                assert forall|x: LayerId| #![trigger kept@.contains(x)]
                    kept@.contains(x) <==> held@.take(i + 1).contains(x) && wanted@.contains(x) by {
                    assert(before.contains(x) <==> head.contains(x) && wanted@.contains(x));
                    assert(head.push(layer).contains(x) <==> head.contains(x) || x == layer) by {
                        if head.push(layer).contains(x) {
                            let k = choose|k: int|
                                0 <= k < head.len() + 1 && head.push(layer)[k] == x;
                            if k < head.len() {
                                assert(head[k] == x);
                            }
                        }
                        if head.contains(x) {
                            let k = choose|k: int| 0 <= k < head.len() && head[k] == x;
                            assert(head.push(layer)[k] == x);
                        }
                        assert(head.push(layer)[head.len() as int] == layer);
                    }
                    assert(before.push(layer).contains(x) <==> before.contains(x) || x == layer) by {
                        if before.push(layer).contains(x) {
                            let k = choose|k: int|
                                0 <= k < before.len() + 1 && before.push(layer)[k] == x;
                            if k < before.len() {
                                assert(before[k] == x);
                            }
                        }
                        if before.contains(x) {
                            let k = choose|k: int| 0 <= k < before.len() && before[k] == x;
                            assert(before.push(layer)[k] == x);
                        }
                        assert(before.push(layer)[before.len() as int] == layer);
                    }
                }
            }
            i += 1;
        }
        proof {
            assert(held@.take(i as int) =~= held@);
            assert forall|x: LayerId| kept@.to_set().contains(x) <==> self@.intersect(
                layers@.to_set(),
            ).contains(x) by {
                assert(kept@.contains(x) <==> held@.contains(x) && wanted@.contains(x));
                assert(held@.to_set().contains(x) <==> held@.contains(x));
            }
            assert(kept@.to_set() =~= self@.intersect(layers@.to_set()));
        }
        *self = LayerSet::from_layers(kept.as_slice());
    }
}

impl Clone for LayerSet {
    /// A set with the same layers.
    fn clone(&self) -> (copy: Self)
        ensures
            copy@ == self@,
            copy.listed() == self.listed(),
    {
        proof {
            use_type_invariant(self);
        }
        let mut ids: Vec<LayerId> = Vec::new();
        let mut i: usize = 0;
        while i < self.ids.len()
            invariant
                i <= self.ids@.len(),
                ids@ == self.ids@.take(i as int),
            decreases self.ids@.len() - i,
        {
            ids.push(self.ids[i]);
            assert(ids@ =~= self.ids@.take(i + 1));
            i += 1;
        }
        assert(ids@ =~= self.ids@);
        LayerSet { ids }
    }
}

/// Whether an entry of the list has the key.
pub open spec fn has_key<V>(entries: Seq<(LayerId, V)>, key: LayerId) -> bool {
    exists|i: int| 0 <= i < entries.len() && (#[trigger] entries[i]).0 == key
}

/// The place of an entry with the key.
pub open spec fn key_index<V>(entries: Seq<(LayerId, V)>, key: LayerId) -> int {
    choose|i: int| 0 <= i < entries.len() && (#[trigger] entries[i]).0 == key
}

/// The map that a list of entries stands for.
pub open spec fn entries_map<V>(entries: Seq<(LayerId, V)>) -> Map<LayerId, V> {
    Map::new(|key: LayerId| has_key(entries, key), |key: LayerId| entries[key_index(entries, key)].1)
}

/// Whether the keys of the entries ascend, each of them once.
pub open spec fn keys_ascend<V>(s: Seq<(LayerId, V)>) -> bool {
    forall|i: int, j: int| 0 <= i < j < s.len() ==> layer_lt((#[trigger] s[i]).0, (#[trigger] s[j]).0)
}

proof fn lemma_entries_map_at<V>(s: Seq<(LayerId, V)>, i: int)
    requires
        keys_ascend(s),
        0 <= i < s.len(),
    ensures
        entries_map(s).dom().contains(s[i].0),
        entries_map(s)[s[i].0] == s[i].1,
        key_index(s, s[i].0) == i,
{
    let k = key_index(s, s[i].0);
    assert(s[i].0 == s[i].0);
    assert(has_key(s, s[i].0));
    if k < i {
        assert(layer_lt(s[k].0, s[i].0));
    } else if i < k {
        assert(layer_lt(s[i].0, s[k].0));
    }
}

/// A list of entries stands for a finite map.
proof fn lemma_entries_are_finite<V>(s: Seq<(LayerId, V)>)
    ensures
        entries_map(s).dom().finite(),
{
    let keys = s.map_values(|e: (LayerId, V)| e.0);
    assert forall|id: LayerId| has_key(s, id) implies keys.to_set().contains(id) by {
        assert(keys[key_index(s, id)] == id);
    }
    assert forall|id: LayerId| keys.to_set().contains(id) implies has_key(s, id) by {
        let i = choose|i: int| 0 <= i < keys.len() && keys[i] == id;
        assert(s[i].0 == id);
    }
    assert(entries_map(s).dom() =~= keys.to_set());
    vstd::seq_lib::seq_to_set_is_finite(keys);
}

/// The entries of a map by ascending layer.
pub open spec fn ascending_entries<V>(map: Map<LayerId, V>) -> Seq<(LayerId, V)> {
    choose|s: Seq<(LayerId, V)>| #[trigger] keys_ascend(s) && entries_map(s) == map
}

/// A map without entries lists none.
pub proof fn lemma_no_entries<V>()
    ensures
        ascending_entries(Map::<LayerId, V>::empty()) == Seq::<(LayerId, V)>::empty(),
{
    let none = Seq::<(LayerId, V)>::empty();
    assert(entries_map(none) =~= Map::<LayerId, V>::empty());
    assert(keys_ascend(none));
    law_listed_is_canonical(none, ascending_entries(Map::<LayerId, V>::empty()));
}

/// A map from layers to values, listed by ascending layer.
#[derive(Debug, PartialEq, Eq)]
pub struct LayerMap<V> {
    entries: Vec<(LayerId, V)>,
}

impl<V> View for LayerMap<V> {
    type V = Map<LayerId, V>;

    open spec fn view(&self) -> Map<LayerId, V> {
        entries_map(self.listed())
    }
}

impl<V> LayerMap<V> {
    /// The entries by ascending layer.
    pub closed spec fn listed(self) -> Seq<(LayerId, V)> {
        self.entries@
    }

    #[verifier::type_invariant]
    spec fn well_formed(self) -> bool {
        keys_ascend(self.entries@)
    }
}

impl<V: Copy> LayerMap<V> {
    /// The empty map.
    pub fn new() -> (map: Self)
        ensures
            map@ == Map::<LayerId, V>::empty(),
            map.listed() == Seq::<(LayerId, V)>::empty(),
    {
        let map = LayerMap { entries: Vec::new() };
        assert(map@ =~= Map::empty());
        map
    }

    /// The entries by ascending layer.
    pub fn entries(&self) -> (entries: &[(LayerId, V)])
        ensures
            entries@ == self.listed(),
            keys_ascend(entries@),
            entries_map(entries@) == self@,
            entries@ == ascending_entries(self@),
            self@.dom().finite(),
    {
        proof {
            use_type_invariant(self);
            lemma_entries_are_finite(self.entries@);
            let named = ascending_entries(self@);
            assert(keys_ascend(self.entries@) && entries_map(self.entries@) == self@);
            assert(keys_ascend(named) && entries_map(named) == self@);
            law_listed_is_canonical(self.entries@, named);
        }
        self.entries.as_slice()
    }

    /// The place at which the key stands or would stand.
    fn position(&self, layer: LayerId) -> (at: usize)
        ensures
            at <= self.entries@.len(),
            forall|k: int| 0 <= k < at ==> layer_lt((#[trigger] self.entries@[k]).0, layer),
            forall|k: int|
                at <= k < self.entries@.len() ==> !layer_lt((#[trigger] self.entries@[k]).0, layer),
    {
        proof {
            use_type_invariant(self);
        }
        let mut low: usize = 0;
        let mut high: usize = self.entries.len();
        while low < high
            invariant
                keys_ascend(self.entries@),
                low <= high <= self.entries@.len(),
                forall|k: int| 0 <= k < low ==> layer_lt((#[trigger] self.entries@[k]).0, layer),
                forall|k: int|
                    high <= k < self.entries@.len() ==> !layer_lt(
                        (#[trigger] self.entries@[k]).0,
                        layer,
                    ),
            decreases high - low,
        {
            let mid: usize = low + (high - low) / 2;
            if layer_before(self.entries[mid].0, layer) {
                assert forall|k: int| 0 <= k < mid + 1 implies layer_lt(
                    (#[trigger] self.entries@[k]).0,
                    layer,
                ) by {
                    if k < mid {
                        assert(layer_lt(self.entries@[k].0, self.entries@[mid as int].0));
                    }
                }
                low = mid + 1;
            } else {
                assert forall|k: int| mid <= k < self.entries@.len() implies !layer_lt(
                    (#[trigger] self.entries@[k]).0,
                    layer,
                ) by {
                    if k > mid {
                        assert(layer_lt(self.entries@[mid as int].0, self.entries@[k].0));
                    }
                }
                high = mid;
            }
        }
        low
    }

    /// The value of the layer, where it has one.
    pub fn get(&self, layer: LayerId) -> (value: Option<V>)
        ensures
            value == (if self@.dom().contains(layer) {
                Some(self@[layer])
            } else {
                None
            }),
    {
        proof {
            use_type_invariant(self);
        }
        let at: usize = self.position(layer);
        if at < self.entries.len() && self.entries[at].0 == layer {
            proof {
                lemma_entries_map_at(self.entries@, at as int);
            }
            Some(self.entries[at].1)
        } else {
            proof {
                if has_key(self.entries@, layer) {
                    let k = key_index(self.entries@, layer);
                    assert(!layer_lt(self.entries@[k].0, layer));
                    assert(at <= k);
                    if at < k {
                        assert(layer_lt(self.entries@[at as int].0, self.entries@[k].0));
                        assert(!layer_lt(self.entries@[at as int].0, layer));
                    }
                }
            }
            None
        }
    }

    /// Gives the layer a value, in place of the one it had.
    pub fn insert(&mut self, layer: LayerId, value: V)
        ensures
            final(self)@ == old(self)@.insert(layer, value),
    {
        proof {
            use_type_invariant(&*self);
        }
        let ghost before = self.entries@;
        let at: usize = self.position(layer);
        let mut entries: Vec<(LayerId, V)> = Vec::new();
        std::mem::swap(&mut entries, &mut self.entries);
        if at < entries.len() && entries[at].0 == layer {
            entries[at] = (layer, value);
            proof {
                assert(entries@ =~= before.update(at as int, (layer, value)));
                assert forall|i: int, j: int| 0 <= i < j < entries@.len() implies layer_lt(
                    (#[trigger] entries@[i]).0,
                    (#[trigger] entries@[j]).0,
                ) by {
                    assert(layer_lt(before[i].0, before[j].0));
                }
                assert forall|key: LayerId| has_key(entries@, key) <==> has_key(before, key) by {
                    if has_key(before, key) {
                        let k = key_index(before, key);
                        assert(entries@[k].0 == key);
                    }
                    if has_key(entries@, key) {
                        let k = key_index(entries@, key);
                        assert(before[k].0 == key);
                    }
                }
                lemma_entries_map_at(before, at as int);
                lemma_entries_map_at(entries@, at as int);
                assert forall|key: LayerId| has_key(before, key) && key != layer implies
                    entries_map(entries@)[key] == entries_map(before)[key] by {
                    let k = key_index(before, key);
                    lemma_entries_map_at(before, k);
                    lemma_entries_map_at(entries@, k);
                }
                assert(entries_map(entries@) =~= entries_map(before).insert(layer, value));
            }
        } else {
            entries.insert(at, (layer, value));
            proof {
                assert forall|i: int, j: int| 0 <= i < j < entries@.len() implies layer_lt(
                    (#[trigger] entries@[i]).0,
                    (#[trigger] entries@[j]).0,
                ) by {
                    if j < at {
                        assert(layer_lt(before[i].0, before[j].0));
                    } else if j == at {
                        assert(layer_lt(before[i].0, layer));
                    } else if i == at {
                        assert(!layer_lt(before[at as int].0, layer));
                        if j - 1 > at {
                            assert(layer_lt(before[at as int].0, before[j - 1].0));
                        }
                    } else if i < at {
                        assert(layer_lt(before[i].0, before[j - 1].0));
                    } else {
                        assert(layer_lt(before[i - 1].0, before[j - 1].0));
                    }
                }
                assert forall|key: LayerId|
                    has_key(entries@, key) <==> has_key(before, key) || key == layer by {
                    if has_key(before, key) {
                        let k = key_index(before, key);
                        let k1 = if k < at { k } else { k + 1 };
                        assert(entries@[k1].0 == key);
                    }
                    if has_key(entries@, key) {
                        let k = key_index(entries@, key);
                        if k < at {
                            assert(before[k].0 == key);
                        } else if k > at {
                            assert(before[k - 1].0 == key);
                        }
                    }
                    assert(entries@[at as int].0 == layer);
                }
                lemma_entries_map_at(entries@, at as int);
                assert forall|key: LayerId| has_key(before, key) && key != layer implies
                    entries_map(entries@)[key] == entries_map(before)[key] by {
                    let k = key_index(before, key);
                    let k1 = if k < at { k } else { k + 1 };
                    lemma_entries_map_at(before, k);
                    lemma_entries_map_at(entries@, k1);
                }
                assert(entries_map(entries@) =~= entries_map(before).insert(layer, value));
            }
        }
        self.entries = entries;
    }

    /// Takes the value of the layer out.
    pub fn remove(&mut self, layer: LayerId)
        ensures
            final(self)@ == old(self)@.remove(layer),
    {
        proof {
            use_type_invariant(&*self);
        }
        let ghost before = self.entries@;
        let at: usize = self.position(layer);
        if at < self.entries.len() && self.entries[at].0 == layer {
            let mut entries: Vec<(LayerId, V)> = Vec::new();
            std::mem::swap(&mut entries, &mut self.entries);
            entries.remove(at);
            proof {
                assert forall|i: int, j: int| 0 <= i < j < entries@.len() implies layer_lt(
                    (#[trigger] entries@[i]).0,
                    (#[trigger] entries@[j]).0,
                ) by {
                    let i0 = if i < at { i } else { i + 1 };
                    let j0 = if j < at { j } else { j + 1 };
                    assert(layer_lt(before[i0].0, before[j0].0));
                }
                assert forall|x: LayerId| has_key(entries@, x) <==> has_key(before, x) && x
                    != layer by {
                    if has_key(entries@, x) {
                        let k = key_index(entries@, x);
                        let k0 = if k < at { k } else { k + 1 };
                        assert(before[k0].0 == x);
                        if k0 < at {
                            assert(layer_lt(before[k0].0, before[at as int].0));
                        } else {
                            assert(layer_lt(before[at as int].0, before[k0].0));
                        }
                    }
                    if has_key(before, x) && x != layer {
                        let k = key_index(before, x);
                        let k1 = if k < at { k } else { k - 1 };
                        assert(entries@[k1].0 == x);
                    }
                }
                assert forall|x: LayerId| has_key(entries@, x) implies entries_map(entries@)[x]
                    == entries_map(before)[x] by {
                    let k = key_index(entries@, x);
                    let k0 = if k < at { k } else { k + 1 };
                    lemma_entries_map_at(entries@, k);
                    lemma_entries_map_at(before, k0);
                }
                assert(entries_map(entries@) =~= entries_map(before).remove(layer));
            }
            self.entries = entries;
        } else {
            proof {
                if has_key(before, layer) {
                    let k = key_index(before, layer);
                    assert(!layer_lt(before[k].0, layer));
                    assert(at <= k);
                    if at < k {
                        assert(layer_lt(before[at as int].0, before[k].0));
                        assert(!layer_lt(before[at as int].0, layer));
                    }
                }
                assert(self@.remove(layer) =~= self@);
            }
        }
    }

    /// Keeps the entries of the layers in the list only.
    pub fn retain_layers(&mut self, layers: &[LayerId])
        ensures
            final(self)@ == old(self)@.restrict(layers@.to_set()),
    {
        proof {
            use_type_invariant(&*self);
        }
        let mut kept: Vec<(LayerId, V)> = Vec::new();
        let ghost before = self.entries@;
        let mut i: usize = 0;
        while i < self.entries.len()
            invariant
                i <= self.entries@.len(),
                self.entries@ == before,
                keys_ascend(before),
                keys_ascend(kept@),
                forall|k: int| 0 <= k < kept@.len() ==> has_entry(before.take(i as int), #[trigger] kept@[k])
                    && layers@.contains(kept@[k].0),
                forall|k: int| 0 <= k < i && layers@.contains(#[trigger] before[k].0)
                    ==> has_entry(kept@, before[k]),
            decreases self.entries@.len() - i,
        {
            let entry = self.entries[i];
            let ghost old_kept = kept@;
            let mut found: bool = false;
            let mut j: usize = 0;
            while j < layers.len()
                invariant
                    j <= layers@.len(),
                    found == layers@.take(j as int).contains(entry.0),
                decreases layers@.len() - j,
            {
                proof {
                    assert(layers@.take(j + 1) =~= layers@.take(j as int).push(layers@[j as int]));
                    crate::seqs::lemma_push_contains(
                        layers@.take(j as int),
                        layers@[j as int],
                        entry.0,
                    );
                }
                if layers[j] == entry.0 {
                    found = true;
                }
                j += 1;
            }
            assert(layers@.take(j as int) =~= layers@);
            if found {
                kept.push(entry);
            }
            proof {
                let upto = before.take(i + 1);
                assert forall|k: int| 0 <= k < kept@.len() implies has_entry(upto, #[trigger] kept@[k])
                    && layers@.contains(kept@[k].0) by {
                    if k < old_kept.len() {
                        assert(kept@[k] == old_kept[k]);
                        let m = choose|m: int| 0 <= m < i && before.take(i as int)[m] == old_kept[k];
                        assert(upto[m] == kept@[k]);
                    } else {
                        assert(upto[i as int] == entry);
                    }
                }
                assert forall|k: int| 0 <= k < i + 1 && layers@.contains(#[trigger] before[k].0)
                    implies has_entry(kept@, before[k]) by {
                    if k < i {
                        let m = choose|m: int| 0 <= m < old_kept.len() && old_kept[m] == before[k];
                        assert(kept@[m] == before[k]);
                    } else {
                        assert(kept@[kept@.len() - 1] == before[k]);
                    }
                }
                assert forall|a: int, b: int| 0 <= a < b < kept@.len() implies layer_lt(
                    (#[trigger] kept@[a]).0,
                    (#[trigger] kept@[b]).0,
                ) by {
                    if b < old_kept.len() {
                        assert(layer_lt(old_kept[a].0, old_kept[b].0));
                    } else {
                        assert(kept@[a] == old_kept[a]);
                        let m = choose|m: int| 0 <= m < i && before.take(i as int)[m] == old_kept[a];
                        assert(layer_lt(before[m].0, before[i as int].0));
                    }
                }
            }
            i += 1;
        }
        proof {
            assert(before.take(i as int) =~= before);
            let goal = entries_map(before).restrict(layers@.to_set());
            assert forall|key: LayerId| has_key(kept@, key) <==> has_key(before, key)
                && layers@.contains(key) by {
                if has_key(kept@, key) {
                    let k = key_index(kept@, key);
                    let m = choose|m: int| 0 <= m < before.len() && before[m] == kept@[k];
                    assert(before[m].0 == key);
                }
                if has_key(before, key) && layers@.contains(key) {
                    let k = key_index(before, key);
                    assert(layers@.contains(before[k].0));
                    let m = choose|m: int| 0 <= m < kept@.len() && kept@[m] == before[k];
                    assert(kept@[m].0 == key);
                }
            }
            assert forall|key: LayerId| has_key(kept@, key) implies entries_map(kept@)[key]
                == entries_map(before)[key] by {
                let k = key_index(kept@, key);
                let m = choose|m: int| 0 <= m < before.len() && before[m] == kept@[k];
                lemma_entries_map_at(kept@, k);
                lemma_entries_map_at(before, m);
            }
            assert(entries_map(kept@) =~= goal);
        }
        self.entries = kept;
    }
}

impl<V: Copy> Clone for LayerMap<V> {
    /// A map with the same entries.
    fn clone(&self) -> (copy: Self)
        ensures
            copy@ == self@,
            copy.listed() == self.listed(),
    {
        proof {
            use_type_invariant(self);
        }
        let mut entries: Vec<(LayerId, V)> = Vec::new();
        let mut i: usize = 0;
        while i < self.entries.len()
            invariant
                i <= self.entries@.len(),
                entries@ == self.entries@.take(i as int),
            decreases self.entries@.len() - i,
        {
            entries.push(self.entries[i]);
            assert(entries@ =~= self.entries@.take(i + 1));
            i += 1;
        }
        assert(entries@ =~= self.entries@);
        LayerMap { entries }
    }
}

/// Whether the entry is in the list.
spec fn has_entry<V>(entries: Seq<(LayerId, V)>, entry: (LayerId, V)) -> bool {
    exists|m: int| 0 <= m < entries.len() && #[trigger] entries[m] == entry
}

/// Maps with the same entries have the same list.
pub proof fn law_listed_is_canonical<V>(a: Seq<(LayerId, V)>, b: Seq<(LayerId, V)>)
    requires
        keys_ascend(a),
        keys_ascend(b),
        entries_map(a) == entries_map(b),
    ensures
        a == b,
{
    let ka = a.map_values(|e: (LayerId, V)| e.0);
    let kb = b.map_values(|e: (LayerId, V)| e.0);
    assert forall|x: LayerId| ka.contains(x) <==> kb.contains(x) by {
        assert(entries_map(a).dom().contains(x) <==> entries_map(b).dom().contains(x));
        if ka.contains(x) {
            let i = choose|i: int| 0 <= i < ka.len() && ka[i] == x;
            assert(a[i].0 == x);
            assert(has_key(a, x));
            assert(entries_map(a).dom().contains(x));
            assert(has_key(b, x));
            let j = key_index(b, x);
            assert(kb[j] == x);
        }
        if kb.contains(x) {
            let i = choose|i: int| 0 <= i < kb.len() && kb[i] == x;
            assert(b[i].0 == x);
            assert(has_key(b, x));
            assert(entries_map(b).dom().contains(x));
            assert(has_key(a, x));
            let j = key_index(a, x);
            assert(ka[j] == x);
        }
    }
    assert forall|i: int, j: int| 0 <= i < j < ka.len() implies layer_lt(
        #[trigger] ka[i],
        #[trigger] ka[j],
    ) by {
        assert(layer_lt(a[i].0, a[j].0));
    }
    assert forall|i: int, j: int| 0 <= i < j < kb.len() implies layer_lt(
        #[trigger] kb[i],
        #[trigger] kb[j],
    ) by {
        assert(layer_lt(b[i].0, b[j].0));
    }
    law_ascending_layers_are_unique(ka, kb);
    assert forall|i: int| 0 <= i < a.len() implies a[i] == b[i] by {
        assert(ka[i] == kb[i]);
        lemma_entries_map_at(a, i);
        lemma_entries_map_at(b, i);
    }
    assert(a =~= b);
}

/// The entries of a map with these layers, in this order.
spec fn entries_by<V>(map: Map<LayerId, V>, ids: Seq<LayerId>) -> Seq<(LayerId, V)> {
    ids.map_values(|id: LayerId| (id, map[id]))
}

/// A map on these layers lists its entries in the ascending order of the layers.
proof fn lemma_entries_by<V>(map: Map<LayerId, V>, ids: Seq<LayerId>)
    requires
        layers_ascend(ids),
        ids.to_set() == map.dom(),
    ensures
        ascending_entries(map) == entries_by(map, ids),
{
    let s = entries_by(map, ids);
    assert forall|i: int, j: int| 0 <= i < j < s.len() implies layer_lt(
        (#[trigger] s[i]).0,
        (#[trigger] s[j]).0,
    ) by {
        assert(layer_lt(ids[i], ids[j]));
    }
    assert(keys_ascend(s));
    assert forall|id: LayerId| has_key(s, id) <==> map.dom().contains(id) by {
        assert(ids.to_set().contains(id) <==> ids.contains(id));
        if ids.contains(id) {
            let i = choose|i: int| 0 <= i < ids.len() && ids[i] == id;
            assert(s[i].0 == id);
        }
        if has_key(s, id) {
            let i = key_index(s, id);
            assert(ids[i] == id);
        }
    }
    assert forall|id: LayerId| map.dom().contains(id) implies #[trigger] entries_map(s)[id]
        == map[id] by {
        assert(has_key(s, id));
        let i = key_index(s, id);
        assert(ids[i] == id);
    }
    assert(entries_map(s) =~= map);
    law_listed_is_canonical(s, ascending_entries(map));
}

/// Two maps on the same layers that differ in one of them list the same entries but for one.
pub proof fn lemma_one_entry_differs<V>(
    a: Map<LayerId, V>,
    b: Map<LayerId, V>,
    layer: LayerId,
) -> (place: int)
    requires
        a.dom().finite(),
        a.dom() == b.dom(),
        a.dom().contains(layer),
        forall|other: LayerId|
            a.dom().contains(other) && other != layer ==> #[trigger] a[other] == b[other],
    ensures
        ascending_entries(a).len() == ascending_entries(b).len(),
        0 <= place < ascending_entries(a).len(),
        ascending_entries(a)[place] == (layer, a[layer]),
        ascending_entries(b)[place] == (layer, b[layer]),
        forall|k: int|
            0 <= k < ascending_entries(a).len() && k != place ==> #[trigger] ascending_entries(a)[k]
                == ascending_entries(b)[k],
{
    let found = a.dom().to_seq();
    a.dom().lemma_to_seq_to_set_id();
    lemma_ascending_exists(found, Seq::empty());
    assert(found.to_set().difference(Seq::<LayerId>::empty().to_set()) =~= a.dom());
    let ids = ascending(a.dom());
    lemma_entries_by(a, ids);
    lemma_entries_by(b, ids);
    assert(ids.to_set().contains(layer));
    let place = choose|i: int| 0 <= i < ids.len() && ids[i] == layer;
    assert forall|k: int| 0 <= k < ids.len() && k != place implies #[trigger] ascending_entries(
        a,
    )[k] == ascending_entries(b)[k] by {
        if k < place {
            assert(layer_lt(ids[k], ids[place]));
        } else {
            assert(layer_lt(ids[place], ids[k]));
        }
        assert(ids.to_set().contains(ids[k]));
        assert(a[ids[k]] == b[ids[k]]);
    }
    place
}

} // verus!
