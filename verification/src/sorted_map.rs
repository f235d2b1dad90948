//! A map that keeps its keys in ascending order.

use crate::order;
use crate::order::{KeyOrder, MapKey};
use vstd::prelude::*;

verus! {

/// A map whose entries stand in ascending order of their keys.
#[derive(Debug, PartialEq, Eq)]
pub struct SortedMap<K: MapKey, V> {
    entries: Vec<(K, V)>,
}

spec fn keys_of<K: MapKey, V>(entries: Seq<(K, V)>) -> Seq<K::Model> {
    Seq::new(entries.len(), |i: int| entries[i].0.model())
}

spec fn map_of<K: MapKey, V>(entries: Seq<(K, V)>) -> Map<K::Model, V>
    decreases entries.len(),
{
    if entries.len() == 0 {
        Map::empty()
    } else {
        map_of(entries.drop_last()).insert(entries.last().0.model(), entries.last().1)
    }
}

proof fn lemma_map_of<K: MapKey, V>(entries: Seq<(K, V)>)
    requires
        order::is_ascending::<K>(keys_of(entries)),
    ensures
        order::lists_ascending::<K>(keys_of(entries), map_of(entries).dom()),
        map_of(entries).dom().finite(),
        map_of(entries).dom().len() == entries.len(),
        forall|i: int|
            0 <= i < entries.len() ==> map_of(entries)[#[trigger] keys_of(entries)[i]]
                == entries[i].1,
    decreases entries.len(),
{
    let keys = keys_of(entries);
    if entries.len() > 0 {
        let init = entries.drop_last();
        assert(keys_of(init) =~= keys.drop_last());
        assert(order::is_ascending::<K>(keys_of(init)));
        lemma_map_of(init);
        let last = entries.last().0.model();
        assert(keys.last() == last);
        if map_of(init).dom().contains(last) {
            assert(keys_of(init).contains(last));
            let i = choose|i: int| 0 <= i < keys_of(init).len() && keys_of(init)[i] == last;
            assert(K::before(keys[i], keys[keys.len() - 1]));
            K::order_is_total(last, last, last);
        }
        assert forall|k: K::Model| #[trigger] keys.contains(k) <==> map_of(entries).dom().contains(
            k,
        ) by {
            if keys.contains(k) {
                let i = choose|i: int| 0 <= i < keys.len() && keys[i] == k;
                if i < keys.len() - 1 {
                    assert(keys_of(init)[i] == k);
                    assert(keys_of(init).contains(k));
                }
            }
            if map_of(entries).dom().contains(k) {
                if k == last {
                    assert(keys[keys.len() - 1] == k);
                } else {
                    assert(keys_of(init).contains(k));
                    let i = choose|i: int| 0 <= i < keys_of(init).len() && keys_of(init)[i] == k;
                    assert(keys[i] == k);
                }
            }
        }
        assert forall|i: int| 0 <= i < entries.len() implies map_of(entries)[#[trigger] keys[i]]
            == entries[i].1 by {
            if i < entries.len() - 1 {
                assert(keys_of(init)[i] == keys[i]);
                assert(K::before(keys[i], keys[keys.len() - 1]));
                K::order_is_total(last, last, last);
            }
        }
    } else {
        assert forall|k: K::Model| #[trigger] keys.contains(k) <==> map_of(entries).dom().contains(
            k,
        ) by {}
    }
}

impl<K: MapKey, V> View for SortedMap<K, V> {
    type V = Map<K::Model, V>;

    closed spec fn view(&self) -> Map<K::Model, V> {
        map_of(self.entries@)
    }
}

impl<K: MapKey, V> SortedMap<K, V> {
    #[verifier::type_invariant]
    spec fn sorted(self) -> bool {
        order::is_ascending::<K>(keys_of(self.entries@))
    }

    /// A map without entries.
    pub fn new() -> (r: Self)
        ensures
            r@ == Map::<K::Model, V>::empty(),
    {
        SortedMap { entries: Vec::new() }
    }

    /// The number of entries.
    pub fn len(&self) -> (r: usize)
        ensures
            self@.dom().finite(),
            r == self@.dom().len(),
            r == order::ascending::<K>(self@.dom()).len(),
            order::lists_ascending::<K>(order::ascending::<K>(self@.dom()), self@.dom()),
    {
        proof {
            use_type_invariant(self);
            lemma_map_of(self.entries@);
            order::law_ascending_is_unique::<K>(keys_of(self.entries@), self@.dom());
        }
        self.entries.len()
    }

    /// The entry at a place of the ascending order.
    pub fn entry_at(&self, i: usize) -> (r: (&K, &V))
        requires
            i < order::ascending::<K>(self@.dom()).len(),
        ensures
            r.0.model() == order::ascending::<K>(self@.dom())[i as int],
            self@.dom().contains(r.0.model()),
            *r.1 == self@[r.0.model()],
    {
        proof {
            use_type_invariant(self);
            lemma_map_of(self.entries@);
            order::law_ascending_is_unique::<K>(keys_of(self.entries@), self@.dom());
            assert(keys_of(self.entries@)[i as int] == self.entries@[i as int].0.model());
            assert(keys_of(self.entries@).contains(self.entries@[i as int].0.model()));
        }
        let entry = &self.entries[i];
        (&entry.0, &entry.1)
    }

    /// Where a key stands, or where it would have to stand: the number of keys
    /// before it, and whether it is there.
    fn place(&self, key: &K) -> (r: (usize, bool))
        ensures
            r.0 <= self.entries@.len(),
            forall|i: int|
                0 <= i < r.0 ==> K::before(#[trigger] keys_of(self.entries@)[i], key.model()),
            r.1 ==> r.0 < self.entries@.len() && keys_of(self.entries@)[r.0 as int] == key.model(),
            !r.1 ==> forall|i: int|
                r.0 <= i < self.entries@.len() ==> K::before(
                    key.model(),
                    #[trigger] keys_of(self.entries@)[i],
                ),
    {
        proof {
            use_type_invariant(self);
        }
        let ghost keys = keys_of(self.entries@);
        let mut i: usize = 0;
        while i < self.entries.len()
            invariant
                i <= self.entries@.len(),
                keys == keys_of(self.entries@),
                order::is_ascending::<K>(keys),
                forall|j: int| 0 <= j < i ==> K::before(#[trigger] keys[j], key.model()),
            decreases self.entries@.len() - i,
        {
            assert(keys[i as int] == self.entries@[i as int].0.model());
            match self.entries[i].0.compare(key) {
                KeyOrder::Before => {},
                KeyOrder::Same => {
                    return (i, true);
                },
                KeyOrder::After => {
                    assert forall|j: int| i <= j < keys.len() implies K::before(
                        key.model(),
                        #[trigger] keys[j],
                    ) by {
                        if j > i {
                            assert(K::before(keys[i as int], keys[j]));
                            K::order_is_total(key.model(), keys[i as int], keys[j]);
                        }
                    }
                    return (i, false);
                },
            }
            i = i + 1;
        }
        (i, false)
    }

    /// The value of a key.
    pub fn get(&self, key: &K) -> (r: Option<&V>)
        ensures
            match r {
                Some(value) => self@.dom().contains(key.model()) && *value == self@[key.model()],
                None => !self@.dom().contains(key.model()),
            },
    {
        proof {
            use_type_invariant(self);
            lemma_map_of(self.entries@);
        }
        let (at, found) = self.place(key);
        let ghost keys = keys_of(self.entries@);
        if found {
            assert(keys.contains(keys[at as int]));
            Some(&self.entries[at].1)
        } else {
            proof {
                if keys.contains(key.model()) {
                    let i = choose|i: int| 0 <= i < keys.len() && keys[i] == key.model();
                    K::order_is_total(key.model(), key.model(), key.model());
                    assert(K::before(keys[i], key.model()) || K::before(key.model(), keys[i]));
                }
            }
            None
        }
    }

    /// Whether a key is there.
    pub fn contains_key(&self, key: &K) -> (r: bool)
        ensures
            r == self@.dom().contains(key.model()),
    {
        self.get(key).is_some()
    }

    /// Gives a key a value, which replaces the one that it had.
    pub fn insert(&mut self, key: K, value: V)
        ensures
            final(self)@ == old(self)@.insert(key.model(), value),
    {
        proof {
            use_type_invariant(&*self);
        }
        let (at, found) = self.place(&key);
        let ghost before = self.entries@;
        let mut entries: Vec<(K, V)> = Vec::new();
        core::mem::swap(&mut entries, &mut self.entries);
        let ghost model = key.model();
        if found {
            entries.remove(at);
        }
        entries.insert(at, (key, value));
        proof {
            lemma_put(before, entries@, at as int, found);
        }
        self.entries = entries;
    }

    /// Takes a key and its value away.
    pub fn remove(&mut self, key: &K) -> (r: Option<V>)
        ensures
            final(self)@ == old(self)@.remove(key.model()),
            match r {
                Some(value) => old(self)@.dom().contains(key.model()) && value
                    == old(self)@[key.model()],
                None => !old(self)@.dom().contains(key.model()),
            },
    {
        proof {
            use_type_invariant(&*self);
        }
        if !self.contains_key(key) {
            assert(self@.remove(key.model()) =~= self@);
            return None;
        }
        let (at, found) = self.place(key);
        let ghost before = self.entries@;
        proof {
            lemma_map_of(before);
            if !found {
                let keys = keys_of(before);
                assert(keys.contains(key.model()));
                let i = choose|i: int| 0 <= i < keys.len() && keys[i] == key.model();
                K::order_is_total(key.model(), key.model(), key.model());
                assert(K::before(keys[i], key.model()) || K::before(key.model(), keys[i]));
            }
        }
        let mut entries: Vec<(K, V)> = Vec::new();
        core::mem::swap(&mut entries, &mut self.entries);
        let (_, value) = entries.remove(at);
        proof {
            lemma_taken(before, entries@, at as int);
        }
        self.entries = entries;
        Some(value)
    }
}

proof fn lemma_taken<K: MapKey, V>(before: Seq<(K, V)>, after: Seq<(K, V)>, at: int)
    requires
        order::is_ascending::<K>(keys_of(before)),
        0 <= at < before.len(),
        after == before.remove(at),
    ensures
        order::is_ascending::<K>(keys_of(after)),
        map_of(after) == map_of(before).remove(before[at].0.model()),
{
    let kb = keys_of(before);
    let ka = keys_of(after);
    assert forall|i: int, j: int| 0 <= i < j < ka.len() implies K::before(
        #[trigger] ka[i],
        #[trigger] ka[j],
    ) by {
        let i2 = if i < at { i } else { i + 1 };
        let j2 = if j < at { j } else { j + 1 };
        assert(ka[i] == kb[i2]);
        assert(ka[j] == kb[j2]);
    }
    lemma_map_of(before);
    lemma_map_of(after);
    let gone = before[at].0.model();
    assert(kb[at] == gone);
    K::order_is_total(gone, gone, gone);
    assert forall|k: K::Model| #[trigger] map_of(after).dom().contains(k) <==> map_of(
        before,
    ).remove(gone).dom().contains(k) by {
        if ka.contains(k) {
            let i = choose|i: int| 0 <= i < ka.len() && ka[i] == k;
            let i2 = if i < at { i } else { i + 1 };
            assert(kb[i2] == k);
            assert(kb.contains(k));
            if i2 < at {
                assert(K::before(kb[i2], kb[at]));
            } else {
                assert(K::before(kb[at], kb[i2]));
            }
        }
        if kb.contains(k) && k != gone {
            let i = choose|i: int| 0 <= i < kb.len() && kb[i] == k;
            let i2 = if i < at { i } else { i - 1 };
            assert(ka[i2] == k);
            assert(ka.contains(k));
        }
    }
    assert forall|k: K::Model| map_of(after).dom().contains(k) implies #[trigger] map_of(after)[k]
        == map_of(before).remove(gone)[k] by {
        assert(ka.contains(k));
        let i = choose|i: int| 0 <= i < ka.len() && ka[i] == k;
        let i2 = if i < at { i } else { i + 1 };
        assert(kb[i2] == k);
        assert(map_of(after)[ka[i]] == after[i].1);
        assert(map_of(before)[kb[i2]] == before[i2].1);
    }
    assert(map_of(after) =~= map_of(before).remove(gone));
}

proof fn lemma_put<K: MapKey, V>(before: Seq<(K, V)>, after: Seq<(K, V)>, at: int, found: bool)
    requires
        order::is_ascending::<K>(keys_of(before)),
        0 <= at <= before.len(),
        0 <= at < after.len(),
        found ==> at < before.len() && before[at].0.model() == after[at].0.model() && after
            == before.remove(at).insert(at, after[at]),
        !found ==> after == before.insert(at, after[at]),
        forall|i: int|
            0 <= i < at ==> K::before(#[trigger] keys_of(before)[i], after[at].0.model()),
        !found ==> forall|i: int|
            at <= i < before.len() ==> K::before(
                after[at].0.model(),
                #[trigger] keys_of(before)[i],
            ),
    ensures
        order::is_ascending::<K>(keys_of(after)),
        map_of(after) == map_of(before).insert(after[at].0.model(), after[at].1),
{
    let kb = keys_of(before);
    let ka = keys_of(after);
    let new = after[at].0.model();
    let shift: int = if found { 0 } else { 1 };
    assert(ka[at] == new);
    assert(forall|i: int| 0 <= i < at ==> #[trigger] ka[i] == kb[i]);
    assert(forall|i: int| at < i < ka.len() ==> #[trigger] ka[i] == kb[i - shift]);
    assert forall|i: int, j: int| 0 <= i < j < ka.len() implies K::before(
        #[trigger] ka[i],
        #[trigger] ka[j],
    ) by {
        let i2 = if i <= at { i } else { i - shift };
        let j2 = if j <= at { j } else { j - shift };
        if i == at {
            assert(ka[j] == kb[j2]);
            if found {
                assert(kb[at] == new);
                assert(K::before(kb[at], kb[j2]));
            }
        } else if j == at {
            assert(ka[i] == kb[i2]);
        } else {
            assert(ka[i] == kb[i2]);
            assert(ka[j] == kb[j2]);
        }
    }
    lemma_map_of(before);
    lemma_map_of(after);
    let want = map_of(before).insert(new, after[at].1);
    assert forall|k: K::Model| #[trigger] map_of(after).dom().contains(k) <==> want.dom().contains(
        k,
    ) by {
        if ka.contains(k) && k != new {
            let i = choose|i: int| 0 <= i < ka.len() && ka[i] == k;
            let i2 = if i < at { i } else { i - shift };
            assert(kb[i2] == k);
            assert(kb.contains(k));
        }
        if k == new {
            assert(ka.contains(k));
        } else if kb.contains(k) {
            let i = choose|i: int| 0 <= i < kb.len() && kb[i] == k;
            let i2 = if i < at { i } else { i + shift };
            assert(ka[i2] == k);
            assert(ka.contains(k));
        }
    }
    assert forall|k: K::Model| map_of(after).dom().contains(k) implies #[trigger] map_of(after)[k]
        == want[k] by {
        assert(ka.contains(k));
        let i = choose|i: int| 0 <= i < ka.len() && ka[i] == k;
        assert(map_of(after)[ka[i]] == after[i].1);
        if k == new {
            K::order_is_total(new, new, new);
            if i < at {
                assert(K::before(ka[i], ka[at]));
            } else if i > at {
                assert(K::before(ka[at], ka[i]));
            }
        } else {
            let i2 = if i < at { i } else { i - shift };
            assert(kb[i2] == k);
            assert(map_of(before)[kb[i2]] == before[i2].1);
        }
    }
    assert(map_of(after) =~= want);
}

} // verus!
