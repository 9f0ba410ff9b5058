//! A map with text keys that keeps its entries in key order.
use crate::text;
use crate::text::{order, Order};
use vstd::prelude::*;

verus! {

/// The keys of `items` increase strictly.
pub open spec fn in_key_order<V>(items: Seq<(Seq<char>, V)>) -> bool {
    forall|i: int, j: int|
        0 <= i < j < items.len() ==> text::key_before(
            (#[trigger] items[i]).0,
            (#[trigger] items[j]).0,
        )
}

/// `key` is the key of some item.
pub open spec fn has_key<V>(items: Seq<(Seq<char>, V)>, key: Seq<char>) -> bool {
    exists|i: int| 0 <= i < items.len() && (#[trigger] items[i]).0 == key
}

/// The place of `key` among the items.
pub open spec fn place_of<V>(items: Seq<(Seq<char>, V)>, key: Seq<char>) -> int {
    choose|i: int| 0 <= i < items.len() && (#[trigger] items[i]).0 == key
}

/// The map that `items` spell out.
pub open spec fn map_of<V>(items: Seq<(Seq<char>, V)>) -> Map<Seq<char>, V> {
    Map::new(|key: Seq<char>| has_key(items, key), |key: Seq<char>| items[place_of(items, key)].1)
}

/// The items of a map, in key order.
pub open spec fn items_of<V>(m: Map<Seq<char>, V>) -> Seq<(Seq<char>, V)> {
    choose|items: Seq<(Seq<char>, V)>| in_key_order(items) && #[trigger] map_of(items) == m
}

/// What an item becomes when its value is replaced by `f` of it.
pub open spec fn over_values<V, W>(items: Seq<(Seq<char>, V)>, f: spec_fn(V) -> W) -> Seq<
    (Seq<char>, W),
> {
    Seq::new(items.len(), |i: int| (items[i].0, f(items[i].1)))
}

pub proof fn lemma_place<V>(items: Seq<(Seq<char>, V)>, i: int)
    requires
        in_key_order(items),
        0 <= i < items.len(),
    ensures
        map_of(items).contains_key(items[i].0),
        map_of(items)[items[i].0] == items[i].1,
        place_of(items, items[i].0) == i,
{
    let key = items[i].0;
    assert(has_key(items, key));
    let p = place_of(items, key);
    assert(0 <= p < items.len() && items[p].0 == key);
    text::key_before_irreflexive(key);
    if p < i {
        assert(text::key_before(items[p].0, items[i].0));
    }
    if i < p {
        assert(text::key_before(items[i].0, items[p].0));
    }
}

pub proof fn lemma_update<V>(items: Seq<(Seq<char>, V)>, i: int, value: V)
    requires
        in_key_order(items),
        0 <= i < items.len(),
    ensures
        in_key_order(items.update(i, (items[i].0, value))),
        map_of(items.update(i, (items[i].0, value))) == map_of(items).insert(items[i].0, value),
{
    let key = items[i].0;
    let after = items.update(i, (key, value));
    assert forall|a: int, b: int| 0 <= a < b < after.len() implies text::key_before(
        (#[trigger] after[a]).0,
        (#[trigger] after[b]).0,
    ) by {
        assert(after[a].0 == items[a].0 && after[b].0 == items[b].0);
    }
    assert forall|k: Seq<char>|
        has_key(after, k) == map_of(items).insert(key, value).contains_key(k) by {
        if has_key(after, k) {
            let a = place_of(after, k);
            assert(items[a].0 == k);
        }
        if has_key(items, k) {
            let a = place_of(items, k);
            assert(after[a].0 == k);
        }
        if k == key {
            assert(after[i].0 == k);
        }
    }
    assert forall|k: Seq<char>| has_key(after, k) implies #[trigger] map_of(after)[k] == map_of(
        items,
    ).insert(key, value)[k] by {
        let a = place_of(after, k);
        lemma_place(after, a);
        lemma_place(items, a);
        lemma_place(items, i);
    }
    assert(map_of(after) =~= map_of(items).insert(key, value));
}

pub proof fn lemma_insert<V>(items: Seq<(Seq<char>, V)>, i: int, key: Seq<char>, value: V)
    requires
        in_key_order(items),
        0 <= i <= items.len(),
        forall|j: int| 0 <= j < i ==> text::key_before((#[trigger] items[j]).0, key),
        forall|j: int|
            i <= j < items.len() ==> text::key_before(key, (#[trigger] items[j]).0),
    ensures
        !has_key(items, key),
        in_key_order(items.insert(i, (key, value))),
        map_of(items.insert(i, (key, value))) == map_of(items).insert(key, value),
{
    let after = items.insert(i, (key, value));
    text::key_before_irreflexive(key);
    assert forall|a: int, b: int| 0 <= a < b < after.len() implies text::key_before(
        (#[trigger] after[a]).0,
        (#[trigger] after[b]).0,
    ) by {
        let x = if a < i {
            a
        } else {
            a - 1
        };
        let y = if b < i {
            b
        } else {
            b - 1
        };
        if a != i {
            assert(after[a] == items[x]);
        }
        if b != i {
            assert(after[b] == items[y]);
        }
    }
    assert forall|k: Seq<char>|
        has_key(after, k) == map_of(items).insert(key, value).contains_key(k) by {
        if has_key(after, k) && k != key {
            let a = place_of(after, k);
            let x = if a < i {
                a
            } else {
                a - 1
            };
            assert(items[x].0 == k);
        }
        if has_key(items, k) {
            let a = place_of(items, k);
            let x = if a < i {
                a
            } else {
                a + 1
            };
            assert(after[x].0 == k);
        }
        if k == key {
            assert(after[i].0 == k);
        }
    }
    assert forall|k: Seq<char>| has_key(after, k) implies #[trigger] map_of(after)[k] == map_of(
        items,
    ).insert(key, value)[k] by {
        let a = place_of(after, k);
        lemma_place(after, a);
        lemma_place(after, i);
        if k != key {
            let x = if a < i {
                a
            } else {
                a - 1
            };
            assert(after[a] == items[x]);
            lemma_place(items, x);
        }
    }
    assert(map_of(after) =~= map_of(items).insert(key, value));
}

pub proof fn lemma_remove<V>(items: Seq<(Seq<char>, V)>, i: int)
    requires
        in_key_order(items),
        0 <= i < items.len(),
    ensures
        in_key_order(items.remove(i)),
        map_of(items.remove(i)) == map_of(items).remove(items[i].0),
{
    let key = items[i].0;
    let after = items.remove(i);
    assert forall|a: int, b: int| 0 <= a < b < after.len() implies text::key_before(
        (#[trigger] after[a]).0,
        (#[trigger] after[b]).0,
    ) by {
        let x = if a < i {
            a
        } else {
            a + 1
        };
        let y = if b < i {
            b
        } else {
            b + 1
        };
        assert(after[a] == items[x] && after[b] == items[y]);
    }
    assert forall|k: Seq<char>| has_key(after, k) == map_of(items).remove(key).contains_key(k) by {
        if has_key(after, k) {
            let a = place_of(after, k);
            let x = if a < i {
                a
            } else {
                a + 1
            };
            assert(items[x].0 == k);
            lemma_place(items, x);
            lemma_place(items, i);
        }
        if has_key(items, k) && k != key {
            let a = place_of(items, k);
            let x = if a < i {
                a
            } else {
                a - 1
            };
            assert(after[x].0 == k);
        }
    }
    assert forall|k: Seq<char>| has_key(after, k) implies #[trigger] map_of(after)[k] == map_of(
        items,
    ).remove(key)[k] by {
        let a = place_of(after, k);
        lemma_place(after, a);
        let x = if a < i {
            a
        } else {
            a + 1
        };
        assert(after[a] == items[x]);
        lemma_place(items, x);
        lemma_place(items, i);
    }
    assert(map_of(after) =~= map_of(items).remove(key));
}

/// A map has one listing in key order.
pub proof fn lemma_listing_unique<V>(a: Seq<(Seq<char>, V)>, b: Seq<(Seq<char>, V)>)
    requires
        in_key_order(a),
        in_key_order(b),
        map_of(a) == map_of(b),
    ensures
        a == b,
    decreases a.len(),
{
    if a.len() == 0 {
        if b.len() > 0 {
            lemma_place(b, 0);
            assert(has_key(a, b[0].0));
        }
        assert(a =~= b);
    } else {
        lemma_place(a, 0);
        assert(has_key(b, a[0].0));
        let p = place_of(b, a[0].0);
        lemma_place(b, 0);
        assert(has_key(a, b[0].0));
        let q = place_of(a, b[0].0);
        if p > 0 {
            assert(text::key_before(b[0].0, b[p].0));
            if q > 0 {
                assert(text::key_before(a[0].0, a[q].0));
                text::key_before_transitive(a[0].0, b[0].0, a[0].0);
            }
            text::key_before_irreflexive(a[0].0);
        }
        lemma_place(b, p);
        assert(a[0] == b[0]);
        lemma_remove(a, 0);
        lemma_remove(b, 0);
        lemma_listing_unique(a.remove(0), b.remove(0));
        assert(a =~= seq![a[0]] + a.remove(0));
        assert(b =~= seq![b[0]] + b.remove(0));
    }
}

/// `items_of` gives back the listing that a map came from.
pub proof fn lemma_items_of<V>(items: Seq<(Seq<char>, V)>)
    requires
        in_key_order(items),
    ensures
        items_of(map_of(items)) == items,
{
    let other = items_of(map_of(items));
    assert(in_key_order(other) && map_of(other) == map_of(items));
    lemma_listing_unique(other, items);
}

/// Replacing every value keeps the keys and their order.
pub proof fn lemma_over_values<V, W>(items: Seq<(Seq<char>, V)>, f: spec_fn(V) -> W)
    requires
        in_key_order(items),
    ensures
        in_key_order(over_values(items, f)),
        map_of(over_values(items, f)) == map_of(items).map_values(f),
        items_of(map_of(items).map_values(f)) == over_values(items, f),
{
    let after = over_values(items, f);
    assert forall|a: int, b: int| 0 <= a < b < after.len() implies text::key_before(
        (#[trigger] after[a]).0,
        (#[trigger] after[b]).0,
    ) by {
        assert(after[a].0 == items[a].0 && after[b].0 == items[b].0);
    }
    assert forall|k: Seq<char>| has_key(after, k) == has_key(items, k) by {
        if has_key(after, k) {
            assert(items[place_of(after, k)].0 == k);
        }
        if has_key(items, k) {
            assert(after[place_of(items, k)].0 == k);
        }
    }
    assert forall|k: Seq<char>| has_key(after, k) implies #[trigger] map_of(after)[k] == map_of(
        items,
    ).map_values(f)[k] by {
        let a = place_of(after, k);
        lemma_place(after, a);
        lemma_place(items, a);
    }
    assert(map_of(after) =~= map_of(items).map_values(f));
    lemma_items_of(after);
}

/// One more item is one more key.
pub proof fn lemma_has_key_next<V>(items: Seq<(Seq<char>, V)>, k: int)
    requires
        0 <= k < items.len(),
    ensures
        forall|key: Seq<char>| #[trigger]
            has_key(items.take(k + 1), key) == (has_key(items.take(k), key) || key == items[k].0),
{
    let after = items.take(k + 1);
    let before = items.take(k);
    assert forall|key: Seq<char>| #[trigger]
        has_key(after, key) == (has_key(before, key) || key == items[k].0) by {
        if has_key(before, key) {
            assert(after[place_of(before, key)].0 == key);
        }
        if key == items[k].0 {
            assert(after[k].0 == key);
        }
        if has_key(after, key) && key != items[k].0 {
            assert(before[place_of(after, key)].0 == key);
        }
    }
}

/// A map from text to `V`, its entries in key order.
pub struct KeyMap<V> {
    entries: Vec<(String, V)>,
}

impl<V> View for KeyMap<V> {
    type V = Map<Seq<char>, V>;

    open spec fn view(&self) -> Map<Seq<char>, V> {
        map_of(self.items())
    }
}

impl<V> KeyMap<V> {
    /// The entries, in the order in which they are kept.
    pub closed spec fn items(&self) -> Seq<(Seq<char>, V)> {
        Seq::new(self.entries@.len(), |i: int| (self.entries@[i].0@, self.entries@[i].1))
    }

    /// The keys increase strictly: none occurs twice.
    pub open spec fn wf(&self) -> bool {
        in_key_order(self.items())
    }

    /// An empty map.
    pub fn new() -> (m: Self)
        ensures
            m.wf(),
            m@ == Map::<Seq<char>, V>::empty(),
            m.items().len() == 0,
    {
        let m = KeyMap { entries: Vec::new() };
        assert(m@ =~= Map::<Seq<char>, V>::empty());
        m
    }

    /// The number of entries.
    pub fn len(&self) -> (n: usize)
        ensures
            n == self.items().len(),
    {
        self.entries.len()
    }

    /// The key of the `i`th entry.
    pub fn key_at(&self, i: usize) -> (key: &String)
        requires
            i < self.items().len(),
        ensures
            key@ == self.items()[i as int].0,
    {
        &self.entries[i].0
    }

    /// The value of the `i`th entry.
    pub fn value_at(&self, i: usize) -> (value: &V)
        requires
            i < self.items().len(),
        ensures
            *value == self.items()[i as int].1,
    {
        &self.entries[i].1
    }

    /// The value of the `i`th entry, to be changed in place.
    pub fn value_at_mut(&mut self, i: usize) -> (value: &mut V)
        requires
            i < old(self).items().len(),
        ensures
            *value == old(self).items()[i as int].1,
            final(self).items() == old(self).items().update(
                i as int,
                (old(self).items()[i as int].0, *final(value)),
            ),
    {
        &mut self.entries[i].1
    }

    /// The place of `key`, and whether it is there; where it is not, the place
    /// at which it would stand.
    fn find(&self, key: &str) -> (r: (usize, bool))
        requires
            self.wf(),
        ensures
            r.0 <= self.items().len(),
            r.1 == self@.contains_key(key@),
            r.1 ==> r.0 < self.items().len() && self.items()[r.0 as int].0 == key@,
            !r.1 ==> forall|j: int|
                0 <= j < r.0 ==> text::key_before((#[trigger] self.items()[j]).0, key@),
            !r.1 ==> forall|j: int|
                r.0 <= j < self.items().len() ==> text::key_before(
                    key@,
                    (#[trigger] self.items()[j]).0,
                ),
    {
        let mut i: usize = 0;
        while i < self.entries.len()
            invariant
                self.wf(),
                i <= self.items().len(),
                self.items().len() == self.entries@.len(),
                forall|j: int|
                    0 <= j < i ==> text::key_before((#[trigger] self.items()[j]).0, key@),
            decreases self.items().len() - i,
        {
            assert(self.items()[i as int].0 == self.entries@[i as int].0@);
            match order(self.entries[i].0.as_str(), key) {
                Order::Same => {
                    proof {
                        lemma_place(self.items(), i as int);
                    }
                    return (i, true);
                },
                Order::Before => {
                    i = i + 1;
                },
                Order::After => {
                    proof {
                        let items = self.items();
                        text::key_before_irreflexive(key@);
                        assert forall|j: int| i <= j < items.len() implies text::key_before(
                            key@,
                            (#[trigger] items[j]).0,
                        ) by {
                            if i < j {
                                text::key_before_transitive(
                                    key@,
                                    items[i as int].0,
                                    items[j].0,
                                );
                            }
                        }
                        if has_key(items, key@) {
                            let p = place_of(items, key@);
                            assert(items[p].0 == key@);
                        }
                    }
                    return (i, false);
                },
            }
        }
        proof {
            let items = self.items();
            text::key_before_irreflexive(key@);
            if has_key(items, key@) {
                let p = place_of(items, key@);
                assert(items[p].0 == key@);
            }
        }
        (i, false)
    }

    /// Whether `key` has an entry.
    pub fn contains_key(&self, key: &str) -> (r: bool)
        requires
            self.wf(),
        ensures
            r == self@.contains_key(key@),
    {
        self.find(key).1
    }

    /// The value of `key`.
    pub fn get(&self, key: &str) -> (r: Option<&V>)
        requires
            self.wf(),
        ensures
            match r {
                Some(value) => self@.contains_key(key@) && *value == self@[key@],
                None => !self@.contains_key(key@),
            },
    {
        let (i, found) = self.find(key);
        if found {
            proof {
                lemma_place(self.items(), i as int);
            }
            Some(self.value_at(i))
        } else {
            None
        }
    }

    /// The value of `key`, to be changed in place.
    pub fn get_mut(&mut self, key: &str) -> (r: Option<&mut V>)
        requires
            old(self).wf(),
        ensures
            match r {
                Some(value) => {
                    &&& old(self)@.contains_key(key@)
                    &&& *value == old(self)@[key@]
                    &&& final(self).wf()
                    &&& final(self)@ == old(self)@.insert(key@, *final(value))
                },
                None => !old(self)@.contains_key(key@) && *final(self) == *old(self),
            },
    {
        let (i, found) = self.find(key);
        if found {
            proof {
                let items = self.items();
                lemma_place(items, i as int);
                assert forall|v: V| #[trigger] in_key_order(items.update(i as int, (key@, v)))
                    && map_of(items.update(i as int, (key@, v))) == map_of(items).insert(
                    key@,
                    v,
                ) by {
                    lemma_update(items, i as int, v);
                }
            }
            Some(self.value_at_mut(i))
        } else {
            None
        }
    }

    /// Gives `key` the value `value`, in place of the one it had.
    pub fn insert(&mut self, key: String, value: V)
        requires
            old(self).wf(),
        ensures
            final(self).wf(),
            final(self)@ == old(self)@.insert(key@, value),
    {
        let (i, found) = self.find(key.as_str());
        let ghost items = self.items();
        if found {
            proof {
                lemma_update(items, i as int, value);
            }
            *self.value_at_mut(i) = value;
        } else {
            proof {
                lemma_insert(items, i as int, key@, value);
            }
            self.entries.insert(i, (key, value));
            assert(self.items() =~= items.insert(i as int, (key@, value)));
        }
    }

    /// Takes `key` and its value out.
    pub fn remove(&mut self, key: &str) -> (r: Option<V>)
        requires
            old(self).wf(),
        ensures
            final(self).wf(),
            final(self)@ == old(self)@.remove(key@),
            match r {
                Some(value) => old(self)@.contains_key(key@) && value == old(self)@[key@],
                None => !old(self)@.contains_key(key@),
            },
    {
        let (i, found) = self.find(key);
        let ghost items = self.items();
        if found {
            proof {
                lemma_remove(items, i as int);
                lemma_place(items, i as int);
            }
            let (_, value) = self.entries.remove(i);
            assert(self.items() =~= items.remove(i as int));
            Some(value)
        } else {
            assert(self@ =~= self@.remove(key@));
            None
        }
    }
}

} // verus!
