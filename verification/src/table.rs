//! A small keyed table that keeps its entries in the order in which their
//! keys first arrived.

use vstd::prelude::*;

verus! {

/// A key of a [`Table`]: two keys are the same key when their views are equal.
pub trait Key: View + Sized {
    /// Whether `self` and `other` are the same key.
    fn same(&self, other: &Self) -> (b: bool)
        ensures
            b == (self@ == other@),
    ;
}

/// The index of the first entry of `entries` under `key`, or `-1`.
pub open spec fn index_of<K, V>(entries: Seq<(K, V)>, key: K) -> int
    decreases entries.len(),
{
    if entries.len() == 0 {
        -1
    } else {
        let earlier = index_of(entries.drop_last(), key);
        if earlier >= 0 {
            earlier
        } else if entries.last().0 == key {
            entries.len() - 1
        } else {
            -1
        }
    }
}

/// Whether `entries` holds an entry under `key`.
pub open spec fn has_key<K, V>(entries: Seq<(K, V)>, key: K) -> bool {
    index_of(entries, key) >= 0
}

/// The value that `entries` holds under `key`.
pub open spec fn value_of<K, V>(entries: Seq<(K, V)>, key: K) -> Option<V> {
    let i = index_of(entries, key);
    if i >= 0 {
        Some(entries[i].1)
    } else {
        None
    }
}

/// `entries` with `value` under `key`: in the place of the old value where
/// the key is present, at the end where it is not.
pub open spec fn with_entry<K, V>(entries: Seq<(K, V)>, key: K, value: V) -> Seq<(K, V)> {
    let i = index_of(entries, key);
    if i >= 0 {
        entries.update(i, (key, value))
    } else {
        entries.push((key, value))
    }
}

/// The entries of the table into which `pairs` were put one after another:
/// of two pairs with one key, the later one gives the value and the earlier
/// one the place.
pub open spec fn collected<K, V>(pairs: Seq<(K, V)>) -> Seq<(K, V)>
    decreases pairs.len(),
{
    if pairs.len() == 0 {
        Seq::empty()
    } else {
        with_entry(collected(pairs.drop_last()), pairs.last().0, pairs.last().1)
    }
}

/// No key occurs twice in `entries`.
pub open spec fn distinct_keys<K, V>(entries: Seq<(K, V)>) -> bool {
    forall|i: int, j: int|
        0 <= i < j < entries.len() ==> (#[trigger] entries[i]).0 != (#[trigger] entries[j]).0
}

/// `index_of` finds the first entry under the key, and `-1` only where
/// there is none.
pub proof fn lemma_index_of<K, V>(entries: Seq<(K, V)>, key: K)
    ensures
        -1 <= index_of(entries, key) < entries.len(),
        index_of(entries, key) >= 0 ==> entries[index_of(entries, key)].0 == key,
        forall|j: int| 0 <= j < index_of(entries, key) ==> (#[trigger] entries[j]).0 != key,
        index_of(entries, key) < 0 ==> forall|j: int|
            0 <= j < entries.len() ==> (#[trigger] entries[j]).0 != key,
    decreases entries.len(),
{
    if entries.len() > 0 {
        let front = entries.drop_last();
        lemma_index_of(front, key);
        assert forall|j: int| 0 <= j < front.len() implies front[j] == entries[j] by {}
        let r = index_of(entries, key);
        assert forall|j: int| 0 <= j < r implies (#[trigger] entries[j]).0 != key by {
            assert(front[j] == entries[j]);
        }
        if r < 0 {
            assert forall|j: int| 0 <= j < entries.len() implies (#[trigger] entries[j]).0
                != key by {
                if j < front.len() {
                    assert(front[j] == entries[j]);
                }
            }
        }
    }
}

/// The first entry under a key is where `index_of` points.
pub proof fn lemma_index_of_is<K, V>(entries: Seq<(K, V)>, key: K, i: int)
    requires
        0 <= i < entries.len(),
        entries[i].0 == key,
        forall|j: int| 0 <= j < i ==> (#[trigger] entries[j]).0 != key,
    ensures
        index_of(entries, key) == i,
{
    lemma_index_of(entries, key);
}

/// What was put under a key is what is found there.
pub proof fn lemma_value_of_with_entry<K, V>(entries: Seq<(K, V)>, key: K, value: V)
    ensures
        value_of(with_entry(entries, key, value), key) == Some(value),
        with_entry(entries, key, value).len() >= entries.len(),
{
    lemma_index_of(entries, key);
    let after = with_entry(entries, key, value);
    let i = index_of(entries, key);
    if i >= 0 {
        lemma_index_of_is(after, key, i);
    } else {
        lemma_index_of_is(after, key, entries.len() as int);
    }
}

/// Putting a value under one key changes nothing under another.
pub proof fn lemma_value_of_other<K, V>(entries: Seq<(K, V)>, key: K, value: V, other: K)
    requires
        other != key,
    ensures
        index_of(with_entry(entries, key, value), other) == index_of(entries, other),
        value_of(with_entry(entries, key, value), other) == value_of(entries, other),
{
    lemma_index_of(entries, key);
    lemma_index_of(entries, other);
    let after = with_entry(entries, key, value);
    let j = index_of(entries, other);
    if j >= 0 {
        lemma_index_of_is(after, other, j);
    } else {
        lemma_index_of(after, other);
    }
}

/// After a value was put under a key, that key is present, and so is every
/// key that was present before, and no other.
pub proof fn lemma_with_entry_keys<K, V>(entries: Seq<(K, V)>, key: K, value: V, other: K)
    ensures
        has_key(with_entry(entries, key, value), other) == (other == key || has_key(entries, other)),
{
    lemma_value_of_with_entry(entries, key, value);
    if other != key {
        lemma_value_of_other(entries, key, value, other);
    }
}

/// Putting a value under a key keeps the keys distinct.
pub proof fn lemma_with_entry_distinct<K, V>(entries: Seq<(K, V)>, key: K, value: V)
    requires
        distinct_keys(entries),
    ensures
        distinct_keys(with_entry(entries, key, value)),
{
    lemma_index_of(entries, key);
}

/// What holds of every value of a table and of a new value holds of every
/// value after the new value was put into the table.
pub proof fn lemma_with_entry_values<K, V>(
    entries: Seq<(K, V)>,
    key: K,
    value: V,
    holds: spec_fn(V) -> bool,
)
    requires
        forall|i: int| 0 <= i < entries.len() ==> holds((#[trigger] entries[i]).1),
        holds(value),
    ensures
        forall|i: int|
            0 <= i < with_entry(entries, key, value).len() ==> holds(
                (#[trigger] with_entry(entries, key, value)[i]).1,
            ),
{
    lemma_index_of(entries, key);
    let after = with_entry(entries, key, value);
    assert forall|i: int| 0 <= i < after.len() implies holds((#[trigger] after[i]).1) by {
        if i < entries.len() && i != index_of(entries, key) {
            assert(after[i] == entries[i]);
        }
    }
}

/// What holds of every value of a table holds of the value under a key.
pub proof fn lemma_value_of_holds<K, V>(entries: Seq<(K, V)>, key: K, holds: spec_fn(V) -> bool)
    requires
        forall|i: int| 0 <= i < entries.len() ==> holds((#[trigger] entries[i]).1),
    ensures
        value_of(entries, key) matches Some(value) ==> holds(value),
{
    lemma_index_of(entries, key);
}

/// Whatever pairs are put into a table, no key occurs twice in it.
pub proof fn lemma_collected_distinct<K, V>(pairs: Seq<(K, V)>)
    ensures
        distinct_keys(collected(pairs)),
    decreases pairs.len(),
{
    if pairs.len() > 0 {
        lemma_collected_distinct(pairs.drop_last());
        lemma_with_entry_distinct(collected(pairs.drop_last()), pairs.last().0, pairs.last().1);
    }
}

/// A table from keys to values.
#[derive(Clone, Debug, PartialEq)]
pub struct Table<K, V> {
    entries: Vec<(K, V)>,
}

impl<K: Key, V: View> View for Table<K, V> {
    type V = Seq<(K::V, V::V)>;

    closed spec fn view(&self) -> Seq<(K::V, V::V)> {
        Seq::new(self.entries@.len(), |i: int| (self.entries@[i].0@, self.entries@[i].1@))
    }
}

impl<K: Key, V: View> Table<K, V> {
    /// No key occurs twice.
    pub open spec fn wf(&self) -> bool {
        distinct_keys(self@)
    }

    /// A table without entries.
    pub fn new() -> (t: Self)
        ensures
            t@ == Seq::<(K::V, V::V)>::empty(),
            t.wf(),
    {
        let t = Table { entries: Vec::new() };
        assert(t@ =~= Seq::<(K::V, V::V)>::empty());
        t
    }

    /// The number of entries.
    pub fn len(&self) -> (n: usize)
        ensures
            n == self@.len(),
    {
        self.entries.len()
    }

    /// Whether the table has no entries.
    pub fn is_empty(&self) -> (b: bool)
        ensures
            b == (self@.len() == 0),
    {
        self.entries.len() == 0
    }

    fn position(&self, key: &K) -> (r: Option<usize>)
        ensures
            match r {
                Some(i) => i == index_of(self@, key@) && i < self.entries@.len(),
                None => index_of(self@, key@) < 0,
            },
    {
        let mut i: usize = 0;
        while i < self.entries.len()
            invariant
                i <= self.entries@.len(),
                forall|j: int| 0 <= j < i ==> (#[trigger] self@[j]).0 != key@,
            decreases self.entries@.len() - i,
        {
            if self.entries[i].0.same(key) {
                proof {
                    lemma_index_of_is(self@, key@, i as int);
                }
                return Some(i);
            }
            i = i + 1;
        }
        proof {
            lemma_index_of(self@, key@);
        }
        None
    }

    /// Whether the table holds an entry under `key`.
    pub fn contains_key(&self, key: &K) -> (b: bool)
        ensures
            b == has_key(self@, key@),
    {
        self.position(key).is_some()
    }

    /// The value under `key`.
    pub fn get(&self, key: &K) -> (r: Option<&V>)
        ensures
            match r {
                Some(v) => value_of(self@, key@) == Some(v@),
                None => value_of(self@, key@) is None,
            },
    {
        match self.position(key) {
            Some(i) => Some(&self.entries[i].1),
            None => None,
        }
    }

    /// The key of the entry at `index`.
    pub fn key_at(&self, index: usize) -> (k: &K)
        requires
            index < self@.len(),
        ensures
            k@ == self@[index as int].0,
    {
        &self.entries[index].0
    }

    /// The value of the entry at `index`.
    pub fn value_at(&self, index: usize) -> (v: &V)
        requires
            index < self@.len(),
        ensures
            v@ == self@[index as int].1,
    {
        &self.entries[index].1
    }

    /// Removes every entry.
    pub fn clear(&mut self)
        ensures
            final(self)@ == Seq::<(K::V, V::V)>::empty(),
            final(self).wf(),
    {
        self.entries.clear();
        assert(self@ =~= Seq::<(K::V, V::V)>::empty());
    }

    /// Puts `value` under `key`, in the place of the value that was there
    /// or as a new last entry.
    pub fn insert(&mut self, key: K, value: V)
        ensures
            final(self)@ == with_entry(old(self)@, key@, value@),
            old(self).wf() ==> final(self).wf(),
    {
        let ghost before = self@;
        match self.position(&key) {
            Some(i) => {
                self.entries[i] = (key, value);
            },
            None => {
                self.entries.push((key, value));
            },
        }
        assert(self@ =~= with_entry(before, key@, value@));
        proof {
            if distinct_keys(before) {
                lemma_with_entry_distinct(before, key@, value@);
            }
        }
    }

    /// The value under `key`, to be changed in place.
    pub fn get_mut(&mut self, key: &K) -> (r: Option<&mut V>)
        ensures
            match r {
                Some(v) => {
                    &&& value_of(old(self)@, key@) == Some(v@)
                    &&& final(self)@ == with_entry(old(self)@, key@, final(v)@)
                },
                None => !has_key(old(self)@, key@) && final(self)@ == old(self)@,
            },
            old(self).wf() ==> final(self).wf(),
    {
        match self.position(key) {
            Some(i) => {
                proof {
                    lemma_index_of(self@, key@);
                    let before = self@;
                    let held = self.entries@;
                    assert forall|x: V|
                        Seq::new(
                            held.len(),
                            |j: int| ((#[trigger] held.update(i as int, (held[i as int].0, x)))[j].0@, held.update(i as int, (held[i as int].0, x))[j].1@),
                        ) == with_entry(before, key@, x@) by {
                        let next = held.update(i as int, (held[i as int].0, x));
                        assert(Seq::new(next.len(), |j: int| (next[j].0@, next[j].1@)) =~= with_entry(
                            before,
                            key@,
                            x@,
                        ));
                    }
                    assert forall|x: V::V| distinct_keys(before) implies distinct_keys(
                        #[trigger] with_entry(before, key@, x),
                    ) by {
                        lemma_with_entry_distinct(before, key@, x);
                    }
                }
                Some(&mut self.entries[i].1)
            },
            None => None,
        }
    }

    /// The value under `key`, to be changed in place; where the key is new,
    /// `fresh` is put under it first.
    pub fn get_or_insert(&mut self, key: K, fresh: V) -> (v: &mut V)
        ensures
            v@ == match value_of(old(self)@, key@) {
                Some(held) => held,
                None => fresh@,
            },
            final(self)@ == with_entry(old(self)@, key@, final(v)@),
            old(self).wf() ==> final(self).wf(),
    {
        let found = self.position(&key);
        let i = match found {
            Some(i) => i,
            None => {
                self.entries.push((key, fresh));
                self.entries.len() - 1
            },
        };
        proof {
            lemma_index_of(old(self)@, key@);
            let before = old(self)@;
            let held = self.entries@;
            assert forall|x: V|
                Seq::new(
                    held.len(),
                    |j: int| ((#[trigger] held.update(i as int, (held[i as int].0, x)))[j].0@, held.update(i as int, (held[i as int].0, x))[j].1@),
                ) == with_entry(before, key@, x@) by {
                let next = held.update(i as int, (held[i as int].0, x));
                assert(Seq::new(next.len(), |j: int| (next[j].0@, next[j].1@)) =~= with_entry(
                    before,
                    key@,
                    x@,
                ));
            }
            assert forall|x: V::V| distinct_keys(before) implies distinct_keys(
                #[trigger] with_entry(before, key@, x),
            ) by {
                lemma_with_entry_distinct(before, key@, x);
            }
        }
        &mut self.entries[i].1
    }
}

} // verus!
