//! A small map keyed by text, kept as a list of entries.
//!
//! The evaluator keeps all of its tables in this type: the directive
//! registry, the variable context, the reference table and the page's theme
//! configuration. Its view is a `Map` from the key's characters to the view
//! of the stored value.

use crate::text::same_text;
use vstd::prelude::*;

verus! {

/// One binding of a [`StrMap`].
#[derive(Debug)]
pub struct Entry<V> {
    pub key: String,
    pub value: V,
}

/// A map from text to `V`.
#[derive(Debug)]
pub struct StrMap<V> {
    entries: Vec<Entry<V>>,
}

/// The position of the last entry whose key is `key`, if there is one: the
/// entry that binds `key`.
pub open spec fn position<V>(entries: Seq<Entry<V>>, key: Seq<char>) -> Option<int>
    decreases entries.len(),
{
    if entries.len() == 0 {
        None
    } else if entries.last().key@ == key {
        Some(entries.len() - 1)
    } else {
        position(entries.drop_last(), key)
    }
}

/// `position` is the greatest index that holds the key.
pub proof fn lemma_position<V>(entries: Seq<Entry<V>>, key: Seq<char>)
    ensures
        match position(entries, key) {
            Some(i) => 0 <= i < entries.len() && entries[i].key@ == key && forall|j: int|
                i < j < entries.len() ==> entries[j].key@ != key,
            None => forall|j: int| 0 <= j < entries.len() ==> entries[j].key@ != key,
        },
    decreases entries.len(),
{
    if entries.len() > 0 && entries.last().key@ != key {
        let front = entries.drop_last();
        lemma_position(front, key);
        assert forall|j: int| 0 <= j < front.len() implies front[j] == entries[j] by {}
    }
}

/// An index that holds the key, with no later one that does, is its position.
pub proof fn lemma_position_is<V>(entries: Seq<Entry<V>>, key: Seq<char>, i: int)
    requires
        0 <= i < entries.len(),
        entries[i].key@ == key,
        forall|j: int| i < j < entries.len() ==> entries[j].key@ != key,
    ensures
        position(entries, key) == Some(i),
{
    lemma_position(entries, key);
}

impl<V: View> View for StrMap<V> {
    type V = Map<Seq<char>, V::V>;

    closed spec fn view(&self) -> Map<Seq<char>, V::V> {
        Map::new(
            |k: Seq<char>| position(self.entries@, k) is Some,
            |k: Seq<char>| self.entries@[position(self.entries@, k)->0].value@,
        )
    }
}

/// Taking out the entry that binds `key` leaves every other key as it was.
proof fn lemma_remove_keeps_others<V>(before: Seq<Entry<V>>, key: Seq<char>, i: int, k: Seq<char>)
    requires
        position(before, key) == Some(i),
        k != key,
    ensures
        position(before.remove(i), k) is Some <==> position(before, k) is Some,
        position(before, k) is Some ==> before.remove(i)[position(before.remove(i), k)->0]
            == before[position(before, k)->0],
{
    let after = before.remove(i);
    lemma_position(before, key);
    lemma_position(before, k);
    lemma_position(after, k);
    match position(before, k) {
        Some(q) => {
            let q1 = if q < i { q } else { q - 1 };
            assert(after[q1] == before[q]);
            assert forall|j: int| q1 < j < after.len() implies after[j].key@ != k by {
                let j0 = if j < i { j } else { j + 1 };
                assert(after[j] == before[j0]);
            }
            lemma_position_is(after, k, q1);
        },
        None => {
            match position(after, k) {
                Some(p) => {
                    let p0 = if p < i { p } else { p + 1 };
                    assert(after[p] == before[p0]);
                },
                None => {},
            }
        },
    }
}

impl<V: View> StrMap<V> {
    /// An empty map.
    pub fn new() -> (m: Self)
        ensures
            m@ == Map::<Seq<char>, V::V>::empty(),
    {
        let m = StrMap { entries: Vec::new() };
        assert(m@ =~= Map::<Seq<char>, V::V>::empty());
        m
    }

    fn find(&self, key: &str) -> (r: Option<usize>)
        ensures
            match r {
                Some(i) => position(self.entries@, key@) == Some(i as int) && i
                    < self.entries.len(),
                None => position(self.entries@, key@) is None,
            },
    {
        let mut i: usize = self.entries.len();
        while i > 0
            invariant
                i <= self.entries.len(),
                forall|j: int| i <= j < self.entries.len() ==> self.entries@[j].key@ != key@,
            decreases i,
        {
            i = i - 1;
            if same_text(self.entries[i].key.as_str(), key) {
                proof {
                    lemma_position_is(self.entries@, key@, i as int);
                }
                return Some(i);
            }
        }
        proof {
            lemma_position(self.entries@, key@);
        }
        None
    }

    /// Whether `key` is bound.
    pub fn contains_key(&self, key: &str) -> (b: bool)
        ensures
            b == self@.contains_key(key@),
    {
        self.find(key).is_some()
    }

    /// The value bound to `key`.
    pub fn get(&self, key: &str) -> (r: Option<&V>)
        ensures
            match r {
                Some(v) => self@.contains_key(key@) && self@[key@] == v@,
                None => !self@.contains_key(key@),
            },
    {
        match self.find(key) {
            Some(i) => Some(&self.entries[i].value),
            None => None,
        }
    }

    /// Binds `key` to `value` and returns the value that was bound before.
    pub fn insert(&mut self, key: String, value: V) -> (r: Option<V>)
        ensures
            final(self)@ == old(self)@.insert(key@, value@),
            match r {
                Some(v) => old(self)@.contains_key(key@) && old(self)@[key@] == v@,
                None => !old(self)@.contains_key(key@),
            },
    {
        let ghost before = self.entries@;
        let ghost name = key@;
        let ghost bound = value@;
        let found = self.find(key.as_str());
        self.entries.push(Entry { key, value });
        let ghost grown = self.entries@;
        assert(grown.last().key@ == name && grown.last().value@ == bound);
        assert(grown.drop_last() =~= before);
        match found {
            Some(i) => {
                let previous = self.entries.swap_remove(i);
                proof {
                    let after = self.entries@;
                    lemma_position(before, name);
                    assert(after.len() == before.len());
                    assert(after[i as int] == grown.last());
                    assert forall|j: int| 0 <= j < after.len() && j != i implies after[j]
                        == before[j] by {}
                    assert forall|k: Seq<char>| true implies #[trigger] position(after, k)
                        == position(before, k) by {
                        lemma_position(before, k);
                        match position(before, k) {
                            Some(p) => {
                                lemma_position_is(after, k, p);
                            },
                            None => {
                                lemma_position(after, k);
                            },
                        }
                    }
                    assert forall|k: Seq<char>|
                        k != name && position(before, k) is Some implies after[position(
                        before,
                        k,
                    )->0] == before[#[trigger] position(before, k)->0] by {
                        lemma_position(before, k);
                    }
                    assert(self@ =~= old(self)@.insert(name, bound));
                }
                Some(previous.value)
            },
            None => {
                proof {
                    assert forall|k: Seq<char>| true implies #[trigger] position(grown, k) == (if k
                        == name {
                        Some(before.len() as int)
                    } else {
                        position(before, k)
                    }) by {
                        lemma_position(before, k);
                    }
                    assert forall|k: Seq<char>| position(before, k) is Some implies grown[position(
                        before,
                        k,
                    )->0] == before[#[trigger] position(before, k)->0] by {
                        lemma_position(before, k);
                    }
                    assert(self@ =~= old(self)@.insert(name, bound));
                }
                None
            },
        }
    }

    /// Removes the binding of `key` and returns its value.
    pub fn remove(&mut self, key: &str) -> (r: Option<V>)
        ensures
            final(self)@ == old(self)@.remove(key@),
            match r {
                Some(v) => old(self)@.contains_key(key@) && old(self)@[key@] == v@,
                None => !old(self)@.contains_key(key@),
            },
    {
        let mut removed: Option<V> = None;
        let mut found = self.find(key);
        while found.is_some()
            invariant
                match found {
                    Some(i) => position(self.entries@, key@) == Some(i as int) && i
                        < self.entries.len(),
                    None => position(self.entries@, key@) is None,
                },
                forall|k: Seq<char>| k != key@ ==> (#[trigger] self@.contains_key(k) <==> old(
                    self,
                )@.contains_key(k)),
                forall|k: Seq<char>| k != key@ && old(self)@.contains_key(k) ==> #[trigger] self@[k]
                    == old(self)@[k],
                match removed {
                    Some(v) => old(self)@.contains_key(key@) && old(self)@[key@] == v@,
                    None => self@ == old(self)@,
                },
            decreases self.entries.len(),
        {
            let i = found.unwrap();
            let ghost before = self.entries@;
            let ghost bound = self@;
            let previous = self.entries.remove(i);
            proof {
                assert forall|k: Seq<char>|
                    #![trigger self@.contains_key(k)]
                    #![trigger self@[k]]
                    k != key@ implies (self@.contains_key(k) <==> old(self)@.contains_key(k)) && (
                    old(self)@.contains_key(k) ==> self@[k] == old(self)@[k]) by {
                    lemma_remove_keeps_others(before, key@, i as int, k);
                    assert(bound.contains_key(k) <==> old(self)@.contains_key(k));
                    if old(self)@.contains_key(k) {
                        assert(bound[k] == old(self)@[k]);
                    }
                }
            }
            if removed.is_none() {
                removed = Some(previous.value);
            }
            found = self.find(key);
        }
        assert(self@ =~= old(self)@.remove(key@));
        removed
    }

    /// The keys that are bound. A key may stand in the list more than once.
    pub fn keys(&self) -> (keys: Vec<String>)
        ensures
            forall|i: int| 0 <= i < keys@.len() ==> self@.contains_key(#[trigger] keys@[i]@),
            forall|k: Seq<char>|
                self@.contains_key(k) ==> exists|i: int|
                    0 <= i < keys@.len() && #[trigger] keys@[i]@ == k,
    {
        let mut keys: Vec<String> = Vec::new();
        let mut i: usize = 0;
        while i < self.entries.len()
            invariant
                i <= self.entries.len(),
                keys@.len() == i,
                forall|j: int| 0 <= j < i ==> #[trigger] keys@[j]@ == self.entries@[j].key@,
            decreases self.entries.len() - i,
        {
            keys.push(self.entries[i].key.clone());
            i = i + 1;
        }
        proof {
            assert forall|j: int| 0 <= j < keys@.len() implies self@.contains_key(
                #[trigger] keys@[j]@,
            ) by {
                lemma_position(self.entries@, keys@[j]@);
            }
            assert forall|k: Seq<char>| self@.contains_key(k) implies exists|j: int|
                0 <= j < keys@.len() && #[trigger] keys@[j]@ == k by {
                lemma_position(self.entries@, k);
                let p = position(self.entries@, k)->0;
                assert(keys@[p]@ == k);
            }
        }
        keys
    }

    /// Removes every binding.
    pub fn clear(&mut self)
        ensures
            final(self)@ == Map::<Seq<char>, V::V>::empty(),
    {
        self.entries = Vec::new();
        assert(self@ =~= Map::<Seq<char>, V::V>::empty());
    }
}

} // verus!
