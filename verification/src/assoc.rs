//! A finite map from names to values, kept as a list of entries with
//! distinct keys; its model is a `Map` from the key's characters.

use vstd::prelude::*;

use crate::text::{copy_string, string_eq};

verus! {

/// Values that can be copied with the copy's view equal to the original's.
pub trait ViewClone: View + Sized {
    fn view_clone(&self) -> (r: Self)
        ensures
            r@ == self@,
    ;
}

impl ViewClone for String {
    fn view_clone(&self) -> (r: Self) {
        copy_string(self)
    }
}

/// A map keyed by names.
#[derive(Debug)]
pub struct NameMap<V> {
    entries: Vec<(String, V)>,
}

/// The entries with key `k`.
pub open spec fn key_at<V>(s: Seq<(String, V)>, i: int) -> Seq<char> {
    s[i].0@
}

pub open spec fn keys_distinct<V>(s: Seq<(String, V)>) -> bool {
    forall|i: int, j: int|
        0 <= i < s.len() && 0 <= j < s.len() && i != j ==> #[trigger] key_at(s, i) != #[trigger] key_at(s, j)
}

pub open spec fn has_key<V>(s: Seq<(String, V)>, k: Seq<char>) -> bool {
    exists|i: int| 0 <= i < s.len() && #[trigger] key_at(s, i) == k
}

pub open spec fn position_of<V>(s: Seq<(String, V)>, k: Seq<char>) -> int {
    choose|i: int| 0 <= i < s.len() && #[trigger] key_at(s, i) == k
}

impl<V: View> View for NameMap<V> {
    type V = Map<Seq<char>, V::V>;

    closed spec fn view(&self) -> Map<Seq<char>, V::V> {
        Map::new(
            |k: Seq<char>| has_key(self.entries@, k),
            |k: Seq<char>| self.entries@[position_of(self.entries@, k)].1@,
        )
    }
}

impl<V> NameMap<V> {
    /// The keys of the entries are distinct.
    pub closed spec fn wf(&self) -> bool {
        keys_distinct(self.entries@)
    }

    /// The value stored under each key, as it is stored.
    pub closed spec fn stored(&self) -> Map<Seq<char>, V> {
        Map::new(
            |k: Seq<char>| has_key(self.entries@, k),
            |k: Seq<char>| self.entries@[position_of(self.entries@, k)].1,
        )
    }
}

impl<V: View> NameMap<V> {
    /// The number of keys.
    pub closed spec fn spec_len(&self) -> nat {
        self.entries@.len()
    }

    /// The keys, in the order in which they were first inserted.
    pub closed spec fn key_seq(&self) -> Seq<Seq<char>> {
        self.entries@.map_values(|e: (String, V)| e.0@)
    }

    pub proof fn lemma_keys(&self)
        requires
            self.wf(),
        ensures
            self.key_seq().len() == self.spec_len(),
            self.spec_len() == self@.dom().len(),
            self@.dom().finite(),
            forall|i: int| 0 <= i < self.key_seq().len() ==> self@.contains_key(#[trigger] self.key_seq()[i]),
            forall|k: Seq<char>| self@.contains_key(k) ==> self.key_seq().contains(k),
            self.key_seq().no_duplicates(),
    {
        {
        let s = self.entries@;
        assert forall|k: Seq<char>| self@.contains_key(k) implies self.key_seq().contains(k) by {
            let i = position_of(s, k);
            assert(self.key_seq()[i] == k);
        }
        assert forall|i: int| 0 <= i < self.key_seq().len() implies self@.contains_key(#[trigger] self.key_seq()[i]) by {
            assert(key_at(s, i) == self.key_seq()[i]);
        }
        assert(self.key_seq().no_duplicates()) by {
            assert forall|i: int, j: int| 0 <= i < self.key_seq().len() && 0 <= j < self.key_seq().len() && i != j
                implies self.key_seq()[i] != self.key_seq()[j] by {
                assert(key_at(s, i) != key_at(s, j));
            }
        }
        self.key_seq().unique_seq_to_set();
        assert(self.key_seq().to_set() =~= self@.dom());
        }
    }

    /// An empty map.
    pub fn new() -> (r: Self)
        ensures
            r@ == Map::<Seq<char>, V::V>::empty(),
            r.spec_len() == 0,
            r.wf(),
    {
        let r = NameMap { entries: Vec::new() };
        assert(r@ =~= Map::<Seq<char>, V::V>::empty());
        r
    }

    fn find(&self, k: &String) -> (r: Option<usize>)
        ensures
            match r {
                Some(i) => i < self.entries@.len() && key_at(self.entries@, i as int) == k@,
                None => !has_key(self.entries@, k@),
            },
    {
        let mut i: usize = 0;
        while i < self.entries.len()
            invariant
                i <= self.entries@.len(),
                forall|j: int| 0 <= j < i ==> key_at(self.entries@, j) != k@,
            decreases self.entries.len() - i,
        {
            if string_eq(&self.entries[i].0, k) {
                return Some(i);
            }
            i += 1;
        }
        None
    }

    /// The value stored under `k`, if any.
    pub fn get(&self, k: &String) -> (r: Option<&V>)
        requires
            self.wf(),
        ensures
            match r {
                Some(v) => self@.contains_key(k@) && self@[k@] == v@ && self.stored().contains_key(k@)
                    && self.stored()[k@] == *v,
                None => !self@.contains_key(k@),
            },
    {
        match self.find(k) {
            Some(i) => {
                proof {
                    let p = position_of(self.entries@, k@);
                    assert(key_at(self.entries@, p) == k@);
                }
                Some(&self.entries[i].1)
            },
            None => None,
        }
    }

    /// Whether `k` has a value.
    pub fn contains(&self, k: &String) -> (r: bool)
        requires
            self.wf(),
        ensures
            r == self@.contains_key(k@),
    {
        self.get(k).is_some()
    }

    /// Stores `v` under `k`, replacing any earlier value.
    pub fn insert(&mut self, k: String, v: V)
        requires
            old(self).wf(),
        ensures
            final(self).wf(),
            final(self)@ == old(self)@.insert(k@, v@),
            final(self).spec_len() == old(self).spec_len() + if old(self)@.contains_key(k@) { 0int } else { 1int },
            old(self)@.contains_key(k@) ==> final(self).key_seq() == old(self).key_seq(),
            !old(self)@.contains_key(k@) ==> final(self).key_seq() == old(self).key_seq().push(k@),
    {
        let ghost old_entries = self.entries@;
        let ghost kv = k@;
        let ghost vv = v@;
        let ghost idx: int;
        match self.find(&k) {
            Some(i) => {
                self.entries.set(i, (k, v));
                proof {
                    idx = i as int;
                }
            },
            None => {
                self.entries.push((k, v));
                proof {
                    idx = old_entries.len() as int;
                }
            },
        }
        proof {
            let new_entries = self.entries@;
            assert(forall|j: int| 0 <= j < old_entries.len() && j != idx ==> new_entries[j] == old_entries[j]);
            assert(key_at(new_entries, idx) == kv && new_entries[idx].1@ == vv);
            assert forall|j: int| 0 <= j < new_entries.len() && j != idx implies key_at(new_entries, j) == key_at(old_entries, j) by {}
            assert(keys_distinct(new_entries)) by {
                assert forall|a: int, b: int|
                    0 <= a < new_entries.len() && 0 <= b < new_entries.len() && a != b
                    implies #[trigger] key_at(new_entries, a) != #[trigger] key_at(new_entries, b) by {
                    if a != idx && b != idx {
                        assert(key_at(new_entries, a) == key_at(old_entries, a));
                        assert(key_at(new_entries, b) == key_at(old_entries, b));
                    } else if a == idx {
                        assert(key_at(new_entries, b) == key_at(old_entries, b));
                        if idx < old_entries.len() {
                            assert(key_at(old_entries, a) == kv);
                        }
                    } else {
                        assert(key_at(new_entries, a) == key_at(old_entries, a));
                        if idx < old_entries.len() {
                            assert(key_at(old_entries, b) == kv);
                        }
                    }
                }
            }
            assert forall|key: Seq<char>| #![trigger self@.contains_key(key)]
                self@.contains_key(key) == old(self)@.insert(kv, vv).contains_key(key) by {
                if key == kv {
                    assert(key_at(new_entries, idx) == key);
                } else if has_key(old_entries, key) {
                    let i = position_of(old_entries, key);
                    if idx < old_entries.len() {
                        assert(key_at(old_entries, idx) == kv);
                    }
                    assert(key_at(new_entries, i) == key);
                } else if has_key(new_entries, key) {
                    let i = position_of(new_entries, key);
                    assert(key_at(old_entries, i) == key);
                }
            }
            assert forall|key: Seq<char>| self@.contains_key(key) implies self@[key] == old(self)@.insert(kv, vv)[key] by {
                let i = position_of(new_entries, key);
                if key == kv {
                    assert(key_at(new_entries, idx) == key);
                } else {
                    let j = position_of(old_entries, key);
                    assert(key_at(old_entries, i) == key);
                    if idx < old_entries.len() {
                        assert(key_at(old_entries, idx) == kv);
                    }
                    assert(key_at(new_entries, j) == key);
                }
            }
            assert(self@ =~= old(self)@.insert(kv, vv));
            if idx < old_entries.len() {
                assert(has_key(old_entries, kv));
                assert(self.key_seq() =~= old_entries.map_values(|e: (String, V)| e.0@));
            } else {
                assert(self.key_seq() =~= old_entries.map_values(|e: (String, V)| e.0@).push(kv));
            }
        }
    }

    /// The keys, in the order in which they were first inserted.
    pub fn keys(&self) -> (r: Vec<String>)
        ensures
            r@.len() == self.key_seq().len(),
            forall|i: int| 0 <= i < r@.len() ==> (#[trigger] r@[i])@ == self.key_seq()[i],
    {
        let mut r: Vec<String> = Vec::new();
        let mut i: usize = 0;
        while i < self.entries.len()
            invariant
                i <= self.entries@.len(),
                r@.len() == i,
                forall|j: int| 0 <= j < i ==> (#[trigger] r@[j])@ == self.key_seq()[j],
            decreases self.entries.len() - i,
        {
            r.push(copy_string(&self.entries[i].0));
            i += 1;
        }
        r
    }
}

impl<V: ViewClone> NameMap<V> {
    /// A copy of the map.
    pub fn duplicate(&self) -> (r: Self)
        requires
            self.wf(),
        ensures
            r.wf(),
            r@ == self@,
            r.key_seq() == self.key_seq(),
            r.spec_len() == self.spec_len(),
    {
        let mut entries: Vec<(String, V)> = Vec::new();
        let mut i: usize = 0;
        while i < self.entries.len()
            invariant
                i <= self.entries@.len(),
                entries@.len() == i,
                keys_distinct(self.entries@),
                forall|j: int| 0 <= j < i ==> (#[trigger] entries@[j]).0@ == self.entries@[j].0@
                    && entries@[j].1@ == self.entries@[j].1@,
            decreases self.entries.len() - i,
        {
            let k = copy_string(&self.entries[i].0);
            let v = self.entries[i].1.view_clone();
            entries.push((k, v));
            i += 1;
        }
        proof {
            assert forall|a: int, b: int|
                0 <= a < entries@.len() && 0 <= b < entries@.len() && a != b
                implies #[trigger] key_at(entries@, a) != #[trigger] key_at(entries@, b) by {
                assert(entries@[a].0@ == self.entries@[a].0@);
                assert(entries@[b].0@ == self.entries@[b].0@);
                assert(key_at(self.entries@, a) != key_at(self.entries@, b));
            }
        }
        let r = NameMap { entries };
        proof {
            assert forall|k: Seq<char>| has_key(r.entries@, k) == has_key(self.entries@, k) by {
                if has_key(r.entries@, k) {
                    let i = position_of(r.entries@, k);
                    assert(r.entries@[i].0@ == self.entries@[i].0@);
                    assert(key_at(self.entries@, i) == k);
                }
                if has_key(self.entries@, k) {
                    let i = position_of(self.entries@, k);
                    assert(r.entries@[i].0@ == self.entries@[i].0@);
                    assert(key_at(r.entries@, i) == k);
                }
            }
            assert forall|k: Seq<char>| has_key(r.entries@, k) implies r.entries@[position_of(r.entries@, k)].1@
                == self.entries@[position_of(self.entries@, k)].1@ by {
                let i = position_of(r.entries@, k);
                let j = position_of(self.entries@, k);
                assert(r.entries@[i].0@ == self.entries@[i].0@);
                assert(r.entries@[j].0@ == self.entries@[j].0@);
                assert(key_at(self.entries@, i) == k);
                assert(key_at(r.entries@, j) == k);
            }
            assert(r@ =~= self@);
            assert forall|j: int| 0 <= j < r.entries@.len() implies r.key_seq()[j] == self.key_seq()[j] by {
                assert(key_at(r.entries@, j) == key_at(self.entries@, j));
            }
            assert(r.key_seq() =~= self.key_seq());
        }
        r
    }
}

} // verus!
