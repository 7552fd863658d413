//! A map from request identifiers to values.

use vstd::prelude::*;

use crate::text::same_text;

verus! {

/// A map whose keys are texts. No key occurs twice.
pub struct RequestMap<V> {
    entries: Vec<(String, V)>,
}

/// Whether an entry has the key `key`.
spec fn has_key<V>(entries: Seq<(String, V)>, key: Seq<char>) -> bool {
    exists|i: int| 0 <= i < entries.len() && (#[trigger] entries[i]).0@ == key
}

/// The place of an entry with the key `key`.
spec fn position<V>(entries: Seq<(String, V)>, key: Seq<char>) -> int {
    choose|i: int| 0 <= i < entries.len() && (#[trigger] entries[i]).0@ == key
}

/// The map that a list of entries stands for.
spec fn as_map<V>(entries: Seq<(String, V)>) -> Map<Seq<char>, V> {
    Map::new(|key: Seq<char>| has_key(entries, key), |key: Seq<char>| entries[position(entries, key)].1)
}

/// Whether no two entries have the same key.
spec fn distinct<V>(entries: Seq<(String, V)>) -> bool {
    forall|i: int, j: int|
        0 <= i < j < entries.len() ==> (#[trigger] entries[i]).0@ != (#[trigger] entries[j]).0@
}

/// Every entry is in the map.
proof fn lemma_entry_in_map<V>(entries: Seq<(String, V)>, i: int)
    requires
        distinct(entries),
        0 <= i < entries.len(),
    ensures
        as_map(entries).contains_key(entries[i].0@),
        as_map(entries)[entries[i].0@] == entries[i].1,
{
    let key = entries[i].0@;
    assert(has_key(entries, key));
    let p = position(entries, key);
    assert(0 <= p < entries.len() && entries[p].0@ == key);
    if p < i {
        assert(entries[p].0@ != entries[i].0@);
    } else if i < p {
        assert(entries[i].0@ != entries[p].0@);
    }
}

impl<V> View for RequestMap<V> {
    type V = Map<Seq<char>, V>;

    closed spec fn view(&self) -> Map<Seq<char>, V> {
        as_map(self.entries@)
    }
}

impl<V> RequestMap<V> {
    #[verifier::type_invariant]
    spec fn well_formed(self) -> bool {
        distinct(self.entries@)
    }

    /// An empty map.
    pub fn new() -> (r: Self)
        ensures
            r@ == Map::<Seq<char>, V>::empty(),
    {
        let r = RequestMap { entries: Vec::new() };
        assert(r@ =~= Map::<Seq<char>, V>::empty());
        r
    }

    /// The place of the entry with the key `key`.
    fn find(&self, key: &str) -> (r: Option<usize>)
        ensures
            match r {
                Some(i) => i < self.entries@.len() && self.entries@[i as int].0@ == key@,
                None => !has_key(self.entries@, key@),
            },
    {
        let mut i: usize = 0;
        while i < self.entries.len()
            invariant
                i <= self.entries@.len(),
                forall|j: int| 0 <= j < i ==> (#[trigger] self.entries@[j]).0@ != key@,
            decreases self.entries@.len() - i,
        {
            if same_text(self.entries[i].0.as_str(), key) {
                return Some(i);
            }
            i = i + 1;
        }
        None
    }

    /// The value under `key`.
    pub fn get(&self, key: &str) -> (r: Option<&V>)
        ensures
            match r {
                Some(v) => self@.contains_key(key@) && *v == self@[key@],
                None => !self@.contains_key(key@),
            },
    {
        proof {
            use_type_invariant(self);
        }
        match self.find(key) {
            Some(i) => {
                proof {
                    lemma_entry_in_map(self.entries@, i as int);
                }
                Some(&self.entries[i].1)
            },
            None => None,
        }
    }

    /// Takes the value under `key` out of the map.
    pub fn remove(&mut self, key: &str) -> (r: Option<V>)
        ensures
            final(self)@ == old(self)@.remove(key@),
            match r {
                Some(v) => old(self)@.contains_key(key@) && v == old(self)@[key@],
                None => !old(self)@.contains_key(key@),
            },
    {
        proof {
            use_type_invariant(&*self);
        }
        let found = self.find(key);
        match found {
            Some(i) => {
                let ghost before = self.entries@;
                let mut entries: Vec<(String, V)> = Vec::new();
                std::mem::swap(&mut entries, &mut self.entries);
                let (_, value) = entries.swap_remove(i);
                let ghost after = entries@;
                proof {
                    lemma_entry_in_map(before, i as int);
                    assert forall|a: int, b: int| 0 <= a < b < after.len() implies (
                    #[trigger] after[a]).0@ != (#[trigger] after[b]).0@ by {
                        let x = if a == i {
                            before.len() - 1
                        } else {
                            a
                        };
                        let y = if b == i {
                            before.len() - 1
                        } else {
                            b
                        };
                        assert(after[a] == before[x] && after[b] == before[y]);
                        if x < y {
                            assert(before[x].0@ != before[y].0@);
                        } else {
                            assert(before[y].0@ != before[x].0@);
                        }
                    }
                    assert forall|k: Seq<char>|
                        has_key(after, k) <==> (has_key(before, k) && k != key@) by {
                        if has_key(after, k) {
                            let a = position(after, k);
                            let x = if a == i {
                                before.len() - 1
                            } else {
                                a
                            };
                            assert(before[x] == after[a]);
                            if x < i {
                                assert(before[x].0@ != before[i as int].0@);
                            } else {
                                assert(before[i as int].0@ != before[x].0@);
                            }
                        }
                        if has_key(before, k) && k != key@ {
                            let x = position(before, k);
                            let a = if x == before.len() - 1 {
                                i as int
                            } else {
                                x
                            };
                            assert(after[a] == before[x]);
                        }
                    }
                    assert forall|k: Seq<char>| #[trigger]
                        as_map(after).contains_key(k) implies as_map(after)[k] == as_map(
                        before,
                    )[k] by {
                        let a = position(after, k);
                        let x = if a == i {
                            before.len() - 1
                        } else {
                            a
                        };
                        assert(before[x] == after[a]);
                        lemma_entry_in_map(before, x);
                    }
                    assert(as_map(after) =~= as_map(before).remove(key@));
                }
                self.entries = entries;
                Some(value)
            },
            None => {
                assert(self@.remove(key@) =~= self@);
                None
            },
        }
    }

    /// Puts `value` under `key`, and returns the value that was there before.
    pub fn insert(&mut self, key: String, value: V) -> (r: Option<V>)
        ensures
            final(self)@ == old(self)@.insert(key@, value),
            match r {
                Some(v) => old(self)@.contains_key(key@) && v == old(self)@[key@],
                None => !old(self)@.contains_key(key@),
            },
    {
        let ghost initial = self@;
        let replaced = self.remove(key.as_str());
        proof {
            use_type_invariant(&*self);
        }
        let ghost before = self.entries@;
        let ghost text = key@;
        let mut entries: Vec<(String, V)> = Vec::new();
        std::mem::swap(&mut entries, &mut self.entries);
        entries.push((key, value));
        let ghost after = entries@;
        proof {
            assert(!as_map(before).contains_key(text));
            assert forall|i: int| 0 <= i < before.len() implies (#[trigger] before[i]).0@
                != text by {
                lemma_entry_in_map(before, i);
            }
            assert forall|k: Seq<char>| has_key(after, k) <==> (has_key(before, k) || k == text) by {
                if has_key(before, k) {
                    let x = position(before, k);
                    assert(after[x] == before[x]);
                }
                if k == text {
                    assert(after[before.len() as int].0@ == k);
                }
                if has_key(after, k) {
                    let a = position(after, k);
                    if a < before.len() {
                        assert(after[a] == before[a]);
                    }
                }
            }
            assert forall|k: Seq<char>| #[trigger]
                as_map(after).contains_key(k) implies as_map(after)[k] == as_map(before).insert(
                text,
                value,
            )[k] by {
                let a = position(after, k);
                if a < before.len() {
                    assert(after[a] == before[a]);
                    lemma_entry_in_map(before, a);
                }
            }
            assert(as_map(after) =~= as_map(before).insert(text, value));
            assert(as_map(after) =~= initial.insert(text, value));
        }
        self.entries = entries;
        replaced
    }
}

} // verus!
