//! An ordered map from text.

use crate::text::{before, comes_before, lemma_before_total, lemma_before_transitive, same};
use vstd::prelude::*;
use vstd::string::*;

verus! {

/// A map from text to `V`, kept in the order of its keys.
#[derive(Debug)]
pub struct TextMap<V> {
    entries: Vec<(String, V)>,
}

/// Whether entries are in strictly increasing order of their keys.
pub open spec fn in_order<V>(s: Seq<(String, V)>) -> bool {
    forall|i: int, j: int| 0 <= i < j < s.len() ==> before(#[trigger] s[i].0@, #[trigger] s[j].0@)
}

/// Whether some entry has the key.
pub open spec fn has_key<V>(s: Seq<(String, V)>, key: Seq<char>) -> bool {
    exists|i: int| 0 <= i < s.len() && #[trigger] s[i].0@ == key
}

/// The map that a sequence of entries stands for.
pub open spec fn map_of<V>(s: Seq<(String, V)>) -> Map<Seq<char>, V> {
    Map::new(
        |key: Seq<char>| has_key(s, key),
        |key: Seq<char>| s[choose|i: int| 0 <= i < s.len() && #[trigger] s[i].0@ == key].1,
    )
}

/// An entry is found under its key.
pub proof fn lemma_map_of<V>(s: Seq<(String, V)>, i: int)
    requires
        in_order(s),
        0 <= i < s.len(),
    ensures
        map_of(s).contains_key(s[i].0@),
        map_of(s)[s[i].0@] == s[i].1,
{
    let key = s[i].0@;
    assert(has_key(s, key));
    let j = choose|j: int| 0 <= j < s.len() && #[trigger] s[j].0@ == key;
    lemma_before_total(key, key);
    assert(j == i) by {
        if j < i {
            assert(before(s[j].0@, s[i].0@));
        } else if i < j {
            assert(before(s[i].0@, s[j].0@));
        }
    }
}

impl<V> View for TextMap<V> {
    type V = Map<Seq<char>, V>;

    closed spec fn view(&self) -> Map<Seq<char>, V> {
        map_of(self.entries@)
    }
}

impl<V> TextMap<V> {
    #[verifier::type_invariant]
    spec fn ordered(&self) -> bool {
        in_order(self.entries@)
    }

    /// The entries in order.
    pub closed spec fn items(&self) -> Seq<(String, V)> {
        self.entries@
    }

    /// An empty map.
    pub fn new() -> (r: TextMap<V>)
        ensures
            r@ == Map::<Seq<char>, V>::empty(),
            r.items() == Seq::<(String, V)>::empty(),
    {
        let r = TextMap { entries: Vec::new() };
        assert(map_of(r.entries@) =~= Map::<Seq<char>, V>::empty());
        r
    }

    /// The number of entries. They are in order and make up the map.
    pub fn len(&self) -> (r: usize)
        ensures
            r == self.items().len(),
            in_order(self.items()),
            self@ == map_of(self.items()),
    {
        proof {
            use_type_invariant(self);
        }
        self.entries.len()
    }

    /// The entry at a position of the order.
    pub fn at(&self, i: usize) -> (r: &(String, V))
        requires
            i < self.items().len(),
        ensures
            *r == self.items()[i as int],
    {
        &self.entries[i]
    }

    /// The position of the first entry whose key is not before `key`.
    fn position(&self, key: &str) -> (r: usize)
        ensures
            r <= self.items().len(),
            forall|i: int| 0 <= i < r ==> before(#[trigger] self.items()[i].0@, key@),
            forall|i: int|
                r <= i < self.items().len() ==> !before(#[trigger] self.items()[i].0@, key@),
    {
        proof {
            use_type_invariant(self);
        }
        let mut i: usize = 0;
        while i < self.entries.len() && comes_before(self.entries[i].0.as_str(), key)
            invariant
                i <= self.entries.len(),
                forall|j: int| 0 <= j < i ==> before(#[trigger] self.entries@[j].0@, key@),
            decreases self.entries.len() - i,
        {
            i = i + 1;
        }
        assert forall|j: int| i <= j < self.entries@.len() implies !before(
            #[trigger] self.entries@[j].0@,
            key@,
        ) by {
            if i < j && before(self.entries@[j].0@, key@) {
                lemma_before_transitive(self.entries@[i as int].0@, self.entries@[j].0@, key@);
            }
        }
        i
    }

    /// The value under a key.
    pub fn get(&self, key: &str) -> (r: Option<&V>)
        ensures
            r.is_some() == self@.contains_key(key@),
            r.is_some() ==> *r.unwrap() == self@[key@],
    {
        let i: usize = self.position(key);
        proof {
            use_type_invariant(self);
        }
        if i < self.entries.len() && same(self.entries[i].0.as_str(), key) {
            proof {
                lemma_map_of(self.entries@, i as int);
            }
            Some(&self.entries[i].1)
        } else {
            proof {
                lemma_before_total(key@, key@);
                if has_key(self.entries@, key@) {
                    let j = choose|j: int|
                        0 <= j < self.entries@.len() && #[trigger] self.entries@[j].0@ == key@;
                    assert(self.items()[j].0@ == key@);
                    assert(j >= i);
                    if j > i {
                        assert(before(self.entries@[i as int].0@, self.entries@[j].0@));
                        assert(!before(self.items()[i as int].0@, key@));
                    }
                }
            }
            None
        }
    }

    /// Whether there is a value under a key.
    pub fn contains(&self, key: &str) -> (r: bool)
        ensures
            r == self@.contains_key(key@),
    {
        self.get(key).is_some()
    }

    /// Puts a value under a key, in place of any before.
    pub fn insert(&mut self, key: String, value: V)
        ensures
            final(self)@ == old(self)@.insert(key@, value),
    {
        let i: usize = self.position(key.as_str());
        let ghost s = self.entries@;
        let ghost k = key@;
        proof {
            use_type_invariant(&*self);
            assert(forall|j: int| 0 <= j < i ==> before(#[trigger] s[j].0@, k));
            assert(forall|j: int| i <= j < s.len() ==> !before(#[trigger] s[j].0@, k));
        }
        if i < self.entries.len() && same(self.entries[i].0.as_str(), key.as_str()) {
            proof {
                let t = s.update(i as int, (key, value));
                assert(t.len() == s.len());
                assert forall|a: int, b: int| 0 <= a < b < t.len() implies before(
                    #[trigger] t[a].0@,
                    #[trigger] t[b].0@,
                ) by {
                    assert(t[a].0@ == s[a].0@ && t[b].0@ == s[b].0@);
                }
                lemma_update(s, t, i as int, k, value);
            }
            let mut held = TextMap::new();
            core::mem::swap(self, &mut held);
            let mut all = held.entries;
            all.set(i, (key, value));
            *self = TextMap { entries: all };
        } else {
            proof {
                let t = s.insert(i as int, (key, value));
                lemma_before_total(k, k);
                assert forall|j: int| i <= j < s.len() implies before(k, #[trigger] s[j].0@) by {
                    lemma_before_total(k, s[j].0@);
                    if s[j].0@ == k {
                        if j > i {
                            assert(before(s[i as int].0@, s[j].0@));
                        }
                    }
                }
                assert forall|a: int, b: int| 0 <= a < b < t.len() implies before(
                    #[trigger] t[a].0@,
                    #[trigger] t[b].0@,
                ) by {
                    let x = if a < i {
                        a
                    } else {
                        a - 1
                    };
                    let y = if b < i {
                        b
                    } else {
                        b - 1
                    };
                    if a != i && b != i {
                        assert(before(s[x].0@, s[y].0@));
                    }
                }
                lemma_insert(s, t, i as int, k, value);
            }
            let mut held = TextMap::new();
            core::mem::swap(self, &mut held);
            let mut all = held.entries;
            all.insert(i, (key, value));
            *self = TextMap { entries: all };
        }
    }

    /// Removes every entry.
    pub fn clear(&mut self)
        ensures
            final(self)@ == Map::<Seq<char>, V>::empty(),
    {
        *self = TextMap::new();
    }
}

/// Replacing the entry of a key.
proof fn lemma_update<V>(s: Seq<(String, V)>, t: Seq<(String, V)>, i: int, key: Seq<char>, value: V)
    requires
        in_order(s),
        in_order(t),
        0 <= i < s.len(),
        t.len() == s.len(),
        s[i].0@ == key,
        t[i].0@ == key,
        t[i].1 == value,
        forall|j: int| 0 <= j < s.len() && j != i ==> t[j] == s[j],
    ensures
        map_of(t) == map_of(s).insert(key, value),
{
    let m = map_of(s).insert(key, value);
    assert forall|k: Seq<char>| map_of(t).contains_key(k) == m.contains_key(k) by {
        if has_key(t, k) {
            let j = choose|j: int| 0 <= j < t.len() && #[trigger] t[j].0@ == k;
            assert(s[j].0@ == k);
        }
        if has_key(s, k) {
            let j = choose|j: int| 0 <= j < s.len() && #[trigger] s[j].0@ == k;
            assert(t[j].0@ == k);
        }
        assert(t[i].0@ == key);
    }
    assert forall|k: Seq<char>| map_of(t).contains_key(k) implies map_of(t)[k] == m[k] by {
        let j = choose|j: int| 0 <= j < t.len() && #[trigger] t[j].0@ == k;
        lemma_map_of(t, j);
        lemma_map_of(s, j);
        lemma_map_of(t, i);
    }
    assert(map_of(t) =~= m);
}

/// Adding an entry for a new key.
proof fn lemma_insert<V>(s: Seq<(String, V)>, t: Seq<(String, V)>, i: int, key: Seq<char>, value: V)
    requires
        in_order(s),
        in_order(t),
        0 <= i <= s.len(),
        t.len() == s.len() + 1,
        t[i].0@ == key,
        t[i].1 == value,
        forall|j: int| 0 <= j < i ==> t[j] == s[j],
        forall|j: int| i <= j < s.len() ==> t[j + 1] == s[j],
    ensures
        map_of(t) == map_of(s).insert(key, value),
{
    let m = map_of(s).insert(key, value);
    lemma_before_total(key, key);
    assert forall|k: Seq<char>| map_of(t).contains_key(k) == m.contains_key(k) by {
        if has_key(t, k) {
            let j = choose|j: int| 0 <= j < t.len() && #[trigger] t[j].0@ == k;
            if j < i {
                assert(s[j].0@ == k);
            } else if j > i {
                assert(t[j] == s[j - 1]);
                assert(s[j - 1].0@ == k);
            }
        }
        if has_key(s, k) {
            let j = choose|j: int| 0 <= j < s.len() && #[trigger] s[j].0@ == k;
            if j < i {
                assert(t[j].0@ == k);
            } else {
                assert(t[j + 1].0@ == k);
            }
        }
        assert(t[i].0@ == key);
    }
    assert forall|k: Seq<char>| map_of(t).contains_key(k) implies map_of(t)[k] == m[k] by {
        let j = choose|j: int| 0 <= j < t.len() && #[trigger] t[j].0@ == k;
        lemma_map_of(t, j);
        if j < i {
            lemma_map_of(s, j);
            assert(before(t[j].0@, t[i].0@));
        } else if j > i {
            assert(t[j] == s[j - 1]);
            lemma_map_of(s, j - 1);
            assert(before(t[i].0@, t[j].0@));
        }
    }
    assert(map_of(t) =~= m);
}

} // verus!
