//! An insertion-ordered map keyed by remote reference.
//!
//! The map is a vector of `(href, value)` pairs in which no href occurs
//! twice. Lookups compare hrefs as raw strings: a key is never decoded.

use crate::text::str_eq;
use vstd::prelude::*;

verus! {

/// The href of the `i`-th pair.
pub open spec fn key_at<V>(entries: Seq<(String, V)>, i: int) -> Seq<char> {
    entries[i].0@
}

/// No href occurs in two pairs.
pub open spec fn distinct_keys<V>(entries: Seq<(String, V)>) -> bool {
    forall|i: int, j: int|
        0 <= i < entries.len() && 0 <= j < entries.len() && i != j ==> #[trigger] key_at(entries, i)
            != #[trigger] key_at(entries, j)
}

/// Some pair of `entries` has the href `key`.
pub open spec fn has_key<V>(entries: Seq<(String, V)>, key: Seq<char>) -> bool {
    exists|i: int| 0 <= i < entries.len() && #[trigger] key_at(entries, i) == key
}

/// The position of a pair with the href `key`.
pub open spec fn index_of<V>(entries: Seq<(String, V)>, key: Seq<char>) -> int {
    choose|i: int| 0 <= i < entries.len() && #[trigger] key_at(entries, i) == key
}

/// The mapping that a sequence of pairs stands for.
pub open spec fn entries_map<V>(entries: Seq<(String, V)>) -> Map<Seq<char>, V> {
    Map::new(
        |key: Seq<char>| has_key(entries, key),
        |key: Seq<char>| entries[index_of(entries, key)].1,
    )
}

/// The hrefs of a sequence of pairs, in order.
pub open spec fn entries_keys<V>(entries: Seq<(String, V)>) -> Seq<Seq<char>> {
    Seq::new(entries.len(), |i: int| key_at(entries, i))
}

/// `keys` lists the hrefs of `map`, each of them once.
pub open spec fn lists_keys<V>(keys: Seq<Seq<char>>, map: Map<Seq<char>, V>) -> bool {
    &&& keys.no_duplicates()
    &&& forall|key: Seq<char>|
        #![trigger keys.contains(key)]
        #![trigger map.contains_key(key)]
        keys.contains(key) <==> map.contains_key(key)
}

/// With distinct hrefs, the mapping sends the href of each pair to the
/// value of that pair.
pub proof fn lemma_entry_in_map<V>(entries: Seq<(String, V)>, i: int)
    requires
        distinct_keys(entries),
        0 <= i < entries.len(),
    ensures
        entries_map(entries).contains_key(key_at(entries, i)),
        entries_map(entries)[key_at(entries, i)] == entries[i].1,
        index_of(entries, key_at(entries, i)) == i,
{
    let key = key_at(entries, i);
    assert(has_key(entries, key));
    let j = index_of(entries, key);
    assert(key_at(entries, j) == key);
}

/// Appending a pair with a new href inserts it into the mapping.
pub proof fn lemma_push_new_key<V>(entries: Seq<(String, V)>, pair: (String, V))
    requires
        distinct_keys(entries),
        !has_key(entries, pair.0@),
    ensures
        distinct_keys(entries.push(pair)),
        entries_map(entries.push(pair)) == entries_map(entries).insert(pair.0@, pair.1),
        entries_keys(entries.push(pair)) == entries_keys(entries).push(pair.0@),
{
    let after = entries.push(pair);
    assert forall|i: int, j: int|
        0 <= i < after.len() && 0 <= j < after.len() && i != j implies #[trigger] key_at(after, i)
        != #[trigger] key_at(after, j) by {
        if i < entries.len() {
            assert(key_at(after, i) == key_at(entries, i));
        }
        if j < entries.len() {
            assert(key_at(after, j) == key_at(entries, j));
        }
    }
    let last = entries.len() as int;
    assert(key_at(after, last) == pair.0@);
    assert forall|key: Seq<char>| has_key(after, key) <==> (key == pair.0@ || has_key(
        entries,
        key,
    )) by {
        if has_key(after, key) {
            let i = index_of(after, key);
            if i < entries.len() {
                assert(key_at(entries, i) == key);
            }
        }
        if has_key(entries, key) {
            let i = index_of(entries, key);
            assert(key_at(after, i) == key);
        }
    }
    assert forall|key: Seq<char>| has_key(after, key) implies entries_map(after)[key]
        == entries_map(entries).insert(pair.0@, pair.1)[key] by {
        let i = index_of(after, key);
        lemma_entry_in_map(after, i);
        if i < entries.len() {
            assert(key_at(entries, i) == key);
            lemma_entry_in_map(entries, i);
        }
    }
    assert(entries_map(after) =~= entries_map(entries).insert(pair.0@, pair.1));
    assert(entries_keys(after) =~= entries_keys(entries).push(pair.0@));
}

/// Replacing the value of a pair updates the mapping at its href.
pub proof fn lemma_replace_value<V>(entries: Seq<(String, V)>, i: int, pair: (String, V))
    requires
        distinct_keys(entries),
        0 <= i < entries.len(),
        pair.0@ == key_at(entries, i),
    ensures
        distinct_keys(entries.update(i, pair)),
        entries_map(entries.update(i, pair)) == entries_map(entries).insert(pair.0@, pair.1),
        entries_keys(entries.update(i, pair)) == entries_keys(entries),
{
    let after = entries.update(i, pair);
    assert forall|j: int| 0 <= j < after.len() implies #[trigger] key_at(after, j) == key_at(
        entries,
        j,
    ) by {}
    assert forall|key: Seq<char>| has_key(after, key) <==> has_key(entries, key) by {
        if has_key(after, key) {
            let j = index_of(after, key);
            assert(key_at(entries, j) == key);
        }
        if has_key(entries, key) {
            let j = index_of(entries, key);
            assert(key_at(after, j) == key);
        }
    }
    lemma_entry_in_map(entries, i);
    assert forall|key: Seq<char>| has_key(after, key) implies entries_map(after)[key]
        == entries_map(entries).insert(pair.0@, pair.1)[key] by {
        let j = index_of(after, key);
        lemma_entry_in_map(after, j);
        assert(key_at(entries, j) == key);
        lemma_entry_in_map(entries, j);
    }
    assert(entries_map(after) =~= entries_map(entries).insert(pair.0@, pair.1));
    assert(entries_keys(after) =~= entries_keys(entries));
}

/// Taking a pair out removes its href from the mapping.
pub proof fn lemma_remove_pair<V>(entries: Seq<(String, V)>, i: int)
    requires
        distinct_keys(entries),
        0 <= i < entries.len(),
    ensures
        distinct_keys(entries.remove(i)),
        entries_map(entries.remove(i)) == entries_map(entries).remove(key_at(entries, i)),
        entries_keys(entries.remove(i)) == entries_keys(entries).remove(i),
        !has_key(entries.remove(i), key_at(entries, i)),
{
    let after = entries.remove(i);
    let gone = key_at(entries, i);
    assert forall|j: int| 0 <= j < after.len() implies #[trigger] key_at(after, j) == key_at(
        entries,
        if j < i {
            j
        } else {
            j + 1
        },
    ) by {}
    assert forall|a: int, b: int|
        0 <= a < after.len() && 0 <= b < after.len() && a != b implies #[trigger] key_at(after, a)
        != #[trigger] key_at(after, b) by {
        let a0 = if a < i {
            a
        } else {
            a + 1
        };
        let b0 = if b < i {
            b
        } else {
            b + 1
        };
        assert(key_at(after, a) == key_at(entries, a0));
        assert(key_at(after, b) == key_at(entries, b0));
    }
    assert forall|key: Seq<char>| has_key(after, key) <==> (key != gone && has_key(
        entries,
        key,
    )) by {
        if has_key(after, key) {
            let j = index_of(after, key);
            let j0 = if j < i {
                j
            } else {
                j + 1
            };
            assert(key_at(entries, j0) == key);
        }
        if key != gone && has_key(entries, key) {
            let j0 = index_of(entries, key);
            let j = if j0 < i {
                j0
            } else {
                j0 - 1
            };
            assert(key_at(after, j) == key);
        }
    }
    assert forall|key: Seq<char>| has_key(after, key) implies entries_map(after)[key]
        == entries_map(entries)[key] by {
        let j = index_of(after, key);
        let j0 = if j < i {
            j
        } else {
            j + 1
        };
        lemma_entry_in_map(after, j);
        assert(key_at(entries, j0) == key);
        lemma_entry_in_map(entries, j0);
    }
    assert(entries_map(after) =~= entries_map(entries).remove(gone));
    assert(entries_keys(after) =~= entries_keys(entries).remove(i));
}

/// The hrefs of pairs with distinct hrefs are a duplicate-free list of the
/// mapping's domain.
pub proof fn lemma_keys_of_map<V>(entries: Seq<(String, V)>)
    requires
        distinct_keys(entries),
    ensures
        lists_keys(entries_keys(entries), entries_map(entries)),
{
    let keys = entries_keys(entries);
    assert forall|i: int, j: int| 0 <= i < keys.len() && 0 <= j < keys.len() && i != j implies keys[i]
        != keys[j] by {
        assert(keys[i] == key_at(entries, i));
        assert(keys[j] == key_at(entries, j));
    }
    assert forall|key: Seq<char>| keys.contains(key) <==> entries_map(entries).contains_key(
        key,
    ) by {
        if keys.contains(key) {
            let i = choose|i: int| 0 <= i < keys.len() && keys[i] == key;
            assert(key_at(entries, i) == key);
        }
        if has_key(entries, key) {
            let i = index_of(entries, key);
            assert(keys[i] == key);
        }
    }
}

/// A map from href to `V` that remembers the order in which hrefs came in.
pub struct HrefMap<V> {
    entries: Vec<(String, V)>,
}

impl<V> View for HrefMap<V> {
    type V = Map<Seq<char>, V>;

    closed spec fn view(&self) -> Map<Seq<char>, V> {
        entries_map(self.entries@)
    }
}

impl<V> HrefMap<V> {
    #[verifier::type_invariant]
    spec fn distinct(&self) -> bool {
        distinct_keys(self.entries@)
    }

    /// The hrefs of the map in the order in which they came in.
    pub closed spec fn keys(&self) -> Seq<Seq<char>> {
        entries_keys(self.entries@)
    }

    /// The empty map.
    pub fn new() -> (r: Self)
        ensures
            r@ == Map::<Seq<char>, V>::empty(),
            r.keys() == Seq::<Seq<char>>::empty(),
            lists_keys(r.keys(), r@),
    {
        let r = HrefMap { entries: Vec::new() };
        proof {
            lemma_keys_of_map(r.entries@);
        }
        assert(r@ =~= Map::<Seq<char>, V>::empty());
        assert(r.keys() =~= Seq::<Seq<char>>::empty());
        r
    }

    /// The number of hrefs in the map. `keys()` lists each of them once.
    pub fn len(&self) -> (r: usize)
        ensures
            r == self.keys().len(),
            lists_keys(self.keys(), self@),
    {
        proof {
            use_type_invariant(self);
            lemma_keys_of_map(self.entries@);
        }
        self.entries.len()
    }

    /// The href at position `i` of `keys()`.
    pub fn key(&self, i: usize) -> (r: &String)
        requires
            i < self.keys().len(),
        ensures
            r@ == self.keys()[i as int],
    {
        &self.entries[i].0
    }

    /// The value stored under the href at position `i` of `keys()`.
    pub fn value(&self, i: usize) -> (r: &V)
        requires
            i < self.keys().len(),
        ensures
            self@.contains_key(self.keys()[i as int]),
            *r == self@[self.keys()[i as int]],
    {
        proof {
            use_type_invariant(self);
            lemma_entry_in_map(self.entries@, i as int);
        }
        &self.entries[i].1
    }

    fn position(&self, href: &str) -> (r: Option<usize>)
        ensures
            match r {
                Some(i) => i < self.entries.len() && key_at(self.entries@, i as int) == href@,
                None => !has_key(self.entries@, href@),
            },
    {
        let mut i: usize = 0;
        while i < self.entries.len()
            invariant
                i <= self.entries.len(),
                forall|j: int| 0 <= j < i ==> #[trigger] key_at(self.entries@, j) != href@,
            decreases self.entries.len() - i,
        {
            if str_eq(self.entries[i].0.as_str(), href) {
                return Some(i);
            }
            i += 1;
        }
        None
    }

    /// Whether `href` is in the map.
    pub fn contains_key(&self, href: &str) -> (r: bool)
        ensures
            r == self@.contains_key(href@),
    {
        self.position(href).is_some()
    }

    /// The value stored under `href`, if any.
    pub fn get(&self, href: &str) -> (r: Option<&V>)
        ensures
            match r {
                Some(value) => self@.contains_key(href@) && *value == self@[href@],
                None => !self@.contains_key(href@),
            },
    {
        match self.position(href) {
            Some(i) => {
                proof {
                    use_type_invariant(self);
                    lemma_entry_in_map(self.entries@, i as int);
                }
                Some(&self.entries[i].1)
            },
            None => None,
        }
    }

    /// Stores `value` under `href`, replacing what was stored there. A new
    /// href goes to the end of `keys()`; a known one keeps its place.
    pub fn insert(&mut self, href: String, value: V)
        ensures
            final(self)@ == old(self)@.insert(href@, value),
            final(self).keys() == if old(self)@.contains_key(href@) {
                old(self).keys()
            } else {
                old(self).keys().push(href@)
            },
            lists_keys(final(self).keys(), final(self)@),
    {
        proof {
            use_type_invariant(&*self);
        }
        match self.position(href.as_str()) {
            Some(i) => {
                proof {
                    lemma_replace_value(self.entries@, i as int, (href, value));
                    lemma_keys_of_map(self.entries@.update(i as int, (href, value)));
                }
                let mut entries: Vec<(String, V)> = Vec::new();
                core::mem::swap(&mut self.entries, &mut entries);
                entries.set(i, (href, value));
                core::mem::swap(&mut self.entries, &mut entries);
            },
            None => {
                proof {
                    lemma_push_new_key(self.entries@, (href, value));
                    lemma_keys_of_map(self.entries@.push((href, value)));
                }
                let mut entries: Vec<(String, V)> = Vec::new();
                core::mem::swap(&mut self.entries, &mut entries);
                entries.push((href, value));
                core::mem::swap(&mut self.entries, &mut entries);
            },
        }
    }

    /// Stores `value` under an href that the map does not hold yet.
    pub fn push_new(&mut self, href: String, value: V)
        requires
            !old(self)@.contains_key(href@),
        ensures
            final(self)@ == old(self)@.insert(href@, value),
            final(self).keys() == old(self).keys().push(href@),
            lists_keys(final(self).keys(), final(self)@),
    {
        proof {
            use_type_invariant(&*self);
            lemma_push_new_key(self.entries@, (href, value));
            lemma_keys_of_map(self.entries@.push((href, value)));
        }
        let mut entries: Vec<(String, V)> = Vec::new();
        core::mem::swap(&mut self.entries, &mut entries);
        entries.push((href, value));
        core::mem::swap(&mut self.entries, &mut entries);
    }

    /// Takes `href` out of the map and returns what was stored under it.
    /// The other hrefs keep their order.
    pub fn remove(&mut self, href: &str) -> (r: Option<V>)
        ensures
            final(self)@ == old(self)@.remove(href@),
            match r {
                Some(value) => old(self)@.contains_key(href@) && value == old(self)@[href@],
                None => {
                    &&& !old(self)@.contains_key(href@)
                    &&& final(self)@ == old(self)@
                    &&& final(self).keys() == old(self).keys()
                },
            },
            final(self).keys() == old(self).keys().remove_value(href@),
            lists_keys(final(self).keys(), final(self)@),
    {
        proof {
            use_type_invariant(&*self);
        }
        match self.position(href) {
            Some(i) => {
                proof {
                    lemma_remove_pair(self.entries@, i as int);
                    lemma_keys_of_map(self.entries@.remove(i as int));
                    lemma_entry_in_map(self.entries@, i as int);
                    lemma_keys_of_map(self.entries@);
                    let keys = entries_keys(self.entries@);
                    assert(keys[i as int] == href@);
                    keys.index_of_first_ensures(href@);
                    assert(keys.index_of_first(href@) == Some(i as int)) by {
                        let found = keys.index_of_first(href@);
                        assert(found is Some);
                        assert(keys[found.unwrap()] == href@);
                    }
                }
                let mut entries: Vec<(String, V)> = Vec::new();
                core::mem::swap(&mut self.entries, &mut entries);
                let pair = entries.remove(i);
                core::mem::swap(&mut self.entries, &mut entries);
                Some(pair.1)
            },
            None => {
                proof {
                    lemma_keys_of_map(self.entries@);
                    let keys = entries_keys(self.entries@);
                    assert(!keys.contains(href@));
                    keys.index_of_first_ensures(href@);
                    assert(self@.remove(href@) =~= self@);
                }
                None
            },
        }
    }
}

} // verus!
