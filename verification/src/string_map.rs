//! A small map from strings to strings that keeps its entries in the order
//! in which their keys came, and hands them out in that order.
//!
//! It stands where a hash map would: for the tags and for the snapshot of
//! the broadcasts. Both have to be handed out entry by entry, to tag a
//! metric and to be written as JSON. The string-keyed hash map of vstd
//! hands out no entries, and of a `HashMap` keyed by `String` nothing can
//! be proved. So the entries are a `Vec`, the invariant is that no key
//! stands in it twice, and a lookup walks the entries, which are few.

use vstd::prelude::*;
use vstd::string::*;

verus! {

/// Whether `key` is the key of one of the pairs.
pub open spec fn has_key(pairs: Seq<(Seq<char>, Seq<char>)>, key: Seq<char>) -> bool {
    exists|i: int| 0 <= i < pairs.len() && (#[trigger] pairs[i]).0 == key
}

/// A place at which `key` stands among the pairs, if it stands among them.
pub open spec fn index_of_key(pairs: Seq<(Seq<char>, Seq<char>)>, key: Seq<char>) -> int {
    choose|i: int| 0 <= i < pairs.len() && (#[trigger] pairs[i]).0 == key
}

/// No key stands in the pairs twice.
pub open spec fn keys_unique(pairs: Seq<(Seq<char>, Seq<char>)>) -> bool {
    forall|i: int, j: int|
        0 <= i < j < pairs.len() ==> (#[trigger] pairs[i]).0 != (#[trigger] pairs[j]).0
}

/// The map that pairs with unique keys stand for.
pub open spec fn map_of(pairs: Seq<(Seq<char>, Seq<char>)>) -> Map<Seq<char>, Seq<char>> {
    Map::new(
        |key: Seq<char>| has_key(pairs, key),
        |key: Seq<char>| pairs[index_of_key(pairs, key)].1,
    )
}

/// The pairs after `key` was given `value`: in its old place where the key
/// is there, at the end where it is new.
pub open spec fn pairs_insert(
    pairs: Seq<(Seq<char>, Seq<char>)>,
    key: Seq<char>,
    value: Seq<char>,
) -> Seq<(Seq<char>, Seq<char>)> {
    if has_key(pairs, key) {
        pairs.update(index_of_key(pairs, key), (key, value))
    } else {
        pairs.push((key, value))
    }
}

/// Giving a key a value keeps the keys unique and is an insertion into the
/// map.
pub proof fn lemma_pairs_insert(pairs: Seq<(Seq<char>, Seq<char>)>, key: Seq<char>, value: Seq<char>)
    requires
        keys_unique(pairs),
    ensures
        keys_unique(pairs_insert(pairs, key, value)),
        map_of(pairs_insert(pairs, key, value)) == map_of(pairs).insert(key, value),
{
    let after = pairs_insert(pairs, key, value);
    let at = if has_key(pairs, key) {
        index_of_key(pairs, key)
    } else {
        pairs.len() as int
    };
    assert(after[at] == (key, value));
    assert forall|i: int| 0 <= i < after.len() && i != at implies #[trigger] after[i] == pairs[i]
        && pairs[i].0 != key by {
        if has_key(pairs, key) {
            if i < at {
                assert(pairs[i].0 != pairs[at].0);
            } else {
                assert(pairs[at].0 != pairs[i].0);
            }
        }
    }
    assert forall|k: Seq<char>| has_key(after, k) <==> k == key || has_key(pairs, k) by {
        if has_key(after, k) {
            let i = index_of_key(after, k);
            if i != at {
                assert(pairs[i].0 == k);
            }
        }
        if has_key(pairs, k) {
            let i = index_of_key(pairs, k);
            assert(after[i].0 == k);
        }
        if k == key {
            assert(after[at].0 == k);
        }
    }
    assert forall|k: Seq<char>| has_key(after, k) implies #[trigger] map_of(after)[k] == map_of(
        pairs,
    ).insert(key, value)[k] by {
        let i = index_of_key(after, k);
        if k == key {
            if i != at {
                assert(after[i] == pairs[i]);
            }
        } else {
            assert(i != at);
            assert(pairs[i].0 == k);
            let i0 = index_of_key(pairs, k);
            if i0 < i {
                assert(pairs[i0].0 != pairs[i].0);
            } else if i < i0 {
                assert(pairs[i].0 != pairs[i0].0);
            }
        }
    }
    assert(map_of(after) =~= map_of(pairs).insert(key, value));
}

#[derive(Debug)]
pub struct StringMap {
    entries: Vec<(String, String)>,
}

impl View for StringMap {
    type V = Seq<(Seq<char>, Seq<char>)>;

    /// The entries in their order, as pairs of key and value.
    closed spec fn view(&self) -> Seq<(Seq<char>, Seq<char>)> {
        Seq::new(self.entries@.len(), |i: int| (self.entries@[i].0@, self.entries@[i].1@))
    }
}

impl Clone for StringMap {
    fn clone(&self) -> (copy: Self)
        ensures
            copy@ == self@,
    {
        proof {
            use_type_invariant(self);
        }
        let mut entries: Vec<(String, String)> = Vec::new();
        let mut i: usize = 0;
        while i < self.entries.len()
            invariant
                i <= self.entries@.len(),
                entries@.len() == i,
                forall|j: int|
                    0 <= j < i ==> (#[trigger] entries@[j]).0@ == self.entries@[j].0@
                        && entries@[j].1@ == self.entries@[j].1@,
            decreases self.entries@.len() - i,
        {
            entries.push((self.entries[i].0.clone(), self.entries[i].1.clone()));
            i = i + 1;
        }
        assert(Seq::new(entries@.len(), |i: int| (entries@[i].0@, entries@[i].1@)) =~= self@);
        StringMap { entries }
    }
}

impl StringMap {
    #[verifier::type_invariant]
    closed spec fn inv(&self) -> bool {
        keys_unique(self@)
    }

    /// The map that the entries stand for.
    pub open spec fn map(&self) -> Map<Seq<char>, Seq<char>> {
        map_of(self@)
    }

    pub fn new() -> (map: StringMap)
        ensures
            map@ == Seq::<(Seq<char>, Seq<char>)>::empty(),
            keys_unique(map@),
    {
        let map = StringMap { entries: Vec::new() };
        assert(map@ =~= Seq::empty());
        map
    }

    /// The number of entries.
    pub fn len(&self) -> (len: usize)
        ensures
            len == self@.len(),
    {
        self.entries.len()
    }

    pub fn is_empty(&self) -> (empty: bool)
        ensures
            empty == (self@.len() == 0),
    {
        self.entries.len() == 0
    }

    /// The place of `key` among the entries.
    fn position(&self, key: &str) -> (found: Option<usize>)
        ensures
            keys_unique(self@),
            match found {
                Some(i) => i < self@.len() && self@[i as int].0 == key@ && has_key(self@, key@)
                    && index_of_key(self@, key@) == i,
                None => !has_key(self@, key@),
            },
    {
        proof {
            use_type_invariant(self);
        }
        let wanted = String::from_str(key);
        let mut i: usize = 0;
        while i < self.entries.len()
            invariant
                i <= self.entries@.len(),
                wanted@ == key@,
                keys_unique(self@),
                forall|j: int| 0 <= j < i ==> (#[trigger] self@[j]).0 != key@,
            decreases self.entries@.len() - i,
        {
            if self.entries[i].0 == wanted {
                proof {
                    assert(self@[i as int].0 == key@);
                    assert(has_key(self@, key@));
                    let at = index_of_key(self@, key@);
                    if at < i {
                        assert(self@[at].0 != key@);
                    } else if i < at {
                        assert(self@[i as int].0 != self@[at].0);
                    }
                }
                return Some(i);
            }
            i = i + 1;
        }
        None
    }

    /// Whether `key` has a value.
    pub fn contains_key(&self, key: &str) -> (found: bool)
        ensures
            found == self.map().contains_key(key@),
    {
        self.position(key).is_some()
    }

    /// The value of `key`, if it has one.
    pub fn get(&self, key: &str) -> (value: Option<&String>)
        ensures
            match value {
                Some(value) => self.map().contains_key(key@) && value@ == self.map()[key@],
                None => !self.map().contains_key(key@),
            },
    {
        match self.position(key) {
            Some(i) => Some(&self.entries[i].1),
            None => None,
        }
    }

    /// Gives `key` the value `value`, in place of the one that it had.
    pub fn insert(&mut self, key: String, value: String)
        ensures
            final(self)@ == pairs_insert(old(self)@, key@, value@),
            final(self).map() == old(self).map().insert(key@, value@),
            keys_unique(final(self)@),
    {
        let found = self.position(key.as_str());
        proof {
            lemma_pairs_insert(self@, key@, value@);
        }
        let ghost before = self@;
        let mut entries: Vec<(String, String)> = Vec::new();
        assert(Seq::new(entries@.len(), |i: int| (entries@[i].0@, entries@[i].1@))
            =~= Seq::<(Seq<char>, Seq<char>)>::empty());
        std::mem::swap(&mut self.entries, &mut entries);
        match found {
            Some(i) => {
                entries[i] = (key, value);
            },
            None => {
                entries.push((key, value));
            },
        }
        assert(Seq::new(entries@.len(), |i: int| (entries@[i].0@, entries@[i].1@))
            =~= pairs_insert(before, key@, value@));
        self.entries = entries;
    }

    /// Gives every key of `other` the value that it has there.
    pub fn extend(&mut self, other: StringMap)
        ensures
            final(self).map() == old(self).map().union_prefer_right(other.map()),
            keys_unique(final(self)@),
    {
        proof {
            use_type_invariant(&*self);
            use_type_invariant(&other);
        }
        let mut i: usize = 0;
        assert(old(self).map().union_prefer_right(map_of(other@.take(0))) =~= old(self).map());
        while i < other.entries.len()
            invariant
                i <= other.entries@.len(),
                keys_unique(self@),
                keys_unique(other@),
                self.map() == old(self).map().union_prefer_right(map_of(other@.take(i as int))),
            decreases other.entries@.len() - i,
        {
            let key = other.entries[i].0.clone();
            let value = other.entries[i].1.clone();
            proof {
                let done = other@.take(i as int);
                assert(other@[i as int] == (key@, value@));
                assert(!has_key(done, key@)) by {
                    if has_key(done, key@) {
                        let at = index_of_key(done, key@);
                        assert(other@[at].0 != other@[i as int].0);
                    }
                }
                assert(keys_unique(done)) by {
                    assert forall|a: int, b: int| 0 <= a < b < done.len() implies (
                    #[trigger] done[a]).0 != (#[trigger] done[b]).0 by {
                        assert(other@[a].0 != other@[b].0);
                    }
                }
                lemma_pairs_insert(done, key@, value@);
                assert(done.push((key@, value@)) =~= other@.take(i + 1));
                assert(old(self).map().union_prefer_right(map_of(done)).insert(key@, value@)
                    =~= old(self).map().union_prefer_right(map_of(done).insert(key@, value@)));
            }
            self.insert(key, value);
            i = i + 1;
        }
        assert(other@.take(i as int) =~= other@);
    }

    /// The entries in their order, each a key with its value.
    pub fn entries(&self) -> (entries: &Vec<(String, String)>)
        ensures
            entries@.len() == self@.len(),
            forall|i: int|
                0 <= i < entries@.len() ==> (#[trigger] entries@[i]).0@ == self@[i].0
                    && entries@[i].1@ == self@[i].1,
            keys_unique(self@),
    {
        proof {
            use_type_invariant(self);
        }
        &self.entries
    }
}

} // verus!
