//! A string-keyed map backed by a vector of entries.
//!
//! The view is a `Map<Seq<char>, V::V>` in which a later entry for a key
//! shadows an earlier one; `insert` appends (overwrite semantics) and
//! `insert_if_absent` keeps the first entry for a key (the first-write-wins
//! rule of the resource maps).

use vstd::prelude::*;

verus! {

/// One key/value entry.
#[derive(Debug, PartialEq, Eq)]
pub struct MapEntry<V> {
    pub key: String,
    pub value: V,
}

/// A string-keyed map; entries are kept in insertion order.
#[derive(Debug, PartialEq, Eq)]
pub struct StrMap<V> {
    pub entries: Vec<MapEntry<V>>,
}

/// The map an entry sequence denotes: entries applied left to right, a
/// later entry shadowing an earlier one.
pub open spec fn entry_map<V: View>(es: Seq<MapEntry<V>>) -> Map<Seq<char>, V::V>
    decreases es.len(),
{
    if es.len() == 0 {
        Map::empty()
    } else {
        entry_map(es.drop_last()).insert(es.last().key@, es.last().value@)
    }
}

impl<V: View> View for StrMap<V> {
    type V = Map<Seq<char>, V::V>;

    open spec fn view(&self) -> Map<Seq<char>, V::V> {
        entry_map(self.entries@)
    }
}

impl<V: View> StrMap<V> {
    /// The empty map.
    pub fn new() -> (r: StrMap<V>)
        ensures
            r@ == Map::<Seq<char>, V::V>::empty(),
    {
        let r = StrMap { entries: Vec::new() };
        proof {
            assert(r.entries@.len() == 0);
        }
        r
    }

    /// Insert, overwriting any earlier entry for the key.
    pub fn insert(&mut self, key: String, value: V)
        ensures
            final(self)@ == old(self)@.insert(key@, value@),
    {
        let ghost old_entries = self.entries@;
        let ghost gk = key@;
        let ghost gv = value@;
        self.entries.push(MapEntry { key, value });
        proof {
            assert(self.entries@.drop_last() =~= old_entries);
            assert(self.entries@.last().key@ == gk);
            assert(self.entries@.last().value@ == gv);
        }
    }

    /// Does the map hold an entry for `key`?
    pub fn contains_key(&self, key: &str) -> (r: bool)
        ensures
            r == self@.contains_key(key@),
    {
        self.get(key).is_some()
    }

    /// Insert only when the key is absent: the first write wins.
    pub fn insert_if_absent(&mut self, key: String, value: V)
        ensures
            final(self)@ == if old(self)@.contains_key(key@) {
                old(self)@
            } else {
                old(self)@.insert(key@, value@)
            },
    {
        if !self.contains_key(key.as_str()) {
            self.insert(key, value);
        }
    }

    /// Look the key up; the latest entry for it is the map's value.
    pub fn get(&self, key: &str) -> (r: Option<&V>)
        ensures
            (match r {
                Some(v) => self@.contains_key(key@) && v@ == self@[key@],
                None => !self@.contains_key(key@),
            }),
    {
        let mut i = self.entries.len();
        proof {
            assert(self.entries@.take(i as int) =~= self.entries@);
        }
        while i > 0
            invariant
                i <= self.entries@.len(),
                entry_map(self.entries@).contains_key(key@) == entry_map(
                    self.entries@.take(i as int),
                ).contains_key(key@),
                entry_map(self.entries@).contains_key(key@) ==> entry_map(self.entries@)[key@]
                    == entry_map(self.entries@.take(i as int))[key@],
            decreases i,
        {
            i -= 1;
            let ghost prefix = self.entries@.take(i + 1);
            proof {
                assert(prefix.drop_last() =~= self.entries@.take(i as int));
                assert(prefix.last() == self.entries@[i as int]);
            }
            if crate::text::str_eq(self.entries[i].key.as_str(), key) {
                return Some(&self.entries[i].value);
            }
        }
        proof {
            assert(self.entries@.take(0) =~= Seq::<MapEntry<V>>::empty());
        }
        None
    }
}

} // verus!
