//! A memo for lookups made while one query is answered.

use vstd::prelude::*;
use vstd::hash_map::StringHashMap;

verus! {

/// Remembers, per key, what a lookup returned, a miss included.
#[verifier::reject_recursive_types(T)]
pub struct Cacher<T> {
    cache: StringHashMap<Option<T>>,
}

impl<T> View for Cacher<T> {
    type V = Map<Seq<char>, Option<T>>;

    closed spec fn view(&self) -> Map<Seq<char>, Option<T>> {
        self.cache@
    }
}

impl<T> Cacher<T> {
    /// A memo that has seen no key.
    pub fn new() -> (r: Self)
        ensures
            r@ == Map::<Seq<char>, Option<T>>::empty(),
    {
        Self { cache: StringHashMap::new() }
    }

    /// A memo that already knows the given entries; where a key occurs
    /// twice the later entry counts.
    pub fn new_with(cache: Vec<(String, Option<T>)>) -> (r: Self)
        ensures
            r@ == known(cache@),
    {
        let mut map: StringHashMap<Option<T>> = StringHashMap::new();
        let mut entries = cache;
        let ghost all = entries@;
        assert(all.take(all.len() as int) =~= all);
        while entries.len() > 0
            invariant
                entries@ == all.take(entries.len() as int),
                entries.len() <= all.len(),
                forall|k: Seq<char>|
                    known(all).contains_key(k) <==> map@.contains_key(k) || known(
                        entries@,
                    ).contains_key(k),
                forall|k: Seq<char>|
                    #![trigger known(all)[k]]
                    known(all).contains_key(k) ==> known(all)[k] == if map@.contains_key(k) {
                        map@[k]
                    } else {
                        known(entries@)[k]
                    },
            decreases entries.len(),
        {
            let ghost before = entries@;
            let entry = entries.pop().unwrap();
            assert(entries@ =~= before.drop_last());
            assert(entry == before.last());
            if !map.contains_key(entry.0.as_str()) {
                map.insert(entry.0, entry.1);
            }
        }
        assert(map@ =~= known(all));
        Self { cache: map }
    }
}

/// The memo that a list of entries gives.
pub open spec fn known<T>(entries: Seq<(String, Option<T>)>) -> Map<Seq<char>, Option<T>>
    decreases entries.len(),
{
    if entries.len() == 0 {
        Map::empty()
    } else {
        known(entries.drop_last()).insert(entries.last().0@, entries.last().1)
    }
}

impl<T> Cacher<T> {
    /// The remembered answer for `key`; on a key not seen before, `req` is
    /// asked once and its answer remembered.
    pub fn get<F>(&mut self, key: &str, req: F) -> (value: &Option<T>) where
        F: Fn(&str) -> Option<T>,

        requires
            !old(self)@.contains_key(key@) ==> req.requires((key,)),
        ensures
            old(self)@.contains_key(key@) ==> final(self)@ == old(self)@ && *value == old(
                self,
            )@[key@],
            !old(self)@.contains_key(key@) ==> req.ensures((key,), *value) && final(self)@ == old(
                self,
            )@.insert(key@, *value),
    {
        if !self.cache.contains_key(key) {
            let answer = req(key);
            self.cache.insert(key.to_string(), answer);
        }
        self.cache.get(key).unwrap()
    }
}

} // verus!
