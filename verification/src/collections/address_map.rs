use crate::collections::address_set::AddressSet;
use crate::collections::keyed::{
    distinct_keys, has_key, key_index, lemma_map_of_entry, lemma_map_of_push, lemma_map_of_update,
    lemma_next_key_is_new, map_of,
};
use crate::domain::primitives::Address;
use vstd::prelude::*;

verus! {

/// A map from addresses. The order of its entries carries no meaning.
#[derive(Debug)]
pub struct AddressMap<V> {
    entries: Vec<(Address, V)>,
}

impl<V> View for AddressMap<V> {
    type V = Map<Address, V>;

    closed spec fn view(&self) -> Map<Address, V> {
        map_of(self.entries@)
    }
}

impl<V> AddressMap<V> {
    pub closed spec fn wf(&self) -> bool {
        distinct_keys(self.entries@)
    }

    pub fn new() -> (map: AddressMap<V>)
        ensures
            map.wf(),
            map@ == Map::<Address, V>::empty(),
    {
        let map = AddressMap { entries: Vec::new() };
        assert(map@ =~= Map::<Address, V>::empty());
        map
    }

    pub fn is_empty(&self) -> (r: bool)
        ensures
            r == (self@ == Map::<Address, V>::empty()),
    {
        if self.entries.len() == 0 {
            assert(self@ =~= Map::<Address, V>::empty());
            true
        } else {
            assert(has_key(self.entries@, self.entries@[0].0));
            assert(self@.dom().contains(self.entries@[0].0));
            false
        }
    }

    fn position(&self, key: &Address) -> (found: Option<usize>)
        ensures
            found is Some <==> has_key(self.entries@, *key),
            found matches Some(i) ==> i < self.entries@.len() && self.entries@[i as int].0 == *key,
    {
        let mut i: usize = 0;
        while i < self.entries.len()
            invariant
                i <= self.entries@.len(),
                forall|j: int| 0 <= j < i ==> (#[trigger] self.entries@[j]).0 != *key,
            decreases self.entries@.len() - i,
        {
            if self.entries[i].0 == *key {
                return Some(i);
            }
            i = i + 1;
        }
        None
    }

    pub fn get(&self, key: &Address) -> (value: Option<&V>)
        requires
            self.wf(),
        ensures
            value is Some <==> self@.dom().contains(*key),
            value matches Some(v) ==> *v == self@[*key],
    {
        match self.position(key) {
            Some(i) => {
                proof {
                    lemma_map_of_entry(self.entries@, i as int);
                }
                Some(&self.entries[i].1)
            },
            None => None,
        }
    }

    pub fn contains_key(&self, key: &Address) -> (r: bool)
        ensures
            r == self@.dom().contains(*key),
    {
        self.position(key).is_some()
    }

    /// Sets the value of `key`, replacing the one it had.
    pub fn insert(&mut self, key: Address, value: V)
        requires
            old(self).wf(),
        ensures
            final(self).wf(),
            final(self)@ == old(self)@.insert(key, value),
    {
        match self.position(&key) {
            Some(i) => {
                proof {
                    lemma_map_of_update(self.entries@, i as int, value);
                }
                self.entries.set(i, (key, value));
            },
            None => {
                proof {
                    lemma_map_of_push(self.entries@, key, value);
                }
                self.entries.push((key, value));
            },
        }
    }

    /// The entries, each key once.
    pub fn entries(&self) -> (entries: &Vec<(Address, V)>)
        requires
            self.wf(),
        ensures
            distinct_keys(entries@),
            map_of(entries@) == self@,
    {
        &self.entries
    }
}

impl<V: Copy> AddressMap<V> {
    /// Drops every entry whose key is not in `keys`.
    pub fn retain_keys(&mut self, keys: &AddressSet)
        requires
            old(self).wf(),
            keys.wf(),
        ensures
            final(self).wf(),
            final(self)@ == old(self)@.restrict(keys@),
    {
        let mut kept: Vec<(Address, V)> = Vec::new();
        let ghost all = self.entries@;
        let mut i: usize = 0;
        assert(map_of(kept@) =~= map_of(all.take(0)).restrict(keys@));
        while i < self.entries.len()
            invariant
                i <= all.len(),
                self.entries@ == all,
                distinct_keys(all),
                distinct_keys(kept@),
                forall|j: int|
                    0 <= j < kept@.len() ==> has_key(all.take(i as int), (#[trigger] kept@[j]).0),
                map_of(kept@) == map_of(all.take(i as int)).restrict(keys@),
            decreases all.len() - i,
        {
            let (key, value) = self.entries[i];
            let ghost shorter = all.take(i as int);
            let ghost longer = all.take(i + 1);
            proof {
                lemma_next_key_is_new(all, i as int);
                lemma_map_of_push(shorter, key, value);
                assert forall|j: int| 0 <= j < kept@.len() implies has_key(
                    longer,
                    (#[trigger] kept@[j]).0,
                ) by {
                    let k = key_index(shorter, kept@[j].0);
                    assert(longer[k].0 == kept@[j].0);
                }
            }
            if keys.contains(&key) {
                proof {
                    assert(!has_key(kept@, key)) by {
                        if has_key(kept@, key) {
                            let j = key_index(kept@, key);
                            assert(has_key(shorter, kept@[j].0));
                        }
                    }
                    lemma_map_of_push(kept@, key, value);
                    assert(longer[i as int].0 == key);
                }
                kept.push((key, value));
            }
            i = i + 1;
            assert(map_of(kept@) =~= map_of(longer).restrict(keys@));
        }
        assert(all.take(i as int) =~= all);
        self.entries = kept;
    }

    pub fn duplicate(&self) -> (map: AddressMap<V>)
        requires
            self.wf(),
        ensures
            map.wf(),
            map@ == self@,
    {
        let mut entries: Vec<(Address, V)> = Vec::new();
        let mut i: usize = 0;
        while i < self.entries.len()
            invariant
                i <= self.entries@.len(),
                entries@ == self.entries@.take(i as int),
            decreases self.entries@.len() - i,
        {
            entries.push(self.entries[i]);
            i = i + 1;
            assert(entries@ =~= self.entries@.take(i as int));
        }
        assert(entries@ =~= self.entries@);
        AddressMap { entries }
    }
}

} // verus!
