use crate::domain::primitives::Address;
use vstd::prelude::*;

verus! {

/// A set of addresses. The order of its elements carries no meaning.
#[derive(Debug)]
pub struct AddressSet {
    items: Vec<Address>,
}

impl View for AddressSet {
    type V = Set<Address>;

    closed spec fn view(&self) -> Set<Address> {
        self.items@.to_set()
    }
}

impl AddressSet {
    /// No address is held twice.
    pub closed spec fn wf(&self) -> bool {
        self.items@.no_duplicates()
    }

    pub fn new() -> (set: AddressSet)
        ensures
            set.wf(),
            set@ == Set::<Address>::empty(),
    {
        let set = AddressSet { items: Vec::new() };
        assert(set@ =~= Set::<Address>::empty());
        set
    }

    pub fn len(&self) -> (n: usize)
        requires
            self.wf(),
        ensures
            n == self@.len(),
            self@.finite(),
    {
        proof {
            self.items@.unique_seq_to_set();
            vstd::seq_lib::seq_to_set_is_finite(self.items@);
        }
        self.items.len()
    }

    pub fn is_empty(&self) -> (r: bool)
        ensures
            r == (self@ == Set::<Address>::empty()),
    {
        if self.items.len() == 0 {
            assert(self@ =~= Set::<Address>::empty());
            true
        } else {
            assert(self@.contains(self.items@[0]));
            false
        }
    }

    pub fn contains(&self, address: &Address) -> (r: bool)
        ensures
            r == self@.contains(*address),
    {
        let mut i: usize = 0;
        while i < self.items.len()
            invariant
                i <= self.items@.len(),
                forall|j: int| 0 <= j < i ==> #[trigger] self.items@[j] != *address,
            decreases self.items@.len() - i,
        {
            if self.items[i] == *address {
                assert(self.items@.contains(*address));
                return true;
            }
            i = i + 1;
        }
        false
    }

    /// Adds `address`; says whether it was new.
    pub fn insert(&mut self, address: Address) -> (added: bool)
        requires
            old(self).wf(),
        ensures
            final(self).wf(),
            final(self)@ == old(self)@.insert(address),
            added == !old(self)@.contains(address),
    {
        if self.contains(&address) {
            assert(self@ =~= old(self)@.insert(address));
            return false;
        }
        let ghost before = self.items@;
        self.items.push(address);
        proof {
            assert forall|a: Address| #[trigger] self@.contains(a) == before.to_set().insert(
                address,
            ).contains(a) by {
                if before.contains(a) {
                    let k = choose|k: int| 0 <= k < before.len() && before[k] == a;
                    assert(self.items@[k] == a);
                }
                if a == address {
                    assert(self.items@[before.len() as int] == a);
                }
                if self.items@.contains(a) && a != address {
                    let k = choose|k: int| 0 <= k < self.items@.len() && self.items@[k] == a;
                    assert(before[k] == a);
                }
            }
            assert(self@ =~= old(self)@.insert(address));
        }
        true
    }

    /// Adds every address of `list`.
    pub fn extend(&mut self, list: &Vec<Address>)
        requires
            old(self).wf(),
        ensures
            final(self).wf(),
            final(self)@ == old(self)@.union(list@.to_set()),
    {
        let mut i: usize = 0;
        assert(self@ =~= old(self)@.union(list@.take(0).to_set()));
        while i < list.len()
            invariant
                i <= list@.len(),
                self.wf(),
                self@ == old(self)@.union(list@.take(i as int).to_set()),
            decreases list@.len() - i,
        {
            let ghost before = self@;
            let ghost shorter = list@.take(i as int);
            let ghost longer = list@.take(i + 1);
            let _ = self.insert(list[i]);
            proof {
                assert(longer =~= shorter.push(list@[i as int]));
                lemma_push_to_set(shorter, list@[i as int]);
                assert(self@ =~= old(self)@.union(longer.to_set()));
            }
            i = i + 1;
        }
        assert(list@.take(i as int) =~= list@);
    }

    /// Adds every address of `other`.
    pub fn union_with(&mut self, other: &AddressSet)
        requires
            old(self).wf(),
        ensures
            final(self).wf(),
            final(self)@ == old(self)@.union(other@),
    {
        self.extend(&other.items)
    }

    /// The set of the addresses in `list`.
    pub fn from_list(list: &Vec<Address>) -> (set: AddressSet)
        ensures
            set.wf(),
            set@ == list@.to_set(),
    {
        let mut set = AddressSet::new();
        set.extend(list);
        assert(set@ =~= list@.to_set());
        set
    }

    /// The addresses other than `address`.
    pub fn without(self, address: Address) -> (set: AddressSet)
        requires
            self.wf(),
        ensures
            set.wf(),
            set@ == self@.remove(address),
    {
        let mut kept = AddressSet::new();
        let mut i: usize = 0;
        assert(self.items@.take(0).to_set().remove(address) =~= kept@);
        while i < self.items.len()
            invariant
                i <= self.items@.len(),
                kept.wf(),
                kept@ == self.items@.take(i as int).to_set().remove(address),
            decreases self.items@.len() - i,
        {
            let item = self.items[i];
            let ghost shorter = self.items@.take(i as int);
            proof {
                assert(self.items@.take(i + 1) =~= shorter.push(item));
                lemma_push_to_set(shorter, item);
            }
            if item != address {
                let _ = kept.insert(item);
            }
            i = i + 1;
            assert(kept@ =~= self.items@.take(i as int).to_set().remove(address));
        }
        assert(self.items@.take(i as int) =~= self.items@);
        kept
    }

    /// Whether both sets hold the same addresses.
    pub fn same_as(&self, other: &AddressSet) -> (r: bool)
        requires
            self.wf(),
            other.wf(),
        ensures
            r == (self@ == other@),
    {
        proof {
            self.items@.unique_seq_to_set();
            other.items@.unique_seq_to_set();
        }
        if self.items.len() != other.items.len() {
            return false;
        }
        let mut i: usize = 0;
        while i < self.items.len()
            invariant
                i <= self.items@.len(),
                forall|j: int| 0 <= j < i ==> other@.contains(#[trigger] self.items@[j]),
            decreases self.items@.len() - i,
        {
            if !other.contains(&self.items[i]) {
                assert(self@.contains(self.items@[i as int]));
                return false;
            }
            i = i + 1;
        }
        proof {
            vstd::seq_lib::seq_to_set_is_finite(self.items@);
            vstd::seq_lib::seq_to_set_is_finite(other.items@);
            assert(self@.subset_of(other@));
            vstd::set_lib::lemma_len_subset(self@, other@);
            vstd::set_lib::lemma_subset_equality(self@, other@);
        }
        true
    }

    /// The addresses, each once.
    pub fn to_list(&self) -> (list: Vec<Address>)
        requires
            self.wf(),
        ensures
            list@.no_duplicates(),
            list@.to_set() == self@,
    {
        let mut list: Vec<Address> = Vec::new();
        let mut i: usize = 0;
        while i < self.items.len()
            invariant
                i <= self.items@.len(),
                list@ == self.items@.take(i as int),
            decreases self.items@.len() - i,
        {
            list.push(self.items[i]);
            i = i + 1;
            assert(list@ =~= self.items@.take(i as int));
        }
        assert(list@ =~= self.items@);
        list
    }

    pub fn duplicate(&self) -> (set: AddressSet)
        requires
            self.wf(),
        ensures
            set.wf(),
            set@ == self@,
    {
        AddressSet { items: self.to_list() }
    }
}

pub(crate) proof fn lemma_push_to_set<A>(s: Seq<A>, a: A)
    ensures
        s.push(a).to_set() == s.to_set().insert(a),
{
    let longer = s.push(a);
    assert forall|x: A| longer.to_set().contains(x) == s.to_set().insert(a).contains(x) by {
        if s.contains(x) {
            let k = choose|k: int| 0 <= k < s.len() && s[k] == x;
            assert(longer[k] == x);
        }
        if x == a {
            assert(longer[s.len() as int] == x);
        }
        if longer.contains(x) && x != a {
            let k = choose|k: int| 0 <= k < longer.len() && longer[k] == x;
            assert(s[k] == x);
        }
    }
    assert(longer.to_set() =~= s.to_set().insert(a));
}

} // verus!
