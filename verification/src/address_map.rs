//! A small map from addresses to values, kept in the order in which the
//! addresses first came.

use vstd::prelude::*;
use crate::text::same_text;

verus! {

/// No address occurs in two pairs.
pub open spec fn distinct_addresses<V>(pairs: Seq<(Seq<char>, V)>) -> bool {
    forall|i: int, j: int| 0 <= i < j < pairs.len() ==> pairs[i].0 != pairs[j].0
}

/// Whether some pair has the address.
pub open spec fn holds<V>(pairs: Seq<(Seq<char>, V)>, address: Seq<char>) -> bool {
    exists|i: int| 0 <= i < pairs.len() && (#[trigger] pairs[i]).0 == address
}

/// The position of a pair with the address.
pub open spec fn index_of<V>(pairs: Seq<(Seq<char>, V)>, address: Seq<char>) -> int {
    choose|i: int| 0 <= i < pairs.len() && (#[trigger] pairs[i]).0 == address
}

/// The value under an address.
pub open spec fn lookup_in<V>(pairs: Seq<(Seq<char>, V)>, address: Seq<char>) -> Option<V> {
    if holds(pairs, address) {
        Some(pairs[index_of(pairs, address)].1)
    } else {
        None
    }
}

/// The pairs with `value` under `address`: in place of the value that was
/// there, or at the end.
pub open spec fn put_in<V>(pairs: Seq<(Seq<char>, V)>, address: Seq<char>, value: V) -> Seq<
    (Seq<char>, V),
> {
    if holds(pairs, address) {
        pairs.update(index_of(pairs, address), (address, value))
    } else {
        pairs.push((address, value))
    }
}

/// Among distinct addresses a pair is found under its own.
pub proof fn lemma_lookup_at<V>(pairs: Seq<(Seq<char>, V)>, i: int)
    requires
        distinct_addresses(pairs),
        0 <= i < pairs.len(),
    ensures
        holds(pairs, pairs[i].0),
        index_of(pairs, pairs[i].0) == i,
        lookup_in(pairs, pairs[i].0) == Some(pairs[i].1),
{
    let j = index_of(pairs, pairs[i].0);
    assert(0 <= j < pairs.len() && pairs[j].0 == pairs[i].0);
    if j < i {
        assert(pairs[j].0 != pairs[i].0);
    } else if i < j {
        assert(pairs[i].0 != pairs[j].0);
    }
}

/// Putting a value under an address changes the lookup of that address and
/// of no other, and keeps the addresses distinct.
pub proof fn lemma_put<V>(pairs: Seq<(Seq<char>, V)>, address: Seq<char>, value: V)
    requires
        distinct_addresses(pairs),
    ensures
        distinct_addresses(put_in(pairs, address, value)),
        forall|other: Seq<char>|
            #[trigger] lookup_in(put_in(pairs, address, value), other) == if other == address {
                Some(value)
            } else {
                lookup_in(pairs, other)
            },
{
    let after = put_in(pairs, address, value);
    let at: int = if holds(pairs, address) {
        index_of(pairs, address)
    } else {
        pairs.len() as int
    };
    assert(0 <= at < after.len());
    assert(after[at] == (address, value));
    assert forall|k: int| 0 <= k < after.len() && k != at implies after[k] == pairs[k]
        && pairs[k].0 != address by {
        if holds(pairs, address) {
            lemma_lookup_at(pairs, at);
            if k < at {
                assert(pairs[k].0 != pairs[at].0);
            } else {
                assert(pairs[at].0 != pairs[k].0);
            }
        } else {
            assert(pairs[k].0 != address);
        }
    }
    assert(distinct_addresses(after));
    assert forall|other: Seq<char>|
        #[trigger] lookup_in(after, other) == if other == address {
            Some(value)
        } else {
            lookup_in(pairs, other)
        } by {
        if other == address {
            lemma_lookup_at(after, at);
        } else if holds(pairs, other) {
            let k = index_of(pairs, other);
            assert(k != at);
            assert(after[k] == pairs[k]);
            lemma_lookup_at(after, k);
        } else {
            if holds(after, other) {
                let k = index_of(after, other);
                assert(k != at);
                assert(pairs[k].0 == other);
            }
        }
    }
}

#[derive(Debug)]
struct Entry<V> {
    address: String,
    value: V,
}

/// A map from addresses to values. No address occurs twice in it.
#[derive(Debug)]
pub struct AddressMap<V> {
    entries: Vec<Entry<V>>,
}

impl<V> AddressMap<V> {
    /// The addresses with their values, in the order in which the addresses
    /// first came.
    pub closed spec fn pairs(&self) -> Seq<(Seq<char>, V)> {
        Seq::new(self.entries@.len(), |i: int| (self.entries@[i].address@, self.entries@[i].value))
    }

    /// The value under an address.
    pub open spec fn lookup(&self, address: Seq<char>) -> Option<V> {
        lookup_in(self.pairs(), address)
    }

    #[verifier::type_invariant]
    spec fn distinct(&self) -> bool {
        distinct_addresses(self.pairs())
    }

    /// The map without entries.
    pub fn new() -> (map: Self)
        ensures
            map.pairs() == Seq::<(Seq<char>, V)>::empty(),
    {
        AddressMap { entries: Vec::new() }
    }

    /// The number of entries.
    pub fn len(&self) -> (n: usize)
        ensures
            n == self.pairs().len(),
            distinct_addresses(self.pairs()),
    {
        proof {
            use_type_invariant(self);
        }
        self.entries.len()
    }

    /// The address of the `i`-th entry.
    pub fn address_at(&self, i: usize) -> (address: &String)
        requires
            i < self.pairs().len(),
        ensures
            address@ == self.pairs()[i as int].0,
    {
        &self.entries[i].address
    }

    /// The value of the `i`-th entry.
    pub fn value_at(&self, i: usize) -> (value: &V)
        requires
            i < self.pairs().len(),
        ensures
            *value == self.pairs()[i as int].1,
    {
        &self.entries[i].value
    }

    /// The position of the entry with the given address.
    pub fn position(&self, address: &str) -> (found: Option<usize>)
        ensures
            distinct_addresses(self.pairs()),
            match found {
                Some(i) => {
                    &&& i < self.pairs().len()
                    &&& holds(self.pairs(), address@)
                    &&& index_of(self.pairs(), address@) == i
                },
                None => !holds(self.pairs(), address@),
            },
    {
        proof {
            use_type_invariant(self);
        }
        let mut i: usize = 0;
        while i < self.entries.len()
            invariant
                i <= self.entries@.len(),
                distinct_addresses(self.pairs()),
                forall|j: int| 0 <= j < i ==> (#[trigger] self.pairs()[j]).0 != address@,
            decreases self.entries@.len() - i,
        {
            if same_text(self.entries[i].address.as_str(), address) {
                proof {
                    assert(self.pairs()[i as int].0 == address@);
                    lemma_lookup_at(self.pairs(), i as int);
                }
                return Some(i);
            }
            i += 1;
        }
        None
    }

    /// The value under an address.
    pub fn get(&self, address: &str) -> (value: Option<&V>)
        ensures
            match value {
                Some(v) => self.lookup(address@) == Some(*v),
                None => self.lookup(address@) is None,
            },
    {
        match self.position(address) {
            Some(i) => Some(&self.entries[i].value),
            None => None,
        }
    }

    /// Puts `value` under `address`, in place of the value that was there.
    pub fn insert(&mut self, address: String, value: V)
        ensures
            final(self).pairs() == put_in(old(self).pairs(), address@, value),
            forall|other: Seq<char>|
                #[trigger] lookup_in(final(self).pairs(), other) == if other == address@ {
                    Some(value)
                } else {
                    lookup_in(old(self).pairs(), other)
                },
    {
        proof {
            use_type_invariant(&*self);
            lemma_put(self.pairs(), address@, value);
        }
        let found = self.position(address.as_str());
        let mut entries: Vec<Entry<V>> = Vec::new();
        core::mem::swap(&mut self.entries, &mut entries);
        match found {
            Some(i) => {
                entries.set(i, Entry { address, value });
            },
            None => {
                entries.push(Entry { address, value });
            },
        }
        proof {
            let after = Seq::new(entries@.len(), |i: int| (entries@[i].address@, entries@[i].value));
            assert(after == put_in(old(self).pairs(), address@, value));
        }
        self.entries = entries;
    }

    /// Takes every entry out of the map.
    pub fn clear(&mut self)
        ensures
            final(self).pairs() == Seq::<(Seq<char>, V)>::empty(),
    {
        self.entries = Vec::new();
    }
}

} // verus!
