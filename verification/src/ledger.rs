//! The balance ledger: a balance for every address, zero where none is
//! recorded.

use vstd::prelude::*;
use crate::address_map::distinct_addresses;
use crate::address_map::holds;
use crate::address_map::index_of;
use crate::address_map::lemma_put;
use crate::address_map::put_in;
use crate::address_map::lemma_lookup_at;
use crate::address_map::lookup_in;
use crate::address_map::AddressMap;
use crate::amount::Amount;
use crate::supply::lemma_supply_insert;
use crate::supply::supply;

verus! {

/// The recorded balances, in smallest units.
pub type Ledger = Map<Seq<char>, nat>;

/// The balance of an address: zero where none is recorded.
pub open spec fn amount_at(ledger: Ledger, address: Seq<char>) -> nat {
    if ledger.contains_key(address) {
        ledger[address]
    } else {
        0
    }
}

/// The ledger after `amount` came to `address`.
pub open spec fn credited(ledger: Ledger, address: Seq<char>, amount: nat) -> Ledger {
    ledger.insert(address, amount_at(ledger, address) + amount)
}

/// The ledger after `amount` left `address`, which holds that much.
pub open spec fn debited(ledger: Ledger, address: Seq<char>, amount: nat) -> Ledger {
    ledger.insert(address, (amount_at(ledger, address) - amount) as nat)
}

/// Whether two ledgers give every address the same balance.
pub open spec fn same_balances(first: Ledger, second: Ledger) -> bool {
    forall|address: Seq<char>| amount_at(first, address) == amount_at(second, address)
}

/// The same credit keeps two ledgers the same in their balances.
pub proof fn lemma_credited_alike(first: Ledger, second: Ledger, address: Seq<char>, amount: nat)
    requires
        same_balances(first, second),
    ensures
        same_balances(credited(first, address, amount), credited(second, address, amount)),
{
    assert forall|other: Seq<char>|
        amount_at(credited(first, address, amount), other) == amount_at(
            credited(second, address, amount),
            other,
        ) by {
        assert(amount_at(first, other) == amount_at(second, other));
        assert(amount_at(first, address) == amount_at(second, address));
    }
}

/// The same debit keeps two ledgers the same in their balances.
pub proof fn lemma_debited_alike(first: Ledger, second: Ledger, address: Seq<char>, amount: nat)
    requires
        same_balances(first, second),
    ensures
        same_balances(debited(first, address, amount), debited(second, address, amount)),
{
    assert forall|other: Seq<char>|
        amount_at(debited(first, address, amount), other) == amount_at(
            debited(second, address, amount),
            other,
        ) by {
        assert(amount_at(first, other) == amount_at(second, other));
        assert(amount_at(first, address) == amount_at(second, address));
    }
}

/// The ledger that pairs of addresses and amounts stand for.
pub open spec fn ledger_of(pairs: Seq<(Seq<char>, Amount)>) -> Ledger {
    Map::new(
        |address: Seq<char>| holds(pairs, address),
        |address: Seq<char>| lookup_in(pairs, address).unwrap()@,
    )
}

/// Where one address got a new amount, the ledger has that amount there and
/// is otherwise as before.
proof fn lemma_ledger_put(
    before: Seq<(Seq<char>, Amount)>,
    after: Seq<(Seq<char>, Amount)>,
    address: Seq<char>,
    value: Amount,
)
    requires
        forall|other: Seq<char>|
            #[trigger] lookup_in(after, other) == if other == address {
                Some(value)
            } else {
                lookup_in(before, other)
            },
    ensures
        ledger_of(after) == ledger_of(before).insert(address, value@),
{
    let expected = ledger_of(before).insert(address, value@);
    assert forall|k: Seq<char>| ledger_of(after).contains_key(k) == expected.contains_key(k) by {
        let a = lookup_in(after, k);
        let b = lookup_in(before, k);
    }
    assert forall|k: Seq<char>| ledger_of(after).contains_key(k) implies ledger_of(after)[k]
        == expected[k] by {
        let a = lookup_in(after, k);
        let b = lookup_in(before, k);
    }
    assert(ledger_of(after) =~= expected);
}

/// The ledger of finitely many pairs records finitely many addresses.
pub proof fn lemma_ledger_is_finite(pairs: Seq<(Seq<char>, Amount)>)
    ensures
        ledger_of(pairs).dom().finite(),
{
    let addresses = Seq::new(pairs.len(), |i: int| pairs[i].0);
    vstd::seq_lib::seq_to_set_is_finite(addresses);
    assert forall|address: Seq<char>|
        ledger_of(pairs).dom().contains(address) == addresses.to_set().contains(address) by {
        if holds(pairs, address) {
            let i = index_of(pairs, address);
            assert(addresses[i] == address);
        }
        if addresses.contains(address) {
            let i = choose|i: int| 0 <= i < addresses.len() && addresses[i] == address;
            assert(pairs[i].0 == address);
        }
    }
    assert(ledger_of(pairs).dom() =~= addresses.to_set());
}

pub type Balances = AddressMap<Amount>;

impl AddressMap<Amount> {
    /// The ledger that the map stands for.
    pub open spec fn ledger(&self) -> Ledger {
        ledger_of(self.pairs())
    }

    /// The balance of an address.
    pub fn balance(&self, address: &str) -> (balance: Amount)
        ensures
            balance@ == amount_at(self.ledger(), address@),
    {
        match self.get(address) {
            Some(amount) => amount.clone(),
            None => Amount::zero(),
        }
    }

    /// Adds `amount` to the balance of `address`.
    pub fn credit(&mut self, address: &str, amount: &Amount)
        ensures
            final(self).ledger() == credited(old(self).ledger(), address@, amount@),
    {
        let sum = self.balance(address).plus(amount);
        self.insert(address.to_owned(), sum);
        proof {
            lemma_ledger_put(old(self).pairs(), self.pairs(), address@, sum);
        }
    }

    /// Takes `amount` from the balance of `address`, if it holds that much.
    pub fn debit(&mut self, address: &str, amount: &Amount) -> (paid: bool)
        ensures
            paid == (amount_at(old(self).ledger(), address@) >= amount@),
            paid ==> final(self).ledger() == debited(old(self).ledger(), address@, amount@),
            !paid ==> final(self).ledger() == old(self).ledger(),
    {
        match self.balance(address).checked_minus(amount) {
            Some(rest) => {
                self.insert(address.to_owned(), rest);
                proof {
                    lemma_ledger_put(old(self).pairs(), self.pairs(), address@, rest);
                }
                true
            },
            None => false,
        }
    }

    /// A ledger of a map records finitely many addresses.
    pub proof fn lemma_ledger_finite(&self)
        ensures
            self.ledger().dom().finite(),
    {
        lemma_ledger_is_finite(self.pairs());
    }

    /// The sum of all balances.
    pub fn total_supply(&self) -> (total: Amount)
        ensures
            total@ == supply(self.ledger()),
    {
        let n = self.len();
        let mut total = Amount::zero();
        let mut i: usize = 0;
        proof {
            assert(ledger_of(self.pairs().take(0)) =~= Map::<Seq<char>, nat>::empty());
            vstd::set::fold::lemma_fold_empty::<Seq<char>, nat>(
                0nat,
                crate::supply::adding(Map::<Seq<char>, nat>::empty()),
            );
            assert(Map::<Seq<char>, nat>::empty().dom() =~= Set::<Seq<char>>::empty());
        }
        while i < n
            invariant
                i <= n,
                n == self.pairs().len(),
                distinct_addresses(self.pairs()),
                total@ == supply(ledger_of(self.pairs().take(i as int))),
            decreases n - i,
        {
            proof {
                let before = self.pairs().take(i as int);
                let after = self.pairs().take(i + 1);
                let pair = self.pairs()[i as int];
                assert(!holds(before, pair.0)) by {
                    if holds(before, pair.0) {
                        let j = index_of(before, pair.0);
                        assert(self.pairs()[j].0 != self.pairs()[i as int].0);
                    }
                }
                assert(after =~= put_in(before, pair.0, pair.1));
                assert(distinct_addresses(before));
                lemma_put(before, pair.0, pair.1);
                lemma_ledger_put(before, after, pair.0, pair.1);
                lemma_ledger_is_finite(before);
                lemma_supply_insert(ledger_of(before), pair.0, pair.1@);
            }
            total = total.plus(self.value_at(i));
            i += 1;
        }
        assert(self.pairs().take(i as int) == self.pairs());
        total
    }

    /// Whether every balance recorded here is the balance of that address in
    /// `other`.
    fn within(&self, other: &Balances) -> (ok: bool)
        ensures
            ok == forall|address: Seq<char>|
                self.ledger().contains_key(address) ==> amount_at(self.ledger(), address)
                    == amount_at(other.ledger(), address),
    {
        let n = self.len();
        let mut i: usize = 0;
        while i < n
            invariant
                i <= n,
                n == self.pairs().len(),
                distinct_addresses(self.pairs()),
                forall|j: int|
                    0 <= j < i ==> amount_at(other.ledger(), (#[trigger] self.pairs()[j]).0)
                        == self.pairs()[j].1@,
            decreases n - i,
        {
            let theirs = other.balance(self.address_at(i).as_str());
            if !theirs.equals(self.value_at(i)) {
                proof {
                    let address = self.pairs()[i as int].0;
                    lemma_lookup_at(self.pairs(), i as int);
                    assert(self.ledger().contains_key(address));
                    assert(amount_at(self.ledger(), address) != amount_at(other.ledger(), address));
                }
                return false;
            }
            i += 1;
        }
        proof {
            assert forall|address: Seq<char>| self.ledger().contains_key(address) implies amount_at(
                self.ledger(),
                address,
            ) == amount_at(other.ledger(), address) by {
                let j = index_of(self.pairs(), address);
                lemma_lookup_at(self.pairs(), j);
            }
        }
        true
    }

    /// Whether the two give every address the same balance.
    pub fn same_as(&self, other: &Balances) -> (same: bool)
        ensures
            same == same_balances(self.ledger(), other.ledger()),
    {
        let forth = self.within(other);
        let back = other.within(self);
        proof {
            if forth && back {
                assert forall|address: Seq<char>|
                    amount_at(self.ledger(), address) == amount_at(other.ledger(), address) by {}
            }
        }
        forth && back
    }

    /// A copy with the same balances.
    pub fn duplicate(&self) -> (copy: Balances)
        ensures
            copy.ledger() == self.ledger(),
    {
        let mut copy: Balances = AddressMap::new();
        let n = self.len();
        let mut i: usize = 0;
        while i < n
            invariant
                i <= n,
                n == self.pairs().len(),
                distinct_addresses(self.pairs()),
                copy.pairs().len() == i,
                forall|j: int|
                    0 <= j < i ==> (#[trigger] copy.pairs()[j]).0 == self.pairs()[j].0
                        && copy.pairs()[j].1@ == self.pairs()[j].1@,
            decreases n - i,
        {
            let address = self.address_at(i).clone();
            let amount = self.value_at(i).clone();
            proof {
                if holds(copy.pairs(), address@) {
                    let j = index_of(copy.pairs(), address@);
                    assert(copy.pairs()[j].0 == self.pairs()[j].0);
                    assert(self.pairs()[j].0 != self.pairs()[i as int].0);
                }
            }
            copy.insert(address, amount);
            i += 1;
        }
        let m = copy.len();
        proof {
            let ours = self.pairs();
            let theirs = copy.pairs();
            assert forall|address: Seq<char>| holds(ours, address) implies holds(theirs, address)
                && lookup_in(theirs, address).unwrap()@ == lookup_in(ours, address).unwrap()@
            by {
                let j = index_of(ours, address);
                assert(theirs[j].0 == address);
                lemma_lookup_at(ours, j);
                lemma_lookup_at(theirs, j);
            }
            assert forall|address: Seq<char>| holds(theirs, address) implies holds(ours, address) by {
                let j = index_of(theirs, address);
                assert(theirs[j].0 == ours[j].0);
            }
            assert(copy.ledger() =~= self.ledger());
        }
        copy
    }
}

} // verus!
