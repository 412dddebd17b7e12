//! The supply of a ledger: the sum of its balances. Transfers keep it, and a
//! reward adds no more than the reward.

use vstd::prelude::*;
use vstd::set::fold::is_fun_commutative;
use vstd::set::fold::lemma_fold_empty;
use vstd::set::fold::lemma_fold_insert;
use crate::ledger::amount_at;
use crate::ledger::credited;
use crate::ledger::debited;
use crate::ledger::Ledger;

verus! {

/// Adds the balance of an address to a sum.
pub open spec fn adding(ledger: Ledger) -> spec_fn(nat, Seq<char>) -> nat {
    |sum: nat, address: Seq<char>| sum + ledger[address]
}

/// The sum of the balances of a ledger.
pub open spec fn supply(ledger: Ledger) -> nat {
    ledger.dom().fold(0nat, adding(ledger))
}

proof fn lemma_adding_commutes(ledger: Ledger)
    ensures
        is_fun_commutative(adding(ledger)),
{
    let f = adding(ledger);
    assert forall|a1: Seq<char>, a2: Seq<char>, b: nat| #[trigger]
        f(f(b, a2), a1) == f(f(b, a1), a2) by {}
}

/// Two ledgers that agree on a set of addresses have the same sum there.
proof fn lemma_sums_agree(addresses: Set<Seq<char>>, first: Ledger, second: Ledger)
    requires
        addresses.finite(),
        forall|a: Seq<char>| addresses.contains(a) ==> first[a] == second[a],
    ensures
        addresses.fold(0nat, adding(first)) == addresses.fold(0nat, adding(second)),
    decreases addresses.len(),
{
    lemma_adding_commutes(first);
    lemma_adding_commutes(second);
    if addresses.len() == 0 {
        addresses.lemma_len0_is_empty();
        assert(addresses =~= Set::<Seq<char>>::empty());
        lemma_fold_empty::<Seq<char>, nat>(0nat, adding(first));
        lemma_fold_empty::<Seq<char>, nat>(0nat, adding(second));
    } else {
        let a = addresses.choose();
        let rest = addresses.remove(a);
        lemma_sums_agree(rest, first, second);
        assert(rest.insert(a) =~= addresses);
        lemma_fold_insert(rest, 0nat, adding(first), a);
        lemma_fold_insert(rest, 0nat, adding(second), a);
    }
}

/// A new balance at one address changes the supply by the difference.
pub proof fn lemma_supply_insert(ledger: Ledger, address: Seq<char>, balance: nat)
    requires
        ledger.dom().finite(),
    ensures
        supply(ledger.insert(address, balance)) + amount_at(ledger, address) == supply(ledger)
            + balance,
        ledger.insert(address, balance).dom().finite(),
{
    let after = ledger.insert(address, balance);
    let rest = ledger.dom().remove(address);
    lemma_adding_commutes(ledger);
    lemma_adding_commutes(after);
    lemma_sums_agree(rest, ledger, after);
    assert(after.dom() =~= rest.insert(address));
    lemma_fold_insert(rest, 0nat, adding(after), address);
    if ledger.dom().contains(address) {
        assert(ledger.dom() =~= rest.insert(address));
        lemma_fold_insert(rest, 0nat, adding(ledger), address);
    } else {
        assert(ledger.dom() =~= rest);
    }
}

/// A credit raises the supply by its amount.
pub proof fn lemma_supply_credited(ledger: Ledger, address: Seq<char>, amount: nat)
    requires
        ledger.dom().finite(),
    ensures
        supply(credited(ledger, address, amount)) == supply(ledger) + amount,
        credited(ledger, address, amount).dom().finite(),
{
    lemma_supply_insert(ledger, address, amount_at(ledger, address) + amount);
}

/// A debit that the balance covers lowers the supply by its amount.
pub proof fn lemma_supply_debited(ledger: Ledger, address: Seq<char>, amount: nat)
    requires
        ledger.dom().finite(),
        amount <= amount_at(ledger, address),
    ensures
        supply(debited(ledger, address, amount)) + amount == supply(ledger),
        debited(ledger, address, amount).dom().finite(),
{
    lemma_supply_insert(ledger, address, (amount_at(ledger, address) - amount) as nat);
}

} // verus!
