//! How transfers move balances: what a transfer takes and gives, what a
//! pending pool reserves, and when a pool can be settled.

use vstd::prelude::*;
use crate::ledger::Ledger;
use crate::ledger::amount_at;
use crate::ledger::credited;
use crate::ledger::debited;
use crate::ledger::lemma_credited_alike;
use crate::ledger::lemma_debited_alike;
use crate::ledger::same_balances;
use crate::supply::lemma_supply_credited;
use crate::supply::lemma_supply_debited;
use crate::supply::supply;
use crate::amount::hundredths;
use crate::amount::lemma_hundredths_are_within;
use crate::ledger::Balances;
use crate::transaction::transfers;
use crate::transaction::Transaction;
use crate::transaction::TransferView;

verus! {

/// Where the fees go: so many hundredths of each fee, rounded down, to the
/// liquidity address, and the rest of it to the rewards address.
pub struct FeeRule {
    pub liquidity: Seq<char>,
    pub rewards: Seq<char>,
    pub liquidity_percent: nat,
}

impl FeeRule {
    /// The part of a fee that goes to the liquidity address.
    pub open spec fn share_of(&self, fee: nat) -> nat {
        hundredths(fee, self.liquidity_percent)
    }
}

/// The rule of two addresses and a share.
pub open spec fn fee_rule(liquidity: Seq<char>, rewards: Seq<char>, liquidity_percent: u8) -> FeeRule {
    FeeRule { liquidity, rewards, liquidity_percent: liquidity_percent as nat }
}

/// The ledger after a transfer is settled: the sender pays amount and fee,
/// the receiver gets the amount, and the fee goes to the two protocol
/// addresses by the rule. `None` where the sender's balance does not cover
/// amount and fee.
pub open spec fn settled(
    ledger: Ledger,
    t: TransferView,
    rule: FeeRule,
) -> Option<Ledger> {
    if amount_at(ledger, t.sender) < t.amount + t.fee {
        None
    } else {
        let paid = debited(ledger, t.sender, t.amount + t.fee);
        let received = credited(paid, t.receiver, t.amount);
        let with_share = credited(received, rule.liquidity, rule.share_of(t.fee));
        Some(credited(with_share, rule.rewards, (t.fee - rule.share_of(t.fee)) as nat))
    }
}

/// The ledger after the transfers of a batch are settled in their order,
/// each on the ledger that the ones before it left. `None` where one of them
/// cannot be paid.
pub open spec fn settled_batch(
    ledger: Ledger,
    batch: Seq<TransferView>,
    rule: FeeRule,
) -> Option<Ledger>
    decreases batch.len(),
{
    if batch.len() == 0 {
        Some(ledger)
    } else {
        match settled_batch(ledger, batch.drop_last(), rule) {
            Some(before) => settled(before, batch.last(), rule),
            None => None,
        }
    }
}

/// Settles the transfers of a batch on the balances, in their order, and
/// says whether all could be paid. The balances are of no use where one
/// could not.
pub fn settle_batch(
    balances: &mut Balances,
    batch: &Vec<Transaction>,
    liquidity: &str,
    rewards: &str,
    liquidity_percent: u8,
) -> (paid: bool)
    ensures
        paid ==> settled_batch(old(balances).ledger(), transfers(batch@), fee_rule(liquidity@, rewards@, liquidity_percent))
            == Some(final(balances).ledger()),
        !paid ==> settled_batch(old(balances).ledger(), transfers(batch@), fee_rule(liquidity@, rewards@, liquidity_percent))
            is None,
{
    let ghost start = balances.ledger();
    let ghost all = transfers(batch@);
    let mut i: usize = 0;
    while i < batch.len()
        invariant
            i <= batch@.len(),
            all == transfers(batch@),
            start == old(balances).ledger(),
            settled_batch(start, all.take(i as int), fee_rule(liquidity@, rewards@, liquidity_percent)) == Some(
                balances.ledger(),
            ),
        decreases batch@.len() - i,
    {
        let transaction = &batch[i];
        proof {
            assert(all.take(i + 1).drop_last() == all.take(i as int));
            assert(all.take(i + 1).last() == transaction@);
        }
        let due = transaction.amount.plus(&transaction.fee);
        if !balances.debit(transaction.sender.as_str(), &due) {
            proof {
                lemma_unpaid_prefix(start, all, fee_rule(liquidity@, rewards@, liquidity_percent), i + 1);
            }
            return false;
        }
        balances.credit(transaction.receiver.as_str(), &transaction.amount);
        let share = transaction.fee.hundredths(liquidity_percent);
        balances.credit(liquidity, &share);
        match transaction.fee.checked_minus(&share) {
            Some(rest) => {
                balances.credit(rewards, &rest);
            },
            None => {},
        }
        i += 1;
    }
    assert(all.take(i as int) == all);
    true
}

/// On two ledgers with the same balances a transfer is settled alike: on
/// both or on neither, and with the same balances after it.
pub proof fn lemma_settled_alike(
    first: Ledger,
    second: Ledger,
    t: TransferView,
    rule: FeeRule,
)
    requires
        same_balances(first, second),
    ensures
        settled(first, t, rule) is Some == settled(second, t, rule)
            is Some,
        settled(first, t, rule) is Some ==> same_balances(
            settled(first, t, rule).unwrap(),
            settled(second, t, rule).unwrap(),
        ),
{
    assert(amount_at(first, t.sender) == amount_at(second, t.sender));
    if settled(first, t, rule) is Some {
        let due = t.amount + t.fee;
        lemma_debited_alike(first, second, t.sender, due);
        let paid1 = debited(first, t.sender, due);
        let paid2 = debited(second, t.sender, due);
        lemma_credited_alike(paid1, paid2, t.receiver, t.amount);
        let got1 = credited(paid1, t.receiver, t.amount);
        let got2 = credited(paid2, t.receiver, t.amount);
        lemma_credited_alike(got1, got2, rule.liquidity, rule.share_of(t.fee));
        lemma_credited_alike(
            credited(got1, rule.liquidity, rule.share_of(t.fee)),
            credited(got2, rule.liquidity, rule.share_of(t.fee)),
            rule.rewards,
            (t.fee - rule.share_of(t.fee)) as nat,
        );
    }
}

/// On two ledgers with the same balances a batch is settled alike.
pub proof fn lemma_settled_batch_alike(
    first: Ledger,
    second: Ledger,
    batch: Seq<TransferView>,
    rule: FeeRule,
)
    requires
        same_balances(first, second),
    ensures
        settled_batch(first, batch, rule) is Some == settled_batch(
            second,
            batch,
            rule,
        ) is Some,
        settled_batch(first, batch, rule) is Some ==> same_balances(
            settled_batch(first, batch, rule).unwrap(),
            settled_batch(second, batch, rule).unwrap(),
        ),
    decreases batch.len(),
{
    if batch.len() > 0 {
        lemma_settled_batch_alike(first, second, batch.drop_last(), rule);
        if settled_batch(first, batch.drop_last(), rule) is Some {
            lemma_settled_alike(
                settled_batch(first, batch.drop_last(), rule).unwrap(),
                settled_batch(second, batch.drop_last(), rule).unwrap(),
                batch.last(),
                rule,
            );
        }
    }
}

/// What the transfers of a batch take from a sender: amounts and fees.
pub open spec fn reserved(batch: Seq<TransferView>, sender: Seq<char>) -> nat
    decreases batch.len(),
{
    if batch.len() == 0 {
        0
    } else {
        reserved(batch.drop_last(), sender) + if batch.last().sender == sender {
            batch.last().amount + batch.last().fee
        } else {
            0
        }
    }
}

/// Every sender's balance covers what the batch takes from that sender.
pub open spec fn funded(ledger: Ledger, batch: Seq<TransferView>) -> bool {
    forall|sender: Seq<char>| #[trigger] reserved(batch, sender) <= amount_at(ledger, sender)
}

/// Where the first `k` transfers of a batch cannot be settled, the batch
/// cannot.
pub proof fn lemma_unpaid_prefix(
    ledger: Ledger,
    batch: Seq<TransferView>,
    rule: FeeRule,
    k: int,
)
    requires
        0 <= k <= batch.len(),
        settled_batch(ledger, batch.take(k), rule) is None,
    ensures
        settled_batch(ledger, batch, rule) is None,
    decreases batch.len(),
{
    if k == batch.len() {
        assert(batch.take(k) == batch);
    } else {
        assert(batch.drop_last().take(k) == batch.take(k));
        lemma_unpaid_prefix(ledger, batch.drop_last(), rule, k);
    }
}

/// Settling a transfer takes amount and fee from the sender, and nothing
/// from any other address.
pub proof fn lemma_settled_takes_only_from_sender(
    ledger: Ledger,
    t: TransferView,
    rule: FeeRule,
    address: Seq<char>,
)
    requires
        settled(ledger, t, rule) is Some,
    ensures
        amount_at(settled(ledger, t, rule).unwrap(), address) + (if address
            == t.sender {
            t.amount + t.fee
        } else {
            0
        }) >= amount_at(ledger, address),
{
    let paid = debited(ledger, t.sender, t.amount + t.fee);
    let received = credited(paid, t.receiver, t.amount);
    let with_share = credited(received, rule.liquidity, rule.share_of(t.fee));
    let last = credited(with_share, rule.rewards, (t.fee - rule.share_of(t.fee)) as nat);
    assert(amount_at(paid, address) + (if address == t.sender {
        t.amount + t.fee
    } else {
        0
    }) >= amount_at(ledger, address));
    assert(amount_at(received, address) >= amount_at(paid, address));
    assert(amount_at(with_share, address) >= amount_at(received, address));
    assert(amount_at(last, address) >= amount_at(with_share, address));
}

/// A batch that is funded can be settled, and settling it takes from each
/// address no more than the batch reserves there.
pub proof fn lemma_funded_batch_settles(
    ledger: Ledger,
    batch: Seq<TransferView>,
    rule: FeeRule,
)
    requires
        funded(ledger, batch),
    ensures
        settled_batch(ledger, batch, rule) is Some,
        forall|address: Seq<char>|
            amount_at(settled_batch(ledger, batch, rule).unwrap(), address)
                + #[trigger] reserved(batch, address) >= amount_at(ledger, address),
    decreases batch.len(),
{
    if batch.len() > 0 {
        let earlier = batch.drop_last();
        let t = batch.last();
        assert forall|sender: Seq<char>| #[trigger]
            reserved(earlier, sender) <= amount_at(ledger, sender) by {
            assert(reserved(batch, sender) <= amount_at(ledger, sender));
        }
        lemma_funded_batch_settles(ledger, earlier, rule);
        let before = settled_batch(ledger, earlier, rule).unwrap();
        assert(amount_at(before, t.sender) + reserved(earlier, t.sender) >= amount_at(
            ledger,
            t.sender,
        ));
        assert(reserved(batch, t.sender) <= amount_at(ledger, t.sender));
        assert(settled(before, t, rule) is Some);
        assert forall|address: Seq<char>|
            amount_at(settled_batch(ledger, batch, rule).unwrap(), address)
                + #[trigger] reserved(batch, address) >= amount_at(ledger, address) by {
            lemma_settled_takes_only_from_sender(before, t, rule, address);
            assert(amount_at(before, address) + reserved(earlier, address) >= amount_at(
                ledger,
                address,
            ));
        }
    }
}

/// A pool stays funded when it takes a transfer that the ledger admits.
pub proof fn lemma_admitted_keeps_funded(ledger: Ledger, batch: Seq<TransferView>, t: TransferView)
    requires
        funded(ledger, batch),
        amount_at(ledger, t.sender) >= reserved(batch, t.sender) + t.amount + t.fee,
    ensures
        funded(ledger, batch.push(t)),
{
    assert(batch.push(t).drop_last() == batch);
    assert forall|sender: Seq<char>| #[trigger]
        reserved(batch.push(t), sender) <= amount_at(ledger, sender) by {
        assert(reserved(batch, sender) <= amount_at(ledger, sender));
    }
}

/// Settling a transfer keeps the supply: what the sender pays is what the
/// receiver and the two protocol addresses get.
pub proof fn lemma_settled_keeps_supply(
    ledger: Ledger,
    t: TransferView,
    rule: FeeRule,
)
    requires
        ledger.dom().finite(),
        settled(ledger, t, rule) is Some,
    ensures
        supply(settled(ledger, t, rule).unwrap()) == supply(ledger),
        settled(ledger, t, rule).unwrap().dom().finite(),
{
    let paid = debited(ledger, t.sender, t.amount + t.fee);
    let received = credited(paid, t.receiver, t.amount);
    let with_share = credited(received, rule.liquidity, rule.share_of(t.fee));
    lemma_hundredths_are_within(t.fee, rule.liquidity_percent);
    lemma_supply_debited(ledger, t.sender, t.amount + t.fee);
    lemma_supply_credited(paid, t.receiver, t.amount);
    lemma_supply_credited(received, rule.liquidity, rule.share_of(t.fee));
    lemma_supply_credited(with_share, rule.rewards, (t.fee - rule.share_of(t.fee)) as nat);
}

/// Settling a batch keeps the supply.
pub proof fn lemma_settled_batch_keeps_supply(
    ledger: Ledger,
    batch: Seq<TransferView>,
    rule: FeeRule,
)
    requires
        ledger.dom().finite(),
        settled_batch(ledger, batch, rule) is Some,
    ensures
        supply(settled_batch(ledger, batch, rule).unwrap()) == supply(ledger),
        settled_batch(ledger, batch, rule).unwrap().dom().finite(),
    decreases batch.len(),
{
    if batch.len() > 0 {
        lemma_settled_batch_keeps_supply(ledger, batch.drop_last(), rule);
        lemma_settled_keeps_supply(
            settled_batch(ledger, batch.drop_last(), rule).unwrap(),
            batch.last(),
            rule,
        );
    }
}

} // verus!
