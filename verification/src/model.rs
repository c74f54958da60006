use vstd::prelude::*;

use crate::rewards::{RewardView, RewardsView};

verus! {

/// One account's slot in the ledger, as mathematics: the account identifier
/// and its entry.
#[verifier::ext_equal]
pub ghost struct AccountView {
    pub account_id: Seq<char>,
    pub rewards: RewardsView,
}

/// The whole contract state, as mathematics. Contracts of the executable
/// functions are stated over this view and over the three transition
/// functions [`deposit`], [`credit`] and [`settle`] below.
#[verifier::ext_equal]
pub ghost struct ContractView {
    pub owner: Seq<char>,
    pub token: Seq<char>,
    pub records: Seq<AccountView>,
    pub deposited_amount: nat,
}

/// The entry of `account`, if one was ever created (first match; under
/// [`distinct_keys`] there is at most one).
pub open spec fn lookup(records: Seq<AccountView>, account: Seq<char>) -> Option<RewardsView>
    decreases records.len(),
{
    if records.len() == 0 {
        None
    } else if records[0].account_id == account {
        Some(records[0].rewards)
    } else {
        lookup(records.drop_first(), account)
    }
}

/// The claimable balance of `account`; an account that was never credited has
/// zero reward.
pub open spec fn balance_in(records: Seq<AccountView>, account: Seq<char>) -> nat {
    match lookup(records, account) {
        Some(rw) => rw.amount,
        None => 0,
    }
}

/// The reward history of `account`, oldest first; empty for an account that
/// was never credited.
pub open spec fn history_in(records: Seq<AccountView>, account: Seq<char>) -> Seq<RewardView> {
    match lookup(records, account) {
        Some(rw) => rw.events,
        None => Seq::empty(),
    }
}

pub open spec fn balance_of(v: ContractView, account: Seq<char>) -> nat {
    balance_in(v.records, account)
}

pub open spec fn history_of(v: ContractView, account: Seq<char>) -> Seq<RewardView> {
    history_in(v.records, account)
}

/// Total amount ever credited in a history.
pub open spec fn sum_amounts(events: Seq<RewardView>) -> nat
    decreases events.len(),
{
    if events.len() == 0 {
        0
    } else {
        events[0].amount + sum_amounts(events.drop_first())
    }
}

/// Total of all claimable balances across the ledger.
pub open spec fn sum_balances(records: Seq<AccountView>) -> nat
    decreases records.len(),
{
    if records.len() == 0 {
        0
    } else {
        records[0].rewards.amount + sum_balances(records.drop_first())
    }
}

/// No account identifier owns two slots.
pub open spec fn distinct_keys(records: Seq<AccountView>) -> bool
    decreases records.len(),
{
    if records.len() == 0 {
        true
    } else {
        lookup(records.drop_first(), records[0].account_id) is None
            && distinct_keys(records.drop_first())
    }
}

/// Every denormalized balance is derivable from its history: it never exceeds
/// the total ever credited to the account (the difference is what was claimed).
pub open spec fn balances_derivable(records: Seq<AccountView>) -> bool
    decreases records.len(),
{
    if records.len() == 0 {
        true
    } else {
        records[0].rewards.amount <= sum_amounts(records[0].rewards.events)
            && balances_derivable(records.drop_first())
    }
}

pub open spec fn records_wf(records: Seq<AccountView>) -> bool {
    distinct_keys(records) && balances_derivable(records)
}

pub open spec fn empty_rewards() -> RewardsView {
    RewardsView { events: Seq::empty(), amount: 0 }
}

pub open spec fn credited_rewards(rw: RewardsView, ev: RewardView) -> RewardsView {
    RewardsView { events: rw.events.push(ev), amount: rw.amount + ev.amount }
}

pub open spec fn settled_rewards(rw: RewardsView, amount: nat) -> RewardsView {
    RewardsView { events: rw.events, amount: (rw.amount - amount) as nat }
}

/// The ledger after crediting `ev` to `account`: the account's slot is updated
/// in place, or appended when the account was never credited before.
pub open spec fn credit_records(records: Seq<AccountView>, account: Seq<char>, ev: RewardView) -> Seq<AccountView>
    decreases records.len(),
{
    if records.len() == 0 {
        seq![AccountView { account_id: account, rewards: credited_rewards(empty_rewards(), ev) }]
    } else if records[0].account_id == account {
        seq![AccountView { account_id: account, rewards: credited_rewards(records[0].rewards, ev) }]
            + records.drop_first()
    } else {
        seq![records[0]] + credit_records(records.drop_first(), account, ev)
    }
}

/// The ledger after debiting `amount` from `account`'s balance. An unknown
/// account is left untouched (a settlement against it is only allowed for
/// amount zero).
pub open spec fn settle_records(records: Seq<AccountView>, account: Seq<char>, amount: nat) -> Seq<AccountView>
    decreases records.len(),
{
    if records.len() == 0 {
        records
    } else if records[0].account_id == account {
        seq![AccountView { account_id: account, rewards: settled_rewards(records[0].rewards, amount) }]
            + records.drop_first()
    } else {
        seq![records[0]] + settle_records(records.drop_first(), account, amount)
    }
}

/// Effect of a validated inbound deposit notification: the escrow counter
/// grows and nothing else moves.
pub open spec fn deposit(v: ContractView, amount: nat) -> ContractView {
    ContractView { deposited_amount: v.deposited_amount + amount, ..v }
}

/// Effect of a successful owner credit: `amount` moves from the escrow counter
/// to the account's balance, and one event is appended to its history.
pub open spec fn credit(v: ContractView, account: Seq<char>, amount: nat, memo: Seq<char>) -> ContractView {
    ContractView {
        records: credit_records(v.records, account, RewardView { account_id: account, amount, memo }),
        deposited_amount: (v.deposited_amount - amount) as nat,
        ..v
    }
}

/// Effect of a successful claim settlement: the account's balance is debited;
/// its history and the escrow counter stay as they are.
pub open spec fn settle(v: ContractView, account: Seq<char>, amount: nat) -> ContractView {
    ContractView { records: settle_records(v.records, account, amount), ..v }
}

/// A settlement is valid exactly when the claimed amount fits the account's
/// balance as it stands at settlement time.
pub open spec fn can_settle(v: ContractView, account: Seq<char>, amount: nat) -> bool {
    amount <= balance_of(v, account)
}

/// A page of a history as the query surface returns it: up to `limit` events
/// starting at chronological position `from_index`, newest first. Positions
/// beyond the history yield an empty page, never an error.
pub open spec fn page(events: Seq<RewardView>, from_index: nat, limit: nat) -> Seq<RewardView> {
    if from_index >= events.len() {
        Seq::empty()
    } else {
        let end: nat = if from_index + limit <= events.len() {
            from_index + limit
        } else {
            events.len()
        };
        events.subrange(from_index as int, end as int).reverse()
    }
}

// Bridge lemmas: they connect the recursive transition functions above with
// the position-based updates the executable code performs.

/// If no slot before `i` carries `records[i]`'s key, the lookup of that key
/// finds slot `i`.
pub proof fn lemma_lookup_at_index(records: Seq<AccountView>, i: int)
    requires
        0 <= i < records.len(),
        forall|k: int| 0 <= k < i ==> (#[trigger] records[k]).account_id != records[i].account_id,
    ensures
        lookup(records, records[i].account_id) == Some(records[i].rewards),
    decreases i,
{
    if i == 0 {
    } else {
        assert(records[0].account_id != records[i].account_id);
        let rest = records.drop_first();
        assert(rest[i - 1] == records[i]);
        assert forall|k: int| 0 <= k < i - 1 implies (#[trigger] rest[k]).account_id != rest[i - 1].account_id by {
            assert(rest[k] == records[k + 1]);
        }
        lemma_lookup_at_index(rest, i - 1);
    }
}

/// If no slot carries `account`, the lookup finds nothing.
pub proof fn lemma_lookup_no_match(records: Seq<AccountView>, account: Seq<char>)
    requires
        forall|k: int| 0 <= k < records.len() ==> (#[trigger] records[k]).account_id != account,
    ensures
        lookup(records, account) is None,
    decreases records.len(),
{
    if records.len() == 0 {
    } else {
        let rest = records.drop_first();
        assert forall|k: int| 0 <= k < rest.len() implies (#[trigger] rest[k]).account_id != account by {
            assert(rest[k] == records[k + 1]);
        }
        lemma_lookup_no_match(rest, account);
    }
}

/// Crediting a key that sits (first) at slot `i` updates exactly that slot.
pub proof fn lemma_credit_at_index(records: Seq<AccountView>, i: int, ev: RewardView)
    requires
        0 <= i < records.len(),
        forall|k: int| 0 <= k < i ==> (#[trigger] records[k]).account_id != records[i].account_id,
    ensures
        credit_records(records, records[i].account_id, ev) == records.update(
            i,
            AccountView {
                account_id: records[i].account_id,
                rewards: credited_rewards(records[i].rewards, ev),
            },
        ),
    decreases i,
{
    let account = records[i].account_id;
    let entry = AccountView { account_id: account, rewards: credited_rewards(records[i].rewards, ev) };
    if i == 0 {
        assert(credit_records(records, account, ev) =~= records.update(0, entry));
    } else {
        assert(records[0].account_id != account);
        let rest = records.drop_first();
        assert(rest[i - 1] == records[i]);
        assert forall|k: int| 0 <= k < i - 1 implies (#[trigger] rest[k]).account_id != rest[i - 1].account_id by {
            assert(rest[k] == records[k + 1]);
        }
        lemma_credit_at_index(rest, i - 1, ev);
        assert(credit_records(records, account, ev) =~= records.update(i, entry));
    }
}

/// Crediting a key that owns no slot appends a fresh slot at the end.
pub proof fn lemma_credit_no_match(records: Seq<AccountView>, account: Seq<char>, ev: RewardView)
    requires
        forall|k: int| 0 <= k < records.len() ==> (#[trigger] records[k]).account_id != account,
    ensures
        credit_records(records, account, ev) == records.push(
            AccountView { account_id: account, rewards: credited_rewards(empty_rewards(), ev) },
        ),
    decreases records.len(),
{
    let entry = AccountView { account_id: account, rewards: credited_rewards(empty_rewards(), ev) };
    if records.len() == 0 {
        assert(credit_records(records, account, ev) =~= records.push(entry));
    } else {
        let rest = records.drop_first();
        assert forall|k: int| 0 <= k < rest.len() implies (#[trigger] rest[k]).account_id != account by {
            assert(rest[k] == records[k + 1]);
        }
        lemma_credit_no_match(rest, account, ev);
        assert(credit_records(records, account, ev) =~= records.push(entry));
    }
}

/// Settling against a key that sits (first) at slot `i` updates exactly that
/// slot.
pub proof fn lemma_settle_at_index(records: Seq<AccountView>, i: int, amount: nat)
    requires
        0 <= i < records.len(),
        forall|k: int| 0 <= k < i ==> (#[trigger] records[k]).account_id != records[i].account_id,
    ensures
        settle_records(records, records[i].account_id, amount) == records.update(
            i,
            AccountView {
                account_id: records[i].account_id,
                rewards: settled_rewards(records[i].rewards, amount),
            },
        ),
    decreases i,
{
    let account = records[i].account_id;
    let entry = AccountView { account_id: account, rewards: settled_rewards(records[i].rewards, amount) };
    if i == 0 {
        assert(settle_records(records, account, amount) =~= records.update(0, entry));
    } else {
        assert(records[0].account_id != account);
        let rest = records.drop_first();
        assert(rest[i - 1] == records[i]);
        assert forall|k: int| 0 <= k < i - 1 implies (#[trigger] rest[k]).account_id != rest[i - 1].account_id by {
            assert(rest[k] == records[k + 1]);
        }
        lemma_settle_at_index(rest, i - 1, amount);
        assert(settle_records(records, account, amount) =~= records.update(i, entry));
    }
}

/// Settling against a key that owns no slot leaves the ledger as it is.
pub proof fn lemma_settle_no_match(records: Seq<AccountView>, account: Seq<char>, amount: nat)
    requires
        forall|k: int| 0 <= k < records.len() ==> (#[trigger] records[k]).account_id != account,
    ensures
        settle_records(records, account, amount) == records,
    decreases records.len(),
{
    if records.len() == 0 {
    } else {
        let rest = records.drop_first();
        assert forall|k: int| 0 <= k < rest.len() implies (#[trigger] rest[k]).account_id != account by {
            assert(rest[k] == records[k + 1]);
        }
        lemma_settle_no_match(rest, account, amount);
        assert(settle_records(records, account, amount) =~= records);
    }
}

// Effect lemmas: how each transition changes lookups and sums.

/// How a credit changes each account's entry: the credited account gains the
/// event (a fresh slot if it had none), every other account is untouched.
pub proof fn lemma_lookup_credit(records: Seq<AccountView>, account: Seq<char>, ev: RewardView, a: Seq<char>)
    ensures
        lookup(credit_records(records, account, ev), a) == (if a == account {
            Some(
                credited_rewards(
                    match lookup(records, account) {
                        Some(rw) => rw,
                        None => empty_rewards(),
                    },
                    ev,
                ),
            )
        } else {
            lookup(records, a)
        }),
    decreases records.len(),
{
    let credited = credit_records(records, account, ev);
    if records.len() == 0 {
        assert(credited.drop_first() =~= Seq::<AccountView>::empty());
    } else if records[0].account_id == account {
        assert(credited.drop_first() =~= records.drop_first());
    } else {
        assert(credited[0] == records[0]);
        assert(credited.drop_first() =~= credit_records(records.drop_first(), account, ev));
        lemma_lookup_credit(records.drop_first(), account, ev, a);
    }
}

/// How a settlement changes each account's entry: the settled account's
/// balance is debited, every other account is untouched.
pub proof fn lemma_lookup_settle(records: Seq<AccountView>, account: Seq<char>, amount: nat, a: Seq<char>)
    ensures
        lookup(settle_records(records, account, amount), a) == (if a == account {
            match lookup(records, account) {
                Some(rw) => Some(settled_rewards(rw, amount)),
                None => None::<RewardsView>,
            }
        } else {
            lookup(records, a)
        }),
    decreases records.len(),
{
    let settled = settle_records(records, account, amount);
    if records.len() == 0 {
    } else if records[0].account_id == account {
        assert(settled.drop_first() =~= records.drop_first());
    } else {
        assert(settled[0] == records[0]);
        assert(settled.drop_first() =~= settle_records(records.drop_first(), account, amount));
        lemma_lookup_settle(records.drop_first(), account, amount, a);
    }
}

pub proof fn lemma_sum_amounts_push(events: Seq<RewardView>, ev: RewardView)
    ensures
        sum_amounts(events.push(ev)) == sum_amounts(events) + ev.amount,
    decreases events.len(),
{
    if events.len() == 0 {
        assert(events.push(ev).drop_first() =~= Seq::<RewardView>::empty());
        assert(events.push(ev)[0] == ev);
        assert(sum_amounts(Seq::<RewardView>::empty()) == 0);
    } else {
        assert(events.push(ev).drop_first() =~= events.drop_first().push(ev));
        assert(events.push(ev)[0] == events[0]);
        lemma_sum_amounts_push(events.drop_first(), ev);
    }
}

/// A credit adds exactly its amount to the total of all balances.
pub proof fn lemma_sum_balances_credit(records: Seq<AccountView>, account: Seq<char>, ev: RewardView)
    ensures
        sum_balances(credit_records(records, account, ev)) == sum_balances(records) + ev.amount,
    decreases records.len(),
{
    let credited = credit_records(records, account, ev);
    if records.len() == 0 {
        assert(credited.drop_first() =~= Seq::<AccountView>::empty());
        assert(credited[0].rewards == credited_rewards(empty_rewards(), ev));
        assert(sum_balances(Seq::<AccountView>::empty()) == 0);
    } else if records[0].account_id == account {
        assert(credited.drop_first() =~= records.drop_first());
        assert(credited[0].rewards == credited_rewards(records[0].rewards, ev));
    } else {
        assert(credited[0] == records[0]);
        assert(credited.drop_first() =~= credit_records(records.drop_first(), account, ev));
        lemma_sum_balances_credit(records.drop_first(), account, ev);
    }
}

/// A valid settlement removes exactly its amount from the total of all
/// balances.
pub proof fn lemma_sum_balances_settle(records: Seq<AccountView>, account: Seq<char>, amount: nat)
    requires
        amount <= balance_in(records, account),
    ensures
        sum_balances(settle_records(records, account, amount)) + amount == sum_balances(records),
    decreases records.len(),
{
    let settled = settle_records(records, account, amount);
    if records.len() == 0 {
    } else if records[0].account_id == account {
        assert(settled.drop_first() =~= records.drop_first());
    } else {
        assert(settled[0] == records[0]);
        assert(settled.drop_first() =~= settle_records(records.drop_first(), account, amount));
        lemma_sum_balances_settle(records.drop_first(), account, amount);
    }
}

// Preservation lemmas: the transitions keep the ledger well-formed.

pub proof fn lemma_credit_preserves_wf(records: Seq<AccountView>, account: Seq<char>, ev: RewardView)
    requires
        records_wf(records),
    ensures
        records_wf(credit_records(records, account, ev)),
    decreases records.len(),
{
    let credited = credit_records(records, account, ev);
    if records.len() == 0 {
        assert(credited.drop_first() =~= Seq::<AccountView>::empty());
        assert(credited[0].rewards == credited_rewards(empty_rewards(), ev));
        lemma_sum_amounts_push(Seq::empty(), ev);
        assert(sum_amounts(Seq::<RewardView>::empty()) == 0);
        assert(lookup(Seq::<AccountView>::empty(), credited[0].account_id) is None);
        assert(distinct_keys(Seq::<AccountView>::empty()));
        assert(balances_derivable(Seq::<AccountView>::empty()));
    } else if records[0].account_id == account {
        assert(credited.drop_first() =~= records.drop_first());
        assert(credited[0].rewards == credited_rewards(records[0].rewards, ev));
        assert(credited[0].account_id == records[0].account_id);
        lemma_sum_amounts_push(records[0].rewards.events, ev);
    } else {
        assert(credited[0] == records[0]);
        assert(credited.drop_first() =~= credit_records(records.drop_first(), account, ev));
        lemma_credit_preserves_wf(records.drop_first(), account, ev);
        lemma_lookup_credit(records.drop_first(), account, ev, records[0].account_id);
        assert(lookup(credit_records(records.drop_first(), account, ev), records[0].account_id) is None);
    }
}

pub proof fn lemma_settle_preserves_wf(records: Seq<AccountView>, account: Seq<char>, amount: nat)
    requires
        records_wf(records),
        amount <= balance_in(records, account),
    ensures
        records_wf(settle_records(records, account, amount)),
    decreases records.len(),
{
    let settled = settle_records(records, account, amount);
    if records.len() == 0 {
    } else if records[0].account_id == account {
        assert(settled.drop_first() =~= records.drop_first());
    } else {
        assert(settled[0] == records[0]);
        assert(settled.drop_first() =~= settle_records(records.drop_first(), account, amount));
        lemma_settle_preserves_wf(records.drop_first(), account, amount);
        lemma_lookup_settle(records.drop_first(), account, amount, records[0].account_id);
    }
}

} // verus!
