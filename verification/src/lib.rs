//! A verified balance ledger for reward entitlements.
//!
//! An administrator credits accounts from a deposit-funded escrow counter,
//! account holders settle withdrawals through an asynchronous two-stage claim
//! protocol, and a read-only query surface exposes balances and paginated
//! history. The asynchronous parts of the protocol (the eligibility query
//! against the external token service and the outbound transfer) are modelled
//! as explicit request and intent values, so that the decision logic between
//! them is fully verified: a claim first produces a [`ClaimRequest`], the host
//! asks the token service about the claimant, and the answer is handed back to
//! [`Contract::claim_reward_callback`], which re-validates against the *live*
//! balance, debits, and only then emits the outbound [`FtTransfer`].

use vstd::prelude::*;

pub mod errors;
pub mod laws;
pub mod model;
pub mod rewards;
pub mod safe_math;

pub use errors::ContractError;
pub use rewards::{Reward, Rewards, WrappedReward};
pub use safe_math::{checked_add, checked_sub};

use crate::model::{
    balance_of, credit, credited_rewards, deposit, empty_rewards, history_of,
    lemma_credit_at_index, lemma_credit_no_match, lemma_credit_preserves_wf,
    lemma_lookup_at_index, lemma_lookup_no_match, lemma_settle_at_index, lemma_settle_no_match,
    lemma_settle_preserves_wf, lookup, page, records_wf, settle, settled_rewards, AccountView,
    ContractView,
};
use crate::rewards::RewardView;

verus! {

/// What the external token service reports about an account's storage
/// registration. The settlement protocol only ever asks whether such a report
/// exists at all: `Some` means the claimant is registered and may receive the
/// token, `None` means it is not.
pub struct StorageBalance {
    pub total: u128,
    pub available: u128,
}

/// The eligibility query a claim dispatches, together with the data the
/// settlement continuation carries across the suspension point: exactly the
/// claimant and the requested amount, never a balance snapshot (the balance is
/// re-read when the continuation runs).
pub struct ClaimRequest {
    pub account_id: String,
    pub amount: u128,
}

/// An outbound, irreversible transfer the contract asks the external token
/// service to perform once a claim has settled.
pub struct FtTransfer {
    pub receiver_id: String,
    pub amount: u128,
    pub memo: Option<String>,
}

/// One account's slot in the ledger.
pub struct AccountRecord {
    pub account_id: String,
    pub rewards: Rewards,
}

impl View for AccountRecord {
    type V = AccountView;

    open spec fn view(&self) -> AccountView {
        AccountView { account_id: self.account_id@, rewards: self.rewards@ }
    }
}

/// The reward ledger: the owner who may credit, the token service the ledger
/// settles against, one record per credited account, and the escrow counter
/// that bounds credits.
pub struct Contract {
    pub owner: String,
    pub token: String,
    pub records: Vec<AccountRecord>,
    pub deposited_amount: u128,
}

impl View for Contract {
    type V = ContractView;

    open spec fn view(&self) -> ContractView {
        ContractView {
            owner: self.owner@,
            token: self.token@,
            records: self.records@.map_values(|e: AccountRecord| e@),
            deposited_amount: self.deposited_amount as nat,
        }
    }
}

impl Contract {
    /// The ledger's invariant: account identifiers own at most one record
    /// each, and every balance is derivable from its history.
    pub open spec fn wf(&self) -> bool {
        records_wf(self@.records)
    }

    pub fn new(owner: String, token: String) -> (c: Contract)
        ensures
            c.wf(),
            c@ == (ContractView {
                owner: owner@,
                token: token@,
                records: Seq::empty(),
                deposited_amount: 0,
            }),
    {
        let c = Contract { owner, token, records: Vec::new(), deposited_amount: 0 };
        proof {
            assert(c@.records =~= Seq::<AccountView>::empty());
            assert(c@ =~= (ContractView {
                owner: c.owner@,
                token: c.token@,
                records: Seq::empty(),
                deposited_amount: 0,
            }));
        }
        c
    }

    /// The first record of `account_id`, if any; under [`Contract::wf`] it is
    /// the only one.
    fn find_index(&self, account_id: &String) -> (r: Option<usize>)
        ensures
            match r {
                Some(i) => (i as int) < self@.records.len()
                    && self@.records[i as int].account_id == account_id@
                    && (forall|k: int|
                        0 <= k < i ==> (#[trigger] self@.records[k]).account_id != account_id@),
                None => forall|k: int|
                    0 <= k < self@.records.len()
                        ==> (#[trigger] self@.records[k]).account_id != account_id@,
            },
    {
        let n = self.records.len();
        let mut i: usize = 0;
        while i < n
            invariant
                i <= n,
                n == self.records@.len(),
                self@.records.len() == self.records@.len(),
                forall|k: int|
                    0 <= k < i ==> (#[trigger] self@.records[k]).account_id != account_id@,
                forall|k: int| 0 <= k < n ==> self@.records[k] == self.records@[k]@,
            decreases n - i,
        {
            if self.records[i].account_id == *account_id {
                return Some(i);
            }
            i = i + 1;
        }
        None
    }

    /// The record of `account_id`, if the account was ever credited.
    pub fn get_record(&self, account_id: &String) -> (r: Option<&Rewards>)
        ensures
            match r {
                Some(rw) => lookup(self@.records, account_id@) == Some(rw@),
                None => lookup(self@.records, account_id@) is None,
            },
    {
        match self.find_index(account_id) {
            Some(i) => {
                proof {
                    lemma_lookup_at_index(self@.records, i as int);
                }
                Some(&self.records[i].rewards)
            }
            None => {
                proof {
                    lemma_lookup_no_match(self@.records, account_id@);
                }
                None
            }
        }
    }

    pub fn get_owner(&self) -> (r: String)
        ensures
            r@ == self@.owner,
    {
        self.owner.clone()
    }

    /// Hands the contract to a new owner. Only the present owner may do so.
    pub fn set_owner(&mut self, caller: &String, owner: String) -> (r: Result<(), ContractError>)
        requires
            old(self).wf(),
        ensures
            final(self).wf(),
            match r {
                Ok(()) => caller@ == old(self)@.owner
                    && final(self)@ == (ContractView { owner: owner@, ..old(self)@ }),
                Err(e) => caller@ != old(self)@.owner
                    && e == ContractError::NotOwner
                    && *final(self) == *old(self),
            },
    {
        if !(*caller == self.owner) {
            return Err(ContractError::NotOwner);
        }
        self.owner = owner;
        proof {
            assert(self@ =~= (ContractView { owner: self.owner@, ..old(self)@ }));
        }
        Ok(())
    }

    /// Grows the escrow counter by a validated inbound deposit. This is the
    /// only way the counter increases.
    pub fn internal_deposit(&mut self, amount: u128) -> (r: Result<(), ContractError>)
        requires
            old(self).wf(),
        ensures
            final(self).wf(),
            match r {
                Ok(()) => old(self)@.deposited_amount + amount <= u128::MAX
                    && final(self)@ == deposit(old(self)@, amount as nat),
                Err(e) => old(self)@.deposited_amount + amount > u128::MAX
                    && e == ContractError::IntegerOverflow
                    && *final(self) == *old(self),
            },
    {
        let new_amount = match checked_add(self.deposited_amount, amount) {
            Ok(v) => v,
            Err(e) => {
                return Err(e);
            }
        };
        self.deposited_amount = new_amount;
        proof {
            assert(self@ =~= deposit(old(self)@, amount as nat));
        }
        Ok(())
    }

    /// The notification the external token service sends when someone moves
    /// tokens to this contract. `token_in` is the actual caller of the
    /// notification; only the configured token service may fund the escrow,
    /// and the attached message is reserved and must be empty. Returns the
    /// amount to refund to the sender: zero, the whole deposit is kept.
    pub fn ft_on_transfer(&mut self, token_in: &String, sender_id: String, amount: u128, msg: &String) -> (r: Result<
        u128,
        ContractError,
    >)
        requires
            old(self).wf(),
        ensures
            final(self).wf(),
            match r {
                Ok(refund) => refund == 0
                    && msg@.len() == 0
                    && token_in@ == old(self)@.token
                    && old(self)@.deposited_amount + amount <= u128::MAX
                    && final(self)@ == deposit(old(self)@, amount as nat),
                Err(e) => *final(self) == *old(self) && (
                    (msg@.len() > 0 && e == ContractError::NonEmptyDepositMessage)
                    || (msg@.len() == 0 && token_in@ != old(self)@.token
                        && e == ContractError::InvalidDepositSender)
                    || (msg@.len() == 0 && token_in@ == old(self)@.token
                        && old(self)@.deposited_amount + amount > u128::MAX
                        && e == ContractError::IntegerOverflow)),
            },
    {
        let _ = sender_id;
        if !msg.as_str().is_empty() {
            return Err(ContractError::NonEmptyDepositMessage);
        }
        if !(*token_in == self.token) {
            return Err(ContractError::InvalidDepositSender);
        }
        match self.internal_deposit(amount) {
            Ok(()) => Ok(0),
            Err(e) => Err(e),
        }
    }

    /// The owner credits `amount` to `account_id`, funded from the escrow
    /// counter, with a one-unit attached deposit as a deliberate-action proof.
    /// Applied together or not at all: the escrow counter shrinks by the
    /// amount, the account's balance grows by it, and one event is appended to
    /// the account's history.
    pub fn push_reward(
        &mut self,
        caller: &String,
        attached_deposit: u128,
        account_id: String,
        amount: u128,
        memo: String,
    ) -> (r: Result<(), ContractError>)
        requires
            old(self).wf(),
        ensures
            final(self).wf(),
            match r {
                Ok(()) => caller@ == old(self)@.owner
                    && attached_deposit == 1
                    && amount as nat <= old(self)@.deposited_amount
                    && balance_of(old(self)@, account_id@) + amount <= u128::MAX
                    && final(self)@ == credit(old(self)@, account_id@, amount as nat, memo@),
                Err(e) => *final(self) == *old(self) && (
                    (caller@ != old(self)@.owner && e == ContractError::NotOwner)
                    || (caller@ == old(self)@.owner && attached_deposit != 1
                        && e == ContractError::MissingAuthorizationProof)
                    || (caller@ == old(self)@.owner && attached_deposit == 1
                        && (amount as nat) > old(self)@.deposited_amount
                        && e == ContractError::InsufficientEscrow)
                    || (caller@ == old(self)@.owner && attached_deposit == 1
                        && amount as nat <= old(self)@.deposited_amount
                        && balance_of(old(self)@, account_id@) + amount > u128::MAX
                        && e == ContractError::IntegerOverflow)),
            },
    {
        if !(*caller == self.owner) {
            return Err(ContractError::NotOwner);
        }
        if attached_deposit != 1 {
            return Err(ContractError::MissingAuthorizationProof);
        }
        if amount > self.deposited_amount {
            return Err(ContractError::InsufficientEscrow);
        }
        let new_deposited = match checked_sub(self.deposited_amount, amount) {
            Ok(v) => v,
            Err(e) => {
                return Err(e);
            }
        };
        match self.find_index(&account_id) {
            Some(i) => {
                let current_amount = self.records[i].rewards.internal_reward_amount();
                let new_balance = match checked_add(current_amount, amount) {
                    Ok(v) => v,
                    Err(e) => {
                        proof {
                            lemma_lookup_at_index(self@.records, i as int);
                        }
                        return Err(e);
                    }
                };
                self.deposited_amount = new_deposited;
                let entry = &mut self.records[i];
                entry.rewards.internal_add_new_reward(
                    Reward::new(account_id.clone(), amount, memo),
                );
                entry.rewards.internal_set_reward_amount(new_balance);
                proof {
                    let rs = old(self)@.records;
                    let ev = RewardView { account_id: account_id@, amount: amount as nat, memo: memo@ };
                    assert(self@.records =~= rs.update(i as int, AccountView {
                        account_id: rs[i as int].account_id,
                        rewards: credited_rewards(rs[i as int].rewards, ev),
                    }));
                    lemma_credit_at_index(rs, i as int, ev);
                    lemma_credit_preserves_wf(rs, account_id@, ev);
                    lemma_lookup_at_index(rs, i as int);
                    assert(self@ =~= credit(old(self)@, account_id@, amount as nat, memo@));
                }
                Ok(())
            }
            None => {
                let mut rw = Rewards::new();
                rw.internal_add_new_reward(Reward::new(account_id.clone(), amount, memo));
                rw.internal_set_reward_amount(amount);
                self.deposited_amount = new_deposited;
                self.records.push(AccountRecord { account_id, rewards: rw });
                proof {
                    let rs = old(self)@.records;
                    let ev = RewardView { account_id: account_id@, amount: amount as nat, memo: memo@ };
                    lemma_credit_no_match(rs, account_id@, ev);
                    lemma_lookup_no_match(rs, account_id@);
                    assert(self@.records =~= rs.push(AccountView {
                        account_id: account_id@,
                        rewards: credited_rewards(empty_rewards(), ev),
                    }));
                    lemma_credit_preserves_wf(rs, account_id@, ev);
                    assert(self@ =~= credit(old(self)@, account_id@, amount as nat, memo@));
                }
                Ok(())
            }
        }
    }

    /// First stage of the claim settlement protocol. The caller claims
    /// `amount` against their own identity. Nothing is checked and nothing is
    /// mutated here: the returned request names the claimant whose eligibility
    /// the host must ask the token service about, and carries exactly the data
    /// the continuation ([`Contract::claim_reward_callback`]) needs. Between
    /// the two stages other calls may mutate this contract.
    pub fn claim_reward(&mut self, caller: String, amount: u128) -> (r: ClaimRequest)
        ensures
            *final(self) == *old(self),
            r.account_id@ == caller@,
            r.amount == amount,
    {
        ClaimRequest { account_id: caller, amount }
    }

    /// Second stage of the claim settlement protocol, run once the eligibility
    /// query has resolved. An absent report aborts the claim with the balance
    /// untouched. Otherwise the claimant's *current* balance — not a snapshot
    /// from the first stage — is re-read and validated, debited, and only then
    /// is the outbound transfer intent handed back for dispatch.
    pub fn claim_reward_callback(
        &mut self,
        value_of_storage_balance: Option<StorageBalance>,
        amount: u128,
        account_id: String,
    ) -> (r: Result<FtTransfer, ContractError>)
        requires
            old(self).wf(),
        ensures
            final(self).wf(),
            match r {
                Ok(t) => value_of_storage_balance is Some
                    && amount as nat <= balance_of(old(self)@, account_id@)
                    && final(self)@ == settle(old(self)@, account_id@, amount as nat)
                    && t.receiver_id@ == account_id@
                    && t.amount == amount
                    && t.memo is None,
                Err(e) => *final(self) == *old(self) && (
                    (value_of_storage_balance is None && e == ContractError::AccountNotEligible)
                    || (value_of_storage_balance is Some
                        && (amount as nat) > balance_of(old(self)@, account_id@)
                        && e == ContractError::AmountExceedsBalance)),
            },
    {
        match value_of_storage_balance {
            Some(_) => (),
            None => {
                return Err(ContractError::AccountNotEligible);
            }
        };
        match self.find_index(&account_id) {
            Some(i) => {
                let current_amount = self.records[i].rewards.internal_reward_amount();
                proof {
                    lemma_lookup_at_index(self@.records, i as int);
                }
                if amount > current_amount {
                    return Err(ContractError::AmountExceedsBalance);
                }
                let new_balance = match checked_sub(current_amount, amount) {
                    Ok(v) => v,
                    Err(e) => {
                        return Err(e);
                    }
                };
                let entry = &mut self.records[i];
                entry.rewards.internal_set_reward_amount(new_balance);
                proof {
                    let rs = old(self)@.records;
                    assert(self@.records =~= rs.update(i as int, AccountView {
                        account_id: rs[i as int].account_id,
                        rewards: settled_rewards(rs[i as int].rewards, amount as nat),
                    }));
                    lemma_settle_at_index(rs, i as int, amount as nat);
                    lemma_settle_preserves_wf(rs, account_id@, amount as nat);
                    assert(self@ =~= settle(old(self)@, account_id@, amount as nat));
                }
                Ok(FtTransfer { receiver_id: account_id, amount, memo: None })
            }
            None => {
                proof {
                    lemma_lookup_no_match(self@.records, account_id@);
                }
                if amount > 0 {
                    return Err(ContractError::AmountExceedsBalance);
                }
                proof {
                    lemma_settle_no_match(self@.records, account_id@, amount as nat);
                    assert(self@ =~= settle(old(self)@, account_id@, amount as nat));
                }
                Ok(FtTransfer { receiver_id: account_id, amount, memo: None })
            }
        }
    }

    /// The account's claimable balance; an account that was never credited has
    /// zero reward.
    pub fn get_reward_amount(&self, account_id: &String) -> (r: u128)
        ensures
            r as nat == balance_of(self@, account_id@),
    {
        match self.find_index(account_id) {
            Some(i) => {
                proof {
                    lemma_lookup_at_index(self@.records, i as int);
                }
                self.records[i].rewards.internal_reward_amount()
            }
            None => {
                proof {
                    lemma_lookup_no_match(self@.records, account_id@);
                }
                0
            }
        }
    }

    /// Up to `limit` history entries of `account_id` starting at chronological
    /// position `from_index`, newest first. Positions beyond the history — and
    /// accounts that were never credited — yield an empty result, never an
    /// error.
    pub fn get_rewards(&self, from_index: u64, limit: u64, account_id: &String) -> (r: Vec<Reward>)
        ensures
            r@.map_values(|re: Reward| re@) == page(
                history_of(self@, account_id@),
                from_index as nat,
                limit as nat,
            ),
    {
        let ghost events = history_of(self@, account_id@);
        match self.find_index(account_id) {
            Some(i) => {
                proof {
                    lemma_lookup_at_index(self@.records, i as int);
                }
                let rw = &self.records[i].rewards;
                let n = rw.get_rewards_len();
                if from_index >= n {
                    let out: Vec<Reward> = Vec::new();
                    proof {
                        assert(out@.map_values(|re: Reward| re@) =~= page(
                            events,
                            from_index as nat,
                            limit as nat,
                        ));
                    }
                    return out;
                }
                let take = if limit <= n - from_index {
                    limit
                } else {
                    n - from_index
                };
                let ghost end = from_index as nat + take as nat;
                let mut out: Vec<Reward> = Vec::new();
                let mut j: u64 = 0;
                while j < take
                    invariant
                        j <= take,
                        rw@.events == events,
                        (from_index as nat) < events.len(),
                        end == from_index as nat + take as nat,
                        end <= events.len(),
                        end <= u64::MAX,
                        out@.len() == j as nat,
                        forall|k: int| 0 <= k < j ==> (#[trigger] out@[k])@ == events[end - 1 - k],
                    decreases take - j,
                {
                    let idx = from_index + take - 1 - j;
                    out.push(rw.get_reward(idx));
                    j = j + 1;
                }
                proof {
                    assert(out@.map_values(|re: Reward| re@) =~= page(
                        events,
                        from_index as nat,
                        limit as nat,
                    ));
                }
                out
            }
            None => {
                proof {
                    lemma_lookup_no_match(self@.records, account_id@);
                }
                let out: Vec<Reward> = Vec::new();
                proof {
                    assert(out@.map_values(|re: Reward| re@) =~= page(
                        events,
                        from_index as nat,
                        limit as nat,
                    ));
                }
                out
            }
        }
    }
}

} // verus!
