use vstd::prelude::*;

use crate::model::{
    balance_of, can_settle, credit, deposit, history_of, lemma_credit_preserves_wf,
    lemma_lookup_credit, lemma_lookup_settle, lemma_settle_preserves_wf,
    lemma_sum_balances_credit, lemma_sum_balances_settle, records_wf, settle, sum_balances,
    ContractView,
};
use crate::rewards::RewardView;

verus! {

/// No overdraw under interleaving: when two claims are issued against the same
/// balance and each fits it alone but not both together, whichever settles
/// first leaves too little for the other — the second settlement is invalid
/// against the live balance, however the two eligibility continuations
/// interleave with other operations.
pub proof fn lemma_no_overdraw_under_interleaving(
    v: ContractView,
    account: Seq<char>,
    first_amount: nat,
    second_amount: nat,
)
    requires
        first_amount <= balance_of(v, account),
        second_amount <= balance_of(v, account),
        balance_of(v, account) < first_amount + second_amount,
    ensures
        can_settle(v, account, first_amount),
        balance_of(settle(v, account, first_amount), account)
            == balance_of(v, account) - first_amount,
        !can_settle(settle(v, account, first_amount), account, second_amount),
{
    lemma_lookup_settle(v.records, account, first_amount, account);
}

/// One abstract operation of the ledger: the three state transitions the
/// executable functions commit.
pub ghost enum LedgerOp {
    Deposit { amount: nat },
    Credit { account: Seq<char>, amount: nat, memo: Seq<char> },
    Settle { account: Seq<char>, amount: nat },
}

pub open spec fn apply_op(v: ContractView, op: LedgerOp) -> ContractView {
    match op {
        LedgerOp::Deposit { amount } => deposit(v, amount),
        LedgerOp::Credit { account, amount, memo } => credit(v, account, amount, memo),
        LedgerOp::Settle { account, amount } => settle(v, account, amount),
    }
}

/// The validation under which the executable ledger commits each operation: a
/// credit is bounded by the escrow counter, a settlement by the account's live
/// balance, and a deposit only by checked arithmetic.
pub open spec fn op_allowed(v: ContractView, op: LedgerOp) -> bool {
    match op {
        LedgerOp::Deposit { amount } => true,
        LedgerOp::Credit { account, amount, memo } => amount <= v.deposited_amount,
        LedgerOp::Settle { account, amount } => can_settle(v, account, amount),
    }
}

pub open spec fn apply_ops(v: ContractView, ops: Seq<LedgerOp>) -> ContractView
    decreases ops.len(),
{
    if ops.len() == 0 {
        v
    } else {
        apply_ops(apply_op(v, ops[0]), ops.drop_first())
    }
}

pub open spec fn ops_allowed(v: ContractView, ops: Seq<LedgerOp>) -> bool
    decreases ops.len(),
{
    if ops.len() == 0 {
        true
    } else {
        op_allowed(v, ops[0]) && ops_allowed(apply_op(v, ops[0]), ops.drop_first())
    }
}

/// Total of all validated deposits in a run.
pub open spec fn sum_deposits(ops: Seq<LedgerOp>) -> nat
    decreases ops.len(),
{
    if ops.len() == 0 {
        0
    } else {
        (match ops[0] {
            LedgerOp::Deposit { amount } => amount,
            _ => 0,
        }) + sum_deposits(ops.drop_first())
    }
}

/// Total of all completed claim settlements in a run.
pub open spec fn sum_settlements(ops: Seq<LedgerOp>) -> nat
    decreases ops.len(),
{
    if ops.len() == 0 {
        0
    } else {
        (match ops[0] {
            LedgerOp::Settle { account, amount } => amount,
            _ => 0,
        }) + sum_settlements(ops.drop_first())
    }
}

/// Conservation, one step: a deposit moves its amount into the escrow counter,
/// a credit moves value from the counter to a balance without changing the
/// total, and a settlement removes exactly the settled amount.
pub proof fn lemma_op_conservation(v: ContractView, op: LedgerOp)
    requires
        op_allowed(v, op),
    ensures
        sum_balances(apply_op(v, op).records) + apply_op(v, op).deposited_amount + (match op {
            LedgerOp::Settle { account, amount } => amount,
            _ => 0,
        }) == sum_balances(v.records) + v.deposited_amount + (match op {
            LedgerOp::Deposit { amount } => amount,
            _ => 0,
        }),
{
    match op {
        LedgerOp::Deposit { amount } => {
        }
        LedgerOp::Credit { account, amount, memo } => {
            lemma_sum_balances_credit(
                v.records,
                account,
                RewardView { account_id: account, amount, memo },
            );
        }
        LedgerOp::Settle { account, amount } => {
            lemma_sum_balances_settle(v.records, account, amount);
        }
    }
}

pub proof fn lemma_op_preserves_wf(v: ContractView, op: LedgerOp)
    requires
        records_wf(v.records),
        op_allowed(v, op),
    ensures
        records_wf(apply_op(v, op).records),
{
    match op {
        LedgerOp::Deposit { amount } => {
        }
        LedgerOp::Credit { account, amount, memo } => {
            lemma_credit_preserves_wf(
                v.records,
                account,
                RewardView { account_id: account, amount, memo },
            );
        }
        LedgerOp::Settle { account, amount } => {
            lemma_settle_preserves_wf(v.records, account, amount);
        }
    }
}

/// Conservation: over every run of validated deposits, owner credits and
/// completed claim settlements, the total of all account balances plus the
/// escrow counter grows by exactly what was deposited and shrinks by exactly
/// what was settled — value is never created or lost inside the ledger.
pub proof fn lemma_conservation(v: ContractView, ops: Seq<LedgerOp>)
    requires
        ops_allowed(v, ops),
    ensures
        sum_balances(apply_ops(v, ops).records) + apply_ops(v, ops).deposited_amount
            + sum_settlements(ops) == sum_balances(v.records) + v.deposited_amount + sum_deposits(
            ops,
        ),
    decreases ops.len(),
{
    if ops.len() == 0 {
    } else {
        lemma_op_conservation(v, ops[0]);
        lemma_conservation(apply_op(v, ops[0]), ops.drop_first());
    }
}

/// The ledger's invariant survives every run of validated operations.
pub proof fn lemma_wf_preserved(v: ContractView, ops: Seq<LedgerOp>)
    requires
        records_wf(v.records),
        ops_allowed(v, ops),
    ensures
        records_wf(apply_ops(v, ops).records),
    decreases ops.len(),
{
    if ops.len() == 0 {
    } else {
        lemma_op_preserves_wf(v, ops[0]);
        lemma_wf_preserved(apply_op(v, ops[0]), ops.drop_first());
    }
}

/// Append-only history, one step: no operation ever shortens or rewrites any
/// account's history. A credit to the account appends exactly one event; every
/// other case leaves the history untouched.
pub proof fn lemma_history_append_only(v: ContractView, op: LedgerOp, account: Seq<char>)
    ensures
        history_of(v, account).is_prefix_of(history_of(apply_op(v, op), account)),
{
    let before = history_of(v, account);
    let after = history_of(apply_op(v, op), account);
    match op {
        LedgerOp::Deposit { amount } => {
            assert(before =~= after.subrange(0, before.len() as int));
        }
        LedgerOp::Credit { account: credited, amount, memo } => {
            lemma_lookup_credit(
                v.records,
                credited,
                RewardView { account_id: credited, amount, memo },
                account,
            );
            assert(before =~= after.subrange(0, before.len() as int));
        }
        LedgerOp::Settle { account: settled, amount } => {
            lemma_lookup_settle(v.records, settled, amount, account);
            assert(before =~= after.subrange(0, before.len() as int));
        }
    }
}

/// Append-only history over whole runs: after any sequence of operations each
/// account's earlier history is a prefix of its later one — in particular its
/// length never decreases and no existing entry ever changes.
pub proof fn lemma_history_append_only_ops(v: ContractView, ops: Seq<LedgerOp>, account: Seq<char>)
    ensures
        history_of(v, account).is_prefix_of(history_of(apply_ops(v, ops), account)),
    decreases ops.len(),
{
    let before = history_of(v, account);
    let after = history_of(apply_ops(v, ops), account);
    if ops.len() == 0 {
        assert(before =~= after.subrange(0, before.len() as int));
    } else {
        let mid = history_of(apply_op(v, ops[0]), account);
        lemma_history_append_only(v, ops[0], account);
        lemma_history_append_only_ops(apply_op(v, ops[0]), ops.drop_first(), account);
        assert(before =~= after.subrange(0, before.len() as int));
    }
}

} // verus!
