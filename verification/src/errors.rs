use vstd::prelude::*;

verus! {

/// Why an operation was refused.
///
/// Every operation of the ledger either succeeds in full or returns one of
/// these and leaves all state exactly as it was: no partial mutation is ever
/// observable.
#[derive(Clone, Copy, Debug, PartialEq, Eq, Structural)]
pub enum ContractError {
    /// A credit was attempted by someone other than the contract owner.
    NotOwner,
    /// A state-changing call arrived without the one-unit deliberate-action
    /// deposit that guards it.
    MissingAuthorizationProof,
    /// A checked addition would have exceeded the 128-bit range.
    IntegerOverflow,
    /// A checked subtraction would have gone below zero.
    IntegerUnderflow,
    /// A credit asked for more than the escrow counter currently holds.
    InsufficientEscrow,
    /// A claim settlement asked for more than the account's current balance.
    AmountExceedsBalance,
    /// The eligibility query reported the claimant as not registered with the
    /// token service (or the query itself failed).
    AccountNotEligible,
    /// A deposit notification came from an account other than the configured
    /// token service.
    InvalidDepositSender,
    /// A deposit notification carried a non-empty message, which is reserved
    /// and treated as malformed input.
    NonEmptyDepositMessage,
}

} // verus!
