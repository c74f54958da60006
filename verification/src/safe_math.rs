use vstd::prelude::*;

use crate::errors::ContractError;

verus! {

/// Checked addition over unsigned 128-bit magnitudes.
///
/// This is the single place where the overflow policy for stored balances is
/// decided: the sum is returned exactly when it fits, and the enclosing
/// operation is aborted (never wrapped or saturated) when it does not.
pub fn checked_add(a: u128, b: u128) -> (r: Result<u128, ContractError>)
    ensures
        match r {
            Ok(v) => a + b <= u128::MAX && v == a + b,
            Err(e) => a + b > u128::MAX && e == ContractError::IntegerOverflow,
        },
{
    match a.checked_add(b) {
        Some(v) => Ok(v),
        None => Err(ContractError::IntegerOverflow),
    }
}

/// Checked subtraction over unsigned 128-bit magnitudes.
///
/// The difference is returned exactly when it is non-negative, and the
/// enclosing operation is aborted (never wrapped) when it is not.
pub fn checked_sub(a: u128, b: u128) -> (r: Result<u128, ContractError>)
    ensures
        match r {
            Ok(v) => b <= a && v == a - b,
            Err(e) => b > a && e == ContractError::IntegerUnderflow,
        },
{
    match a.checked_sub(b) {
        Some(v) => Ok(v),
        None => Err(ContractError::IntegerUnderflow),
    }
}

} // verus!
