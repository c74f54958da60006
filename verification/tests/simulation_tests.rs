//! Deployment-style flows against the ledger: the fungible token service is
//! stood in for by handing its notifications and query answers to the
//! contract directly.

use claim_rewards::{Contract, ContractError, StorageBalance};

const FT_ID: &str = "ft";
const CLAIM_OWNER_ID: &str = "root";
const ALICE_ID: &str = "alice";
const USER1_ID: &str = "user1user1user1user1user1user1user1user1user1user1user1user1user";

/// Whole-token amount to its smallest (yocto) denomination.
fn ptoy(paras_amount: u128) -> u128 {
    paras_amount * 10u128.pow(24)
}

fn init() -> Contract {
    Contract::new(CLAIM_OWNER_ID.to_string(), FT_ID.to_string())
}

fn registered() -> Option<StorageBalance> {
    Some(StorageBalance { total: 1250000000000000000000, available: 0 })
}

#[test]
fn simulate_deposit_amount() {
    let mut claim = init();

    let refund = claim
        .ft_on_transfer(&FT_ID.to_string(), CLAIM_OWNER_ID.to_string(), ptoy(10_000_000), &String::new())
        .unwrap();

    // the whole transfer is kept for the escrow counter, nothing is refunded
    assert_eq!(ptoy(10_000_000) - refund, ptoy(10_000_000));
    assert_eq!(claim.deposited_amount, ptoy(10_000_000));
}

#[test]
fn simulate_push_reward() {
    let mut claim = init();
    claim
        .ft_on_transfer(&FT_ID.to_string(), CLAIM_OWNER_ID.to_string(), ptoy(10_000_000), &String::new())
        .unwrap();

    // an account that was never credited has zero reward
    assert_eq!(claim.get_reward_amount(&USER1_ID.to_string()), 0);

    claim
        .push_reward(&CLAIM_OWNER_ID.to_string(), 1, USER1_ID.to_string(), ptoy(10), "".to_string())
        .unwrap();
    claim
        .push_reward(&CLAIM_OWNER_ID.to_string(), 1, USER1_ID.to_string(), ptoy(10), "".to_string())
        .unwrap();

    assert_eq!(claim.get_reward_amount(&USER1_ID.to_string()), ptoy(20));
}

#[test]
fn simulate_claim_reward_full() {
    let mut claim = init();
    claim
        .ft_on_transfer(&FT_ID.to_string(), CLAIM_OWNER_ID.to_string(), ptoy(10_000_000), &String::new())
        .unwrap();
    claim
        .push_reward(&CLAIM_OWNER_ID.to_string(), 1, USER1_ID.to_string(), ptoy(10), "".to_string())
        .unwrap();

    // user1 looks at their reward
    let user1_reward = claim.get_reward_amount(&USER1_ID.to_string());
    assert_eq!(user1_reward, ptoy(10));

    // user1 claims all of it; the token service reports user1 as registered
    let request = claim.claim_reward(USER1_ID.to_string(), user1_reward);
    let transfer = claim
        .claim_reward_callback(registered(), request.amount, request.account_id)
        .unwrap();

    // the reward is gone from the ledger ...
    assert_eq!(claim.get_reward_amount(&USER1_ID.to_string()), 0);

    // ... and exactly its amount is on its way to user1
    assert_eq!(transfer.receiver_id, USER1_ID.to_string());
    assert_eq!(transfer.amount, ptoy(10));
}

#[test]
fn simulate_push_reward_invalid_account() {
    let mut claim = init();
    claim
        .ft_on_transfer(&FT_ID.to_string(), CLAIM_OWNER_ID.to_string(), ptoy(10_000_000), &String::new())
        .unwrap();

    // someone other than the owner tries to push a reward to themselves
    let outcome = claim.push_reward(&USER1_ID.to_string(), 1, USER1_ID.to_string(), ptoy(10), "".to_string());

    assert_eq!(outcome, Err(ContractError::NotOwner));
    assert_eq!(claim.deposited_amount, ptoy(10_000_000));
    assert_eq!(claim.get_reward_amount(&USER1_ID.to_string()), 0);
}

#[test]
fn simulate_claim_to_non_registered_user() {
    let mut claim = init();
    claim
        .ft_on_transfer(&FT_ID.to_string(), CLAIM_OWNER_ID.to_string(), ptoy(10_000_000), &String::new())
        .unwrap();
    claim
        .push_reward(&CLAIM_OWNER_ID.to_string(), 1, ALICE_ID.to_string(), ptoy(10), "".to_string())
        .unwrap();

    // alice looks at her reward
    assert_eq!(claim.get_reward_amount(&ALICE_ID.to_string()), ptoy(10));

    // alice claims it all, but is not registered with the token service
    let request = claim.claim_reward(ALICE_ID.to_string(), ptoy(10));
    let outcome = claim.claim_reward_callback(None, request.amount, request.account_id);

    // the claim is aborted: no transfer, and the balance stands untouched
    assert_eq!(outcome.err(), Some(ContractError::AccountNotEligible));
    assert_eq!(claim.get_reward_amount(&ALICE_ID.to_string()), ptoy(10));
}
