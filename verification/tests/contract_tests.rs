use claim_rewards::{Contract, ContractError, StorageBalance};

const TEN_PARAS_TOKEN: u128 = 10_000_000_000_000_000_000_000_000;

/// Deterministic test account identifiers.
fn accounts(i: usize) -> String {
    ["alice", "bob", "charlie", "danny", "eugene", "fargo"][i].to_string()
}

fn setup_contract() -> Contract {
    Contract::new(accounts(1), accounts(2))
}

#[test]
fn test_new() {
    let contract = setup_contract();
    assert_eq!(contract.deposited_amount, 0);
    assert_eq!(contract.owner, accounts(1));
    assert_eq!(contract.token, accounts(2));
}

#[test]
fn test_internal_deposit() {
    let mut contract = setup_contract();
    let refund = contract
        .ft_on_transfer(&accounts(2), accounts(3), 10, &String::new())
        .unwrap();
    assert_eq!(refund, 0);
    assert_eq!(contract.deposited_amount, 10);
}

#[test]
fn test_push_reward() {
    let mut contract = setup_contract();
    contract
        .ft_on_transfer(&accounts(2), accounts(3), TEN_PARAS_TOKEN, &String::new())
        .unwrap();
    contract
        .push_reward(&accounts(1), 1, accounts(3), TEN_PARAS_TOKEN, "first reward".to_string())
        .unwrap();
    assert_eq!(contract.deposited_amount, 0);
    assert_eq!(contract.get_reward_amount(&accounts(3)), TEN_PARAS_TOKEN);
    let record = contract.get_record(&accounts(3)).unwrap();
    assert_eq!(record.get_reward(0).get_account_id(), accounts(3));
    assert_eq!(record.get_reward(0).get_amount(), TEN_PARAS_TOKEN);
    assert_eq!(record.get_reward(0).get_memo(), "first reward");
}

#[test]
fn test_claim_reward() {
    let mut contract = setup_contract();
    contract
        .ft_on_transfer(&accounts(2), accounts(3), TEN_PARAS_TOKEN, &String::new())
        .unwrap();
    contract
        .push_reward(&accounts(1), 1, accounts(3), TEN_PARAS_TOKEN, "first reward".to_string())
        .unwrap();
    let request = contract.claim_reward(accounts(3), TEN_PARAS_TOKEN);
    let storage_balance = Some(StorageBalance { total: 12500000000000000000000, available: 0 });
    contract
        .claim_reward_callback(storage_balance, request.amount, request.account_id)
        .unwrap();
    assert_eq!(contract.get_reward_amount(&accounts(3)), 0);
}

#[test]
fn test_not_enough_push_reward() {
    let mut contract = setup_contract();
    let r = contract.push_reward(&accounts(1), 1, accounts(3), TEN_PARAS_TOKEN, "".to_string());
    assert_eq!(r, Err(ContractError::InsufficientEscrow));
}

#[test]
fn lib_test_new() {
    let contract = setup_contract();
    assert_eq!(contract.deposited_amount, 0);
    assert_eq!(contract.owner, accounts(1));
    assert_eq!(contract.token, accounts(2));
}

#[test]
fn lib_test_internal_deposit() {
    let mut contract = setup_contract();
    contract
        .ft_on_transfer(&accounts(2), accounts(3), 10, &String::new())
        .unwrap();
    assert_eq!(contract.deposited_amount, 10);
}

#[test]
fn lib_test_push_reward() {
    let mut contract = setup_contract();
    contract
        .ft_on_transfer(&accounts(2), accounts(3), TEN_PARAS_TOKEN, &String::new())
        .unwrap();
    contract
        .push_reward(&accounts(1), 1, accounts(3), TEN_PARAS_TOKEN, "first reward".to_string())
        .unwrap();
    assert_eq!(contract.deposited_amount, 0);
    assert_eq!(contract.get_reward_amount(&accounts(3)), TEN_PARAS_TOKEN);
    let record = contract.get_record(&accounts(3)).unwrap();
    assert_eq!(record.get_reward(0).get_amount(), TEN_PARAS_TOKEN);
    assert_eq!(record.get_reward(0).get_memo(), "first reward");
}

#[test]
fn lib_test_claim_reward() {
    let mut contract = setup_contract();
    contract
        .ft_on_transfer(&accounts(2), accounts(3), TEN_PARAS_TOKEN, &String::new())
        .unwrap();
    contract
        .push_reward(&accounts(1), 1, accounts(3), TEN_PARAS_TOKEN, "first reward".to_string())
        .unwrap();
    let request = contract.claim_reward(accounts(3), TEN_PARAS_TOKEN);
    let storage_balance = Some(StorageBalance { total: 1, available: 0 });
    contract
        .claim_reward_callback(storage_balance, request.amount, request.account_id)
        .unwrap();
    assert_eq!(contract.get_reward_amount(&accounts(3)), 0);
}
