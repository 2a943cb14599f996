use wager::balance::{Balance, Coin, GenericBalance};
use wager::contract::{
    execute_add_funds, execute_cancel, execute_create_wager, execute_send_funds, get_wager,
    instantiate, ContractState, TransferInstruction,
};
use wager::error::ContractError;
use wager::msg::{is_valid_name, InstantiateMsg};
use wager::state::{all_wager_ids, Wager, WagerStore};

fn coins(amount: u128, denom: &str) -> Vec<Coin> {
    vec![Coin { denom: denom.to_string(), amount }]
}

fn init(creator: &str) -> ContractState {
    let msg = InstantiateMsg { sender: creator.to_string() };
    instantiate(creator.to_string(), msg)
}

fn created(creator: &str, funder: &str, id: &str) -> ContractState {
    let mut st = init(creator);
    execute_create_wager(
        &mut st,
        funder.to_string(),
        Balance::Native(coins(10, "uluna")),
        id.to_string(),
    )
    .unwrap();
    st
}

#[test]
fn scenario_create_records_the_funder() {
    let st = created("creator", "user_a", "w1");
    let wager = get_wager(&st, &"w1".to_string()).unwrap();
    assert_eq!(wager.user1, "user_a");
    assert!(wager.user2.is_none());
    assert_eq!(wager.user1_balance.native.len(), 1);
    assert_eq!(wager.user1_balance.native[0].denom, "uluna");
    assert_eq!(wager.user1_balance.native[0].amount, 10);
    assert_eq!(wager.user2_balance.native.len(), 0);
    assert_eq!(wager.user2_balance.cw20.len(), 0);
}

#[test]
fn scenario_matching_join_succeeds() {
    let mut st = created("creator", "user_a", "w1");
    execute_add_funds(
        &mut st,
        "user_b".to_string(),
        Balance::Native(coins(10, "uluna")),
        "w1".to_string(),
    )
    .unwrap();
    let wager = get_wager(&st, &"w1".to_string()).unwrap();
    assert_eq!(wager.user2.as_deref(), Some("user_b"));
    assert_eq!(wager.user2_balance.native.len(), 1);
    assert_eq!(wager.user2_balance.native[0].denom, "uluna");
    assert_eq!(wager.user2_balance.native[0].amount, 10);
}

#[test]
fn scenario_unequal_join_fails_and_changes_nothing() {
    let mut st = created("creator", "user_a", "w1");
    let res = execute_add_funds(
        &mut st,
        "user_b".to_string(),
        Balance::Native(coins(9, "uluna")),
        "w1".to_string(),
    );
    assert_eq!(res.unwrap_err(), ContractError::UnequalBalance);
    let wager = get_wager(&st, &"w1".to_string()).unwrap();
    assert!(wager.user2.is_none());
    assert_eq!(wager.user2_balance.native.len(), 0);
}

#[test]
fn scenario_cancel_needs_authority() {
    let mut st = created("creator", "user_a", "w1");
    let res = execute_cancel(&mut st, "user_c".to_string(), "w1".to_string());
    assert_eq!(res.unwrap_err(), ContractError::Unauthorized);
    assert!(get_wager(&st, &"w1".to_string()).is_ok());

    let res = execute_cancel(&mut st, "user_a".to_string(), "w1".to_string()).unwrap();
    assert_eq!(res.messages.len(), 1);
    match &res.messages[0] {
        TransferInstruction::Native { to_address, amount } => {
            assert_eq!(to_address, "user_a");
            assert_eq!(amount.len(), 1);
            assert_eq!(amount[0].denom, "uluna");
            assert_eq!(amount[0].amount, 10);
        }
        TransferInstruction::Token { .. } => panic!("expected a native transfer"),
    }
    let res = get_wager(&st, &"w1".to_string());
    assert_eq!(res.unwrap_err(), ContractError::WagerDoesNotExist);
}

#[test]
fn scenario_resolution_pays_out_once() {
    let mut st = created("creator", "user_a", "w1");
    execute_add_funds(
        &mut st,
        "user_b".to_string(),
        Balance::Native(coins(10, "uluna")),
        "w1".to_string(),
    )
    .unwrap();

    let res = execute_send_funds(
        &mut st,
        "creator".to_string(),
        "w1".to_string(),
        "user_a".to_string(),
    )
    .unwrap();
    assert_eq!(res.messages.len(), 2);
    let mut total: u128 = 0;
    for message in &res.messages {
        match message {
            TransferInstruction::Native { to_address, amount } => {
                assert_eq!(to_address, "user_a");
                assert_eq!(amount.len(), 1);
                assert_eq!(amount[0].denom, "uluna");
                total += amount[0].amount;
            }
            TransferInstruction::Token { .. } => panic!("expected a native transfer"),
        }
    }
    assert_eq!(total, 20);
    assert_eq!(
        get_wager(&st, &"w1".to_string()).unwrap_err(),
        ContractError::WagerDoesNotExist
    );

    let repeat = execute_send_funds(
        &mut st,
        "creator".to_string(),
        "w1".to_string(),
        "user_a".to_string(),
    );
    assert_eq!(repeat.unwrap_err(), ContractError::WagerDoesNotExist);
}

#[test]
fn test_create_on_taken_id_fails() {
    let mut st = created("creator", "user_a", "w1");
    let res = execute_create_wager(
        &mut st,
        "user_b".to_string(),
        Balance::Native(coins(3, "uusd")),
        "w1".to_string(),
    );
    assert_eq!(res.unwrap_err(), ContractError::AlreadyInUse);

    // After cancellation the id is free again.
    execute_cancel(&mut st, "user_a".to_string(), "w1".to_string()).unwrap();
    execute_create_wager(
        &mut st,
        "user_b".to_string(),
        Balance::Native(coins(3, "uusd")),
        "w1".to_string(),
    )
    .unwrap();
}

#[test]
fn test_second_join_fails_even_with_matching_funds() {
    let mut st = created("creator", "user_a", "w1");
    execute_add_funds(
        &mut st,
        "user_b".to_string(),
        Balance::Native(coins(10, "uluna")),
        "w1".to_string(),
    )
    .unwrap();
    let res = execute_add_funds(
        &mut st,
        "user_c".to_string(),
        Balance::Native(coins(10, "uluna")),
        "w1".to_string(),
    );
    assert_eq!(res.unwrap_err(), ContractError::AlreadyInUse);
    let wager = get_wager(&st, &"w1".to_string()).unwrap();
    assert_eq!(wager.user2.as_deref(), Some("user_b"));
}

#[test]
fn test_self_join_is_rejected() {
    let mut st = created("creator", "user_a", "w1");
    let res = execute_add_funds(
        &mut st,
        "user_a".to_string(),
        Balance::Native(coins(10, "uluna")),
        "w1".to_string(),
    );
    assert_eq!(res.unwrap_err(), ContractError::AlreadyInUse);
}

#[test]
fn test_split_deposit_merges_before_the_check() {
    let mut st = created("creator", "user_a", "w1");
    let res = execute_add_funds(
        &mut st,
        "user_b".to_string(),
        Balance::Native(vec![
            Coin { denom: "uluna".to_string(), amount: 4 },
            Coin { denom: "uluna".to_string(), amount: 6 },
        ]),
        "w1".to_string(),
    );
    assert!(res.is_ok());
    let wager = get_wager(&st, &"w1".to_string()).unwrap();
    assert_eq!(wager.user2_balance.native.len(), 1);
    assert_eq!(wager.user2_balance.native[0].amount, 10);
}

#[test]
fn test_winner_must_be_a_participant() {
    let mut st = created("creator", "user_a", "w1");
    execute_add_funds(
        &mut st,
        "user_b".to_string(),
        Balance::Native(coins(10, "uluna")),
        "w1".to_string(),
    )
    .unwrap();
    let res = execute_send_funds(
        &mut st,
        "creator".to_string(),
        "w1".to_string(),
        "user_c".to_string(),
    );
    assert_eq!(res.unwrap_err(), ContractError::UserDoesNotExist);
    assert!(get_wager(&st, &"w1".to_string()).is_ok());
}

#[test]
fn test_missing_wager_is_reported() {
    let mut st = init("creator");
    assert_eq!(
        get_wager(&st, &"ghost_wager".to_string()).unwrap_err(),
        ContractError::WagerDoesNotExist
    );
    assert_eq!(
        execute_add_funds(
            &mut st,
            "user_b".to_string(),
            Balance::Native(coins(10, "uluna")),
            "ghost_wager".to_string(),
        )
        .unwrap_err(),
        ContractError::WagerDoesNotExist
    );
    assert_eq!(
        execute_cancel(&mut st, "creator".to_string(), "ghost_wager".to_string()).unwrap_err(),
        ContractError::WagerDoesNotExist
    );
    assert_eq!(
        execute_send_funds(
            &mut st,
            "creator".to_string(),
            "ghost_wager".to_string(),
            "user_a".to_string(),
        )
        .unwrap_err(),
        ContractError::WagerDoesNotExist
    );
}

#[test]
fn test_all_wager_ids_is_sorted_ascending() {
    let mut st = init("creator");
    for id in ["delta", "alpha", "charlie", "bravo"] {
        execute_create_wager(
            &mut st,
            "user_a".to_string(),
            Balance::Native(coins(1, "uluna")),
            id.to_string(),
        )
        .unwrap();
    }
    let ids = all_wager_ids(&st.wagers);
    assert_eq!(ids, vec!["alpha", "bravo", "charlie", "delta"]);

    execute_cancel(&mut st, "user_a".to_string(), "bravo".to_string()).unwrap();
    let ids = all_wager_ids(&st.wagers);
    assert_eq!(ids, vec!["alpha", "charlie", "delta"]);
}

#[test]
fn test_store_create_load_update_remove() {
    let mut store = WagerStore::new();
    let wager = Wager {
        arbiter: "creator".to_string(),
        user1: "user_a".to_string(),
        user2: None,
        user1_balance: GenericBalance { native: coins(10, "uluna"), cw20: vec![] },
        user2_balance: GenericBalance::new(),
    };
    store.create("w1".to_string(), wager).unwrap();
    assert!(store.has(&"w1".to_string()));

    let another = Wager {
        arbiter: "creator".to_string(),
        user1: "user_a".to_string(),
        user2: None,
        user1_balance: GenericBalance::new(),
        user2_balance: GenericBalance::new(),
    };
    assert_eq!(
        store.create("w1".to_string(), another).unwrap_err(),
        ContractError::AlreadyInUse
    );

    let mut loaded = store.load(&"w1".to_string()).unwrap();
    loaded.user2 = Some("user_b".to_string());
    store.update(&"w1".to_string(), loaded).unwrap();
    let reloaded = store.load(&"w1".to_string()).unwrap();
    assert_eq!(reloaded.user2.as_deref(), Some("user_b"));

    let copy = store.load(&"w1".to_string()).unwrap();
    assert_eq!(
        store.update(&"w2".to_string(), copy).unwrap_err(),
        ContractError::WagerDoesNotExist
    );

    store.remove(&"w1".to_string());
    assert!(!store.has(&"w1".to_string()));
    assert_eq!(
        store.load(&"w1".to_string()).unwrap_err(),
        ContractError::WagerDoesNotExist
    );
    // Removing an absent id is not an error.
    store.remove(&"w1".to_string());
}

#[test]
fn test_is_valid_name_length_bounds() {
    assert!(!is_valid_name("ab"));
    assert!(is_valid_name("abc"));
    assert!(is_valid_name("abcdefghijklmnopqrst"));
    assert!(!is_valid_name("abcdefghijklmnopqrstu"));
}
