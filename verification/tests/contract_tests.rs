use wager::balance::Coin;
use wager::contract::{
    execute, get_wager, instantiate, query, query_config, receive_cw20, ContractState,
    QueryAnswer, TransferInstruction,
};
use wager::msg::{Cw20HookMsg, ExecuteMsg, InstantiateMsg, QueryMsg};

fn coins(amount: u128, denom: &str) -> Vec<Coin> {
    vec![Coin { denom: denom.to_string(), amount }]
}

fn init(creator: &str) -> ContractState {
    let msg = InstantiateMsg { sender: creator.to_string() };
    instantiate(creator.to_string(), msg)
}

#[test]
fn test_initialization() {
    let st = init("creator");
    let config = query_config(&st);
    assert_eq!(config.creator, "creator");
    assert_eq!(config.owner, "creator");
}

#[test]
fn test_execute_create_wager_native() {
    let mut st = init("creator");
    let wager_id = String::from("test_id");

    execute(
        &mut st,
        "new_user".to_string(),
        coins(10, "uluna"),
        ExecuteMsg::CreateWager { wager_id: wager_id.clone() },
    )
    .unwrap();

    let wager = get_wager(&st, &wager_id).unwrap();
    assert_eq!(wager.arbiter, "creator");
    assert_eq!(wager.user1, "new_user");
    assert!(wager.user2.is_none());
    assert_eq!(wager.user1_balance.native.len(), 1);
    assert_eq!(wager.user1_balance.native[0].denom, "uluna");
    assert_eq!(wager.user1_balance.native[0].amount, 10);
    assert_eq!(wager.user1_balance.cw20.len(), 0);
    assert_eq!(wager.user2_balance.native.len(), 0);
    assert_eq!(wager.user2_balance.cw20.len(), 0);
}

#[test]
fn test_execute_create_wager_cw20() {
    let mut st = init("creator");
    let wager_id = String::from("test_id");

    receive_cw20(
        &mut st,
        "cw20-token".to_string(),
        "new_user".to_string(),
        100,
        Cw20HookMsg::CreateWager { wager_id: wager_id.clone() },
    )
    .unwrap();

    let wager = get_wager(&st, &wager_id).unwrap();
    assert_eq!(wager.arbiter, "creator");
    assert_eq!(wager.user1, "new_user");
    assert!(wager.user2.is_none());
    assert_eq!(wager.user1_balance.native.len(), 0);
    assert_eq!(wager.user1_balance.cw20.len(), 1);
    assert_eq!(wager.user1_balance.cw20[0].address, "cw20-token");
    assert_eq!(wager.user1_balance.cw20[0].amount, 100);
    assert_eq!(wager.user2_balance.native.len(), 0);
    assert_eq!(wager.user2_balance.cw20.len(), 0);
}

#[test]
fn test_execute_add_funds_cw20() {
    let mut st = init("creator");
    let wager_id = String::from("test_id");

    receive_cw20(
        &mut st,
        "cw20-token".to_string(),
        "new_user".to_string(),
        100,
        Cw20HookMsg::CreateWager { wager_id: wager_id.clone() },
    )
    .unwrap();

    let res_add_funds_unsuccessfully = receive_cw20(
        &mut st,
        "cw20-token".to_string(),
        "new_user2".to_string(),
        99,
        Cw20HookMsg::AddFunds { wager_id: wager_id.clone() },
    );
    assert!(res_add_funds_unsuccessfully.is_err());

    receive_cw20(
        &mut st,
        "cw20-token".to_string(),
        "new_user2".to_string(),
        100,
        Cw20HookMsg::AddFunds { wager_id: wager_id.clone() },
    )
    .unwrap();

    let wager = get_wager(&st, &wager_id).unwrap();
    assert_eq!(wager.arbiter, "creator");
    assert_eq!(wager.user1, "new_user");
    assert_eq!(wager.user2.as_deref(), Some("new_user2"));
    assert_eq!(wager.user1_balance.cw20.len(), 1);
    assert_eq!(wager.user1_balance.cw20[0].address, "cw20-token");
    assert_eq!(wager.user1_balance.cw20[0].amount, 100);
    assert_eq!(wager.user2_balance.cw20.len(), 1);
    assert_eq!(wager.user2_balance.cw20[0].address, "cw20-token");
    assert_eq!(wager.user2_balance.cw20[0].amount, 100);
    assert!(wager.user1_balance.equals(&wager.user2_balance));
}

#[test]
fn test_execute_cancel_wager() {
    let mut st = init("creator");
    let wager_id = String::from("test_id");

    execute(
        &mut st,
        "new_user".to_string(),
        coins(10, "uluna"),
        ExecuteMsg::CreateWager { wager_id: wager_id.clone() },
    )
    .unwrap();

    let res_cancel_fail = execute(
        &mut st,
        "sneaky_user".to_string(),
        vec![],
        ExecuteMsg::Cancel { wager_id: wager_id.clone() },
    );
    assert!(res_cancel_fail.is_err());

    execute(
        &mut st,
        "new_user".to_string(),
        vec![],
        ExecuteMsg::Cancel { wager_id: wager_id.clone() },
    )
    .unwrap();

    // wager doesn't exist.
    assert!(query(&st, QueryMsg::Wager { id: wager_id }).is_err());
}

#[test]
fn test_execute_send_funds_native() {
    let mut st = init("creator");
    let wager_id = String::from("test_id");

    execute(
        &mut st,
        "new_user".to_string(),
        coins(10, "uluna"),
        ExecuteMsg::CreateWager { wager_id: wager_id.clone() },
    )
    .unwrap();

    execute(
        &mut st,
        "new_user2".to_string(),
        coins(10, "uluna"),
        ExecuteMsg::AddFunds { wager_id: wager_id.clone() },
    )
    .unwrap();

    let res_send_funds_fail = execute(
        &mut st,
        "new_user".to_string(),
        vec![],
        ExecuteMsg::SendFunds {
            wager_id: wager_id.clone(),
            winner_address: "new_user".to_string(),
        },
    );
    assert!(res_send_funds_fail.is_err());

    let res_send_funds_success = execute(
        &mut st,
        "creator".to_string(),
        vec![],
        ExecuteMsg::SendFunds {
            wager_id: wager_id.clone(),
            winner_address: "new_user".to_string(),
        },
    )
    .unwrap();

    // Wager was paid out and deleted.
    assert!(query(&st, QueryMsg::Wager { id: wager_id }).is_err());

    assert_eq!(res_send_funds_success.messages.len(), 2);
    for message in &res_send_funds_success.messages {
        match message {
            TransferInstruction::Native { to_address, amount } => {
                assert_eq!(to_address, "new_user");
                assert_eq!(amount.len(), 1);
                assert_eq!(amount[0].denom, "uluna");
                assert_eq!(amount[0].amount, 10);
            }
            TransferInstruction::Token { .. } => panic!("expected a native transfer"),
        }
    }
}

#[test]
fn test_execute_send_funds_cw20() {
    let mut st = init("creator");
    let wager_id = String::from("test_id");

    receive_cw20(
        &mut st,
        "cw20-token".to_string(),
        "new_user".to_string(),
        100,
        Cw20HookMsg::CreateWager { wager_id: wager_id.clone() },
    )
    .unwrap();

    receive_cw20(
        &mut st,
        "cw20-token".to_string(),
        "new_user2".to_string(),
        100,
        Cw20HookMsg::AddFunds { wager_id: wager_id.clone() },
    )
    .unwrap();

    let res_send_funds_fail = execute(
        &mut st,
        "new_user".to_string(),
        vec![],
        ExecuteMsg::SendFunds {
            wager_id: wager_id.clone(),
            winner_address: "new_user".to_string(),
        },
    );
    assert!(res_send_funds_fail.is_err());

    let res_send_funds_success = execute(
        &mut st,
        "creator".to_string(),
        vec![],
        ExecuteMsg::SendFunds {
            wager_id: wager_id.clone(),
            winner_address: "new_user".to_string(),
        },
    )
    .unwrap();

    // Wager was paid out and deleted.
    assert!(query(&st, QueryMsg::Wager { id: wager_id }).is_err());

    assert_eq!(res_send_funds_success.messages.len(), 2);
    for message in &res_send_funds_success.messages {
        match message {
            TransferInstruction::Token { contract_addr, recipient, amount } => {
                assert_eq!(contract_addr, "cw20-token");
                assert_eq!(recipient, "new_user");
                assert_eq!(*amount, 100);
            }
            TransferInstruction::Native { .. } => panic!("expected a token transfer"),
        }
    }
}

#[test]
fn test_query_config_answer() {
    let st = init("creator");
    match query(&st, QueryMsg::Config {}).unwrap() {
        QueryAnswer::Config(config) => {
            assert_eq!(config.creator, "creator");
            assert_eq!(config.owner, "creator");
        }
        QueryAnswer::Wager(_) => panic!("expected the configuration"),
    }
}
