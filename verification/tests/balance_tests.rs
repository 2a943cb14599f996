use wager::balance::{Balance, Coin, Cw20Coin, GenericBalance};

fn coins(amount: u128, denom: &str) -> Vec<Coin> {
    vec![Coin { denom: denom.to_string(), amount }]
}

#[test]
fn test_new_generic_balance() {
    let generic_balance = GenericBalance::new();
    assert_eq!(generic_balance.native.len(), 0);
    assert_eq!(generic_balance.cw20.len(), 0);
}

#[test]
fn test_add_tokens_new_native() {
    let mut generic_balance = GenericBalance::new();
    let balance = Balance::Native(coins(10, "uluna"));
    generic_balance.add_tokens(balance);
    assert_eq!(generic_balance.native.len(), 1);
    assert_eq!(generic_balance.native[0].denom, "uluna");
    assert_eq!(generic_balance.native[0].amount, 10);
    assert_eq!(generic_balance.cw20.len(), 0);
}

#[test]
fn test_add_tokens_new_cw20() {
    let mut generic_balance = GenericBalance::new();
    let cw20 = Cw20Coin { address: "cw20-token".to_string(), amount: 100 };
    let balance = Balance::Cw20(cw20);
    generic_balance.add_tokens(balance);
    assert_eq!(generic_balance.native.len(), 0);
    assert_eq!(generic_balance.cw20.len(), 1);
    assert_eq!(generic_balance.cw20[0].address, "cw20-token");
    assert_eq!(generic_balance.cw20[0].amount, 100);
}

#[test]
fn test_add_tokens_existing_native() {
    let mut generic_balance = GenericBalance { native: coins(10, "uluna"), cw20: vec![] };
    let balance = Balance::Native(coins(10, "uluna"));
    generic_balance.add_tokens(balance);
    assert_eq!(generic_balance.native.len(), 1);
    assert_eq!(generic_balance.native[0].amount, 20);
}

#[test]
fn test_add_tokens_existing_cw20() {
    let cw20 = Cw20Coin { address: "cw20-token".to_string(), amount: 100 };
    let mut generic_balance = GenericBalance { native: vec![], cw20: vec![cw20] };
    let balance = Balance::Cw20(Cw20Coin { address: "cw20-token".to_string(), amount: 100 });
    generic_balance.add_tokens(balance);
    assert_eq!(generic_balance.cw20.len(), 1);
    assert_eq!(generic_balance.cw20[0].amount, 200);
}

#[test]
fn test_equals_is_order_independent() {
    let a = GenericBalance {
        native: vec![
            Coin { denom: "uluna".to_string(), amount: 10 },
            Coin { denom: "uusd".to_string(), amount: 7 },
        ],
        cw20: vec![],
    };
    let b = GenericBalance {
        native: vec![
            Coin { denom: "uusd".to_string(), amount: 7 },
            Coin { denom: "uluna".to_string(), amount: 10 },
        ],
        cw20: vec![],
    };
    assert!(a.equals(&b));
    assert!(b.equals(&a));
}

#[test]
fn test_equals_detects_amount_mismatch() {
    let a = GenericBalance { native: coins(10, "uluna"), cw20: vec![] };
    let b = GenericBalance { native: coins(9, "uluna"), cw20: vec![] };
    let c = GenericBalance { native: coins(10, "uusd"), cw20: vec![] };
    assert!(!a.equals(&b));
    assert!(!a.equals(&c));
    assert!(!a.equals(&GenericBalance::new()));
}

#[test]
fn test_can_add_detects_overflow() {
    let full = GenericBalance { native: coins(u128::MAX, "uluna"), cw20: vec![] };
    let more = Balance::Native(coins(1, "uluna"));
    let other = Balance::Native(coins(1, "uusd"));
    assert!(!full.can_add(&more));
    assert!(full.can_add(&other));
}

#[test]
fn test_is_wf_rejects_duplicate_denomination() {
    let dup = Balance::Native(vec![
        Coin { denom: "uluna".to_string(), amount: 5 },
        Coin { denom: "uluna".to_string(), amount: 5 },
    ]);
    let ok = Balance::Native(coins(10, "uluna"));
    assert!(!dup.is_wf());
    assert!(ok.is_wf());
}
