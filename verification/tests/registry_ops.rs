//! The symbol-keyed registry and its call surface.

use token_ledger::{APIResponse, Account, BigNat, Registry, TransferArgs, TransferError};
use token_ledger::registry::{
    icrc2_allowance, icrc2_balance_of, icrc2_decimals, icrc2_fee, icrc2_get_all_accounts,
    icrc2_get_all_records, icrc2_get_transactions, icrc2_init, icrc2_metadata,
    icrc2_minting_account, icrc2_mint, icrc2_name, icrc2_symbol, icrc2_total_supply,
    icrc2_transfer, minted_text, my_tokens,
};

fn acct(byte: u8) -> Account {
    Account { owner: vec![byte], subaccount: None }
}

fn demo_registry() -> Registry {
    let mut reg = Registry::new();
    let r = icrc2_init(
        &mut reg,
        "Demo Token".to_string(),
        "DEMO".to_string(),
        8,
        None,
        None,
        BigNat::from_u64(1_000_000_000),
        vec![1],
        BigNat::from_u64(10_000),
    );
    match r {
        APIResponse::Text(t) => assert_eq!(
            t,
            "ICRC-2 token initialized with name: Demo Token, symbol: DEMO, \
             decimals: 8, total_supply: 1000000000, fee: 10000"
        ),
        _ => panic!("expected Text"),
    }
    reg
}

#[test]
fn init_registers_and_reports() {
    let reg = demo_registry();
    let sym = "DEMO".to_string();
    assert_eq!(icrc2_name(&reg, &sym), "Demo Token");
    assert_eq!(icrc2_symbol(&reg, &sym), "DEMO");
    assert_eq!(icrc2_decimals(&reg, &sym), 8);
    assert_eq!(icrc2_fee(&reg, &sym).to_dec_string(), "10000");
    assert_eq!(icrc2_total_supply(&reg, &sym).to_dec_string(), "1000000000");
    assert_eq!(icrc2_minting_account(&reg, &sym).unwrap().owner, vec![1]);
    assert_eq!(icrc2_balance_of(&reg, &acct(1), &sym).to_dec_string(), "1000000000");
}

#[test]
fn reinitialization_is_rejected() {
    let mut reg = demo_registry();
    let r = icrc2_init(
        &mut reg,
        "Other".to_string(),
        "DEMO".to_string(),
        2,
        None,
        None,
        BigNat::from_u64(5),
        vec![9],
        BigNat::from_u64(0),
    );
    match r {
        APIResponse::Text(t) => assert_eq!(t, "Token already registered under this symbol"),
        _ => panic!("expected Text"),
    }
    // the first registration stands
    assert_eq!(icrc2_name(&reg, &"DEMO".to_string()), "Demo Token");
    assert_eq!(icrc2_total_supply(&reg, &"DEMO".to_string()).to_dec_string(), "1000000000");
}

#[test]
fn lookup_misses_degrade_gracefully() {
    let reg = demo_registry();
    let missing = "NOPE".to_string();
    assert_eq!(icrc2_name(&reg, &missing), "");
    assert_eq!(icrc2_symbol(&reg, &missing), "");
    assert_eq!(icrc2_decimals(&reg, &missing), 8);
    assert_eq!(icrc2_fee(&reg, &missing).to_dec_string(), "0");
    assert_eq!(icrc2_total_supply(&reg, &missing).to_dec_string(), "0");
    assert!(icrc2_minting_account(&reg, &missing).is_none());
    assert_eq!(icrc2_balance_of(&reg, &acct(1), &missing).to_dec_string(), "0");
    let q = token_ledger::AllowanceArgs { account: acct(1), spender: acct(2) };
    assert_eq!(icrc2_allowance(&reg, &q, &missing).to_dec_string(), "0");
    assert!(icrc2_get_transactions(&reg, 0, &missing).is_empty());
    assert!(icrc2_get_all_accounts(&reg, &missing).is_empty());
    match icrc2_metadata(&reg, &missing) {
        APIResponse::Text(t) => assert_eq!(t, "Token not found"),
        _ => panic!("expected Text"),
    }
}

#[test]
fn registry_transfer_touches_only_its_ledger() {
    let mut reg = demo_registry();
    icrc2_init(
        &mut reg,
        "Second".to_string(),
        "TWO".to_string(),
        2,
        None,
        None,
        BigNat::from_u64(777),
        vec![3],
        BigNat::from_u64(0),
    );
    let sym = "DEMO".to_string();
    let args = TransferArgs {
        from_subaccount: None,
        to: acct(2),
        amount: BigNat::from_u64(1_000_000),
        fee: Some(BigNat::from_u64(10_000)),
        memo: None,
        created_at_time: None,
    };
    let id = icrc2_transfer(&mut reg, &sym, &args, &vec![1], 0).unwrap();
    assert_eq!(id.to_dec_string(), "0");
    assert_eq!(icrc2_balance_of(&reg, &acct(1), &sym).to_dec_string(), "998990000");
    assert_eq!(icrc2_balance_of(&reg, &acct(2), &sym).to_dec_string(), "1000000");
    // the burned fee left this ledger's supply
    assert_eq!(icrc2_total_supply(&reg, &sym).to_dec_string(), "999990000");
    // the other ledger is untouched
    assert_eq!(icrc2_total_supply(&reg, &"TWO".to_string()).to_dec_string(), "777");
    assert!(icrc2_get_transactions(&reg, 0, &"TWO".to_string()).is_empty());
}

#[test]
fn registry_transfer_propagates_errors() {
    let mut reg = demo_registry();
    let sym = "DEMO".to_string();
    let args = TransferArgs {
        from_subaccount: None,
        to: acct(2),
        amount: BigNat::from_u64(5),
        fee: None,
        memo: None,
        created_at_time: None,
    };
    // account 2 holds nothing yet
    match icrc2_transfer(&mut reg, &sym, &args, &vec![2], 0) {
        Err(TransferError::InsufficientFunds { balance }) => {
            assert_eq!(balance.to_dec_string(), "0");
        },
        _ => panic!("expected InsufficientFunds"),
    }
}

#[test]
fn registry_mint_refusal_is_structured() {
    let mut reg = demo_registry();
    let sym = "DEMO".to_string();
    // a non-minting identity gets the structured authorization error and
    // the supply is unchanged
    match icrc2_mint(&mut reg, &acct(2), &BigNat::from_u64(10), &sym, &vec![9], 0) {
        Err(TransferError::GenericError { error_code, message }) => {
            assert_eq!(error_code.to_dec_string(), "1");
            assert_eq!(message, "Only minting account can mint tokens");
        },
        _ => panic!("expected GenericError"),
    }
    assert_eq!(icrc2_total_supply(&reg, &sym).to_dec_string(), "1000000000");
    // the minting owner succeeds with the new transaction's id
    let anonymous = Account { owner: vec![4], subaccount: None };
    let id = icrc2_mint(&mut reg, &anonymous, &BigNat::from_u64(10), &sym, &vec![1], 0).unwrap();
    assert_eq!(id.to_dec_string(), "0");
    assert_eq!(icrc2_total_supply(&reg, &sym).to_dec_string(), "1000000010");
    assert_eq!(icrc2_balance_of(&reg, &anonymous, &sym).to_dec_string(), "10");
}

#[test]
fn minted_text_renders_amount_and_principal() {
    // the textual status line a hosting surface shows for a mint
    let text = minted_text(&BigNat::from_u64(10), &vec![4]);
    assert_eq!(text, "Minted 10 tokens to 2vxsx-fae");
}

#[test]
fn metadata_renders_owner_as_principal_text() {
    let mut reg = Registry::new();
    icrc2_init(
        &mut reg,
        "Anon Coin".to_string(),
        "ANON".to_string(),
        2,
        Some("coined by nobody".to_string()),
        None,
        BigNat::from_u64(42),
        vec![4],
        BigNat::from_u64(1),
    );
    match icrc2_metadata(&reg, &"ANON".to_string()) {
        APIResponse::PairList(pairs) => {
            let find = |k: &str| {
                pairs.iter().find(|p| p.0 == k).map(|p| p.1.clone()).unwrap()
            };
            assert_eq!(find("name"), "Anon Coin");
            assert_eq!(find("symbol"), "ANON");
            assert_eq!(find("decimals"), "2");
            assert_eq!(find("total_supply"), "42");
            assert_eq!(find("owner"), "2vxsx-fae");
            assert_eq!(find("fee"), "1");
            assert_eq!(find("description"), "coined by nobody");
            assert!(pairs.iter().all(|p| p.0 != "logo"));
        },
        _ => panic!("expected PairList"),
    }
}

#[test]
fn records_and_ownership_filters() {
    let mut reg = demo_registry();
    icrc2_init(
        &mut reg,
        "Second".to_string(),
        "TWO".to_string(),
        2,
        None,
        None,
        BigNat::from_u64(777),
        vec![3],
        BigNat::from_u64(0),
    );
    match icrc2_get_all_records(&reg) {
        APIResponse::PairList(pairs) => {
            assert_eq!(
                pairs,
                vec![
                    ("DEMO".to_string(), "Demo Token".to_string()),
                    ("TWO".to_string(), "Second".to_string()),
                ]
            );
        },
        _ => panic!("expected PairList"),
    }
    match my_tokens(&reg, &vec![3]) {
        APIResponse::PairList(pairs) => {
            assert_eq!(pairs, vec![("TWO".to_string(), "Second".to_string())]);
        },
        _ => panic!("expected PairList"),
    }
    match my_tokens(&reg, &vec![42]) {
        APIResponse::PairList(pairs) => assert!(pairs.is_empty()),
        _ => panic!("expected PairList"),
    }
}
