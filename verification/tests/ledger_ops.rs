//! The ledger state machine: transfer, mint, burn, approve, transfer-from,
//! and the read-only operations.

use token_ledger::{Account, BigNat, TokenState, TransferArgs, TransferError, TransferFromArgs};
use token_ledger::ApproveArgs;

fn acct(byte: u8) -> Account {
    Account { owner: vec![byte], subaccount: None }
}

fn demo_ledger(supply: u64, fee: u64, admin: u8) -> TokenState {
    TokenState::init(
        "Demo Token".to_string(),
        "DEMO".to_string(),
        8,
        None,
        None,
        BigNat::from_u64(supply),
        vec![admin],
        BigNat::from_u64(fee),
    )
}

fn plain_transfer(to: Account, amount: u64, fee: Option<u64>) -> TransferArgs {
    TransferArgs {
        from_subaccount: None,
        to,
        amount: BigNat::from_u64(amount),
        fee: fee.map(BigNat::from_u64),
        memo: None,
        created_at_time: None,
    }
}

fn sum_of_balances(st: &TokenState) -> BigNat {
    let mut total = BigNat::zero();
    for entry in st.get_all_accounts() {
        total = total.plus(&entry.balance);
    }
    total
}

#[test]
fn init_credits_the_administrator() {
    let st = demo_ledger(1_000_000_000, 10_000, 1);
    assert_eq!(st.balance_of(&acct(1)).to_dec_string(), "1000000000");
    assert_eq!(st.balance_of(&acct(2)).to_dec_string(), "0");
    assert_eq!(st.total_supply().to_dec_string(), "1000000000");
    assert_eq!(st.fee().to_dec_string(), "10000");
    assert_eq!(st.decimals(), 8);
    assert_eq!(st.name(), "Demo Token");
    assert_eq!(st.symbol(), "DEMO");
    assert_eq!(st.minting_account().owner, vec![1]);
    assert!(st.get_transactions(0).is_empty());
}

#[test]
fn transfer_moves_amount_and_burns_fee() {
    // init ledger "DEMO" with supply to the administrator, then one
    // explicit-fee transfer: amount credited, amount plus fee debited,
    // one log entry with id zero
    let mut st = demo_ledger(1_000_000_000, 10_000, 1);
    let r = st.transfer(&vec![1], &plain_transfer(acct(2), 1_000_000, Some(10_000)), 1_700_000_000);
    let id = r.expect("transfer should succeed");
    assert_eq!(id.to_dec_string(), "0");
    assert_eq!(st.balance_of(&acct(1)).to_dec_string(), "998990000");
    assert_eq!(st.balance_of(&acct(2)).to_dec_string(), "1000000");
    // the burned fee leaves the supply as well as the balances
    assert_eq!(st.total_supply().to_dec_string(), "999990000");
    let log = st.get_transactions(0);
    assert_eq!(log.len(), 1);
    assert_eq!(log[0].id, 0);
    assert_eq!(log[0].from.owner, vec![1]);
    assert_eq!(log[0].to.owner, vec![2]);
    assert_eq!(log[0].amount.to_dec_string(), "1000000");
}

#[test]
fn bad_fee_is_rejected_with_expected_fee() {
    let mut st = demo_ledger(1_000_000_000, 10_000, 1);
    let before = st.balance_of(&acct(1));
    let r = st.transfer(&vec![1], &plain_transfer(acct(2), 5, Some(9_999)), 0);
    match r {
        Err(TransferError::BadFee { expected_fee }) => {
            assert_eq!(expected_fee.to_dec_string(), "10000");
        },
        _ => panic!("expected BadFee"),
    }
    assert!(st.balance_of(&acct(1)).eq_value(&before));
    assert!(st.get_transactions(0).is_empty());
}

#[test]
fn overdraft_is_rejected_and_state_unchanged() {
    // an attempted overdraft is rejected; snapshot before and after match
    let mut st = demo_ledger(1_000, 10, 1);
    let before_1 = st.balance_of(&acct(1));
    let before_2 = st.balance_of(&acct(2));
    let supply_before = st.total_supply();
    let r = st.transfer(&vec![1], &plain_transfer(acct(2), 1_000, None), 0);
    match r {
        Err(TransferError::InsufficientFunds { balance }) => {
            assert_eq!(balance.to_dec_string(), "1000");
        },
        _ => panic!("expected InsufficientFunds"),
    }
    assert!(st.balance_of(&acct(1)).eq_value(&before_1));
    assert!(st.balance_of(&acct(2)).eq_value(&before_2));
    assert!(st.total_supply().eq_value(&supply_before));
    assert!(st.get_transactions(0).is_empty());
}

#[test]
fn created_in_future_and_too_old_guards() {
    let mut st = demo_ledger(1_000_000, 0, 1);
    let now: u64 = 1_000_000;
    let mut args = plain_transfer(acct(2), 1, None);
    args.created_at_time = Some(now + 121);
    match st.transfer(&vec![1], &args, now) {
        Err(TransferError::CreatedInFuture { ledger_time }) => assert_eq!(ledger_time, now),
        _ => panic!("expected CreatedInFuture"),
    }
    let mut args = plain_transfer(acct(2), 1, None);
    args.created_at_time = Some(now - 86_401);
    match st.transfer(&vec![1], &args, now) {
        Err(TransferError::TooOld) => {},
        _ => panic!("expected TooOld"),
    }
    // within both windows the transfer goes through
    let mut args = plain_transfer(acct(2), 1, None);
    args.created_at_time = Some(now - 100);
    assert!(st.transfer(&vec![1], &args, now).is_ok());
}

#[test]
fn conservation_after_every_operation() {
    // total_supply == sum(balances) after each transfer, mint and burn
    let mut st = demo_ledger(1_000_000, 0, 1);
    assert!(sum_of_balances(&st).eq_value(&st.total_supply()));
    st.transfer(&vec![1], &plain_transfer(acct(2), 300, None), 0).unwrap();
    assert!(sum_of_balances(&st).eq_value(&st.total_supply()));
    st.mint(&vec![1], &acct(3), &BigNat::from_u64(50), 0).unwrap();
    assert!(sum_of_balances(&st).eq_value(&st.total_supply()));
    st.burn(&vec![1], &acct(2), &BigNat::from_u64(100), 0).unwrap();
    assert!(sum_of_balances(&st).eq_value(&st.total_supply()));
    assert_eq!(st.total_supply().to_dec_string(), "999950");
}

#[test]
fn transfer_fee_is_burned_from_balances_and_supply() {
    // the fee reaches no collector: it leaves the payer's balance and the
    // recorded supply alike, so conservation holds with fees too
    let mut st = demo_ledger(1_000_000, 10, 1);
    st.transfer(&vec![1], &plain_transfer(acct(2), 300, None), 0).unwrap();
    assert_eq!(st.total_supply().to_dec_string(), "999990");
    assert_eq!(sum_of_balances(&st).to_dec_string(), "999990");
}

#[test]
fn mint_requires_the_minting_owner() {
    // a mint by a non-minting identity fails with the generic
    // authorization error and the supply is unchanged
    let mut st = demo_ledger(500, 0, 1);
    match st.mint(&vec![9], &acct(2), &BigNat::from_u64(100), 0) {
        Err(TransferError::GenericError { error_code, message }) => {
            assert_eq!(error_code.to_dec_string(), "1");
            assert_eq!(message, "Only minting account can mint tokens");
        },
        _ => panic!("expected GenericError"),
    }
    assert_eq!(st.total_supply().to_dec_string(), "500");
    assert!(st.get_transactions(0).is_empty());
}

#[test]
fn mint_credits_and_logs_from_minting_account() {
    let mut st = demo_ledger(500, 0, 1);
    let id = st.mint(&vec![1], &acct(2), &BigNat::from_u64(100), 7).unwrap();
    assert_eq!(id.to_dec_string(), "0");
    assert_eq!(st.balance_of(&acct(2)).to_dec_string(), "100");
    assert_eq!(st.total_supply().to_dec_string(), "600");
    let log = st.get_transactions(0);
    assert_eq!(log[0].from.owner, vec![1]);
    assert_eq!(log[0].to.owner, vec![2]);
    assert_eq!(log[0].timestamp, 7);
}

#[test]
fn burn_authorization_and_funds() {
    let mut st = demo_ledger(500, 0, 1);
    st.mint(&vec![1], &acct(2), &BigNat::from_u64(100), 0).unwrap();
    // a third party may not burn account 2's tokens
    match st.burn(&vec![3], &acct(2), &BigNat::from_u64(10), 0) {
        Err(TransferError::GenericError { error_code, message }) => {
            assert_eq!(error_code.to_dec_string(), "1");
            assert_eq!(message, "Not authorized to burn tokens");
        },
        _ => panic!("expected GenericError"),
    }
    // the holder may, but not beyond the balance
    match st.burn(&vec![2], &acct(2), &BigNat::from_u64(101), 0) {
        Err(TransferError::InsufficientFunds { balance }) => {
            assert_eq!(balance.to_dec_string(), "100");
        },
        _ => panic!("expected InsufficientFunds"),
    }
    st.burn(&vec![2], &acct(2), &BigNat::from_u64(40), 0).unwrap();
    // the minting owner may burn another account's tokens
    st.burn(&vec![1], &acct(2), &BigNat::from_u64(10), 0).unwrap();
    assert_eq!(st.balance_of(&acct(2)).to_dec_string(), "50");
    assert_eq!(st.total_supply().to_dec_string(), "550");
    // burns are logged toward the minting account
    let log = st.get_transactions(0);
    assert_eq!(log.last().unwrap().to.owner, vec![1]);
}

#[test]
fn approve_then_overspend_fails_with_allowance() {
    // approve 500 then transfer-from of 600 fails with the stored
    // allowance; balances and log are unchanged
    let mut st = demo_ledger(1_000_000, 0, 1);
    let approve = ApproveArgs {
        from_subaccount: None,
        spender: acct(5),
        amount: BigNat::from_u64(500),
        expected_allowance: None,
        expires_at: None,
        fee: None,
        memo: None,
        created_at_time: None,
    };
    st.approve(&vec![1], &approve).unwrap();
    let before = st.balance_of(&acct(1));
    let tf = TransferFromArgs {
        spender_subaccount: None,
        from: acct(1),
        to: acct(2),
        amount: BigNat::from_u64(600),
        fee: None,
        memo: None,
        created_at_time: None,
    };
    match st.transfer_from(&vec![5], &tf, 0) {
        Err(TransferError::InsufficientAllowance { allowance }) => {
            assert_eq!(allowance.to_dec_string(), "500");
        },
        _ => panic!("expected InsufficientAllowance"),
    }
    assert!(st.balance_of(&acct(1)).eq_value(&before));
    assert_eq!(st.balance_of(&acct(2)).to_dec_string(), "0");
    assert!(st.get_transactions(0).is_empty());
}

#[test]
fn transfer_from_decrements_allowance_exactly() {
    // allowance_after == allowance_before - amount; the fee comes out of
    // the balance, never out of the allowance
    let mut st = demo_ledger(1_000_000, 7, 1);
    let approve = ApproveArgs {
        from_subaccount: None,
        spender: acct(5),
        amount: BigNat::from_u64(500),
        expected_allowance: None,
        expires_at: None,
        fee: None,
        memo: None,
        created_at_time: None,
    };
    st.approve(&vec![1], &approve).unwrap();
    let tf = TransferFromArgs {
        spender_subaccount: None,
        from: acct(1),
        to: acct(2),
        amount: BigNat::from_u64(200),
        fee: None,
        memo: None,
        created_at_time: None,
    };
    st.transfer_from(&vec![5], &tf, 0).unwrap();
    let q = token_ledger::AllowanceArgs { account: acct(1), spender: acct(5) };
    assert_eq!(st.allowance(&q).to_dec_string(), "300");
    assert_eq!(st.balance_of(&acct(2)).to_dec_string(), "200");
    assert_eq!(st.balance_of(&acct(1)).to_dec_string(), "999793");
    assert_eq!(st.total_supply().to_dec_string(), "999993");
}

#[test]
fn approve_overwrites_and_checks_expected() {
    let mut st = demo_ledger(1_000, 0, 1);
    let mut approve = ApproveArgs {
        from_subaccount: None,
        spender: acct(5),
        amount: BigNat::from_u64(500),
        expected_allowance: None,
        expires_at: None,
        fee: None,
        memo: None,
        created_at_time: None,
    };
    st.approve(&vec![1], &approve).unwrap();
    // an optimistic check against a stale value fails
    approve.amount = BigNat::from_u64(900);
    approve.expected_allowance = Some(BigNat::from_u64(400));
    match st.approve(&vec![1], &approve) {
        Err(TransferError::GenericError { error_code, message }) => {
            assert_eq!(error_code.to_dec_string(), "2");
            assert_eq!(message, "Allowance mismatch");
        },
        _ => panic!("expected GenericError"),
    }
    let q = token_ledger::AllowanceArgs { account: acct(1), spender: acct(5) };
    assert_eq!(st.allowance(&q).to_dec_string(), "500");
    // the matching check overwrites (not adds)
    approve.expected_allowance = Some(BigNat::from_u64(500));
    st.approve(&vec![1], &approve).unwrap();
    assert_eq!(st.allowance(&q).to_dec_string(), "900");
}

#[test]
fn log_is_dense_after_mutating_calls() {
    // after five successful mutating calls the log holds exactly five
    // entries with ids zero through four in order
    let mut st = demo_ledger(1_000_000, 0, 1);
    for _ in 0..3 {
        st.transfer(&vec![1], &plain_transfer(acct(2), 10, None), 0).unwrap();
    }
    st.mint(&vec![1], &acct(3), &BigNat::from_u64(5), 0).unwrap();
    st.burn(&vec![1], &acct(3), &BigNat::from_u64(5), 0).unwrap();
    let log = st.get_transactions(0);
    assert_eq!(log.len(), 5);
    for (i, tx) in log.iter().enumerate() {
        assert_eq!(tx.id, i as u64);
    }
}

#[test]
fn read_miss_defaults() {
    // an account never credited reads zero; an empty log stays empty for
    // every limit
    let st = demo_ledger(1_000, 0, 1);
    assert_eq!(st.balance_of(&acct(200)).to_dec_string(), "0");
    let with_sub = Account { owner: vec![1], subaccount: Some(vec![0u8; 32]) };
    assert_eq!(st.balance_of(&with_sub).to_dec_string(), "0");
    assert!(st.get_transactions(0).is_empty());
    assert!(st.get_transactions(1).is_empty());
    assert!(st.get_transactions(50).is_empty());
    let q = token_ledger::AllowanceArgs { account: acct(1), spender: acct(2) };
    assert_eq!(st.allowance(&q).to_dec_string(), "0");
}

#[test]
fn transaction_queries_order_and_bound() {
    // a zero or oversized limit returns the whole log in original order;
    // a smaller limit returns the most recent entries newest first
    let mut st = demo_ledger(1_000_000, 0, 1);
    for _ in 0..5 {
        st.transfer(&vec![1], &plain_transfer(acct(2), 10, None), 0).unwrap();
    }
    let all = st.get_transactions(0);
    assert_eq!(all.iter().map(|t| t.id).collect::<Vec<_>>(), vec![0, 1, 2, 3, 4]);
    let all_over = st.get_transactions(9);
    assert_eq!(all_over.iter().map(|t| t.id).collect::<Vec<_>>(), vec![0, 1, 2, 3, 4]);
    let two = st.get_transactions(2);
    assert_eq!(two.iter().map(|t| t.id).collect::<Vec<_>>(), vec![4, 3]);
    // a limit equal to the log's length still bounds: newest first
    let exact = st.get_transactions(5);
    assert_eq!(exact.iter().map(|t| t.id).collect::<Vec<_>>(), vec![4, 3, 2, 1, 0]);
}

#[test]
fn subaccounts_hold_distinct_balances() {
    let mut st = demo_ledger(1_000, 0, 1);
    let sub = Account { owner: vec![2], subaccount: Some(vec![7u8; 32]) };
    st.transfer(&vec![1], &plain_transfer(sub.clone(), 100, None), 0).unwrap();
    st.transfer(&vec![1], &plain_transfer(acct(2), 30, None), 0).unwrap();
    assert_eq!(st.balance_of(&sub).to_dec_string(), "100");
    assert_eq!(st.balance_of(&acct(2)).to_dec_string(), "30");
}

#[test]
fn self_transfer_costs_only_the_fee() {
    let mut st = demo_ledger(1_000, 3, 1);
    st.transfer(&vec![1], &plain_transfer(acct(1), 100, None), 0).unwrap();
    assert_eq!(st.balance_of(&acct(1)).to_dec_string(), "997");
    assert_eq!(st.total_supply().to_dec_string(), "997");
}

#[test]
fn icrc1_metadata_entries_are_sorted() {
    let st = TokenState::init(
        "Demo Token".to_string(),
        "DEMO".to_string(),
        8,
        Some("a demo".to_string()),
        None,
        BigNat::from_u64(5),
        vec![1],
        BigNat::from_u64(0),
    );
    let meta = st.icrc1_metadata();
    let keys: Vec<&str> = meta.iter().map(|p| p.0.as_str()).collect();
    assert_eq!(keys, vec!["icrc1:decimals", "icrc1:description", "icrc1:name", "icrc1:symbol"]);
    assert_eq!(meta[0].1, "8");
    assert_eq!(meta[1].1, "a demo");
    assert_eq!(meta[2].1, "Demo Token");
    assert_eq!(meta[3].1, "DEMO");
}
