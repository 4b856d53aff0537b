//! Arbitrary-precision amounts: arithmetic, comparison, and decimal text.

use token_ledger::BigNat;

#[test]
fn zero_reads_as_zero() {
    assert_eq!(BigNat::zero().to_dec_string(), "0");
    assert_eq!(BigNat::from_u64(0).to_dec_string(), "0");
}

#[test]
fn small_values_read_back() {
    assert_eq!(BigNat::from_u64(7).to_dec_string(), "7");
    assert_eq!(BigNat::from_u64(10).to_dec_string(), "10");
    assert_eq!(BigNat::from_u64(1_000_000_000).to_dec_string(), "1000000000");
    assert_eq!(BigNat::from_u64(u64::MAX).to_dec_string(), "18446744073709551615");
}

#[test]
fn addition_carries_beyond_machine_width() {
    let a = BigNat::from_u64(u64::MAX);
    let sum = a.plus(&a);
    assert_eq!(sum.to_dec_string(), "36893488147419103230");
}

#[test]
fn subtraction_borrows() {
    let a = BigNat::from_u64(1_000_000);
    let b = BigNat::from_u64(999_999);
    assert_eq!(a.minus(&b).to_dec_string(), "1");
    assert_eq!(a.minus(&a).to_dec_string(), "0");
    let big = BigNat::from_u64(u64::MAX).plus(&BigNat::from_u64(1));
    assert_eq!(big.minus(&BigNat::from_u64(1)).to_dec_string(), "18446744073709551615");
}

#[test]
fn comparisons_follow_values() {
    let a = BigNat::from_u64(500);
    let b = BigNat::from_u64(600);
    assert!(a.le(&b));
    assert!(a.lt(&b));
    assert!(!b.le(&a));
    assert!(a.le(&a));
    assert!(!a.lt(&a));
    assert!(a.eq_value(&BigNat::from_u64(500)));
    assert!(!a.eq_value(&b));
    // equal values with different digit counts never arise: canonical form
    let h = BigNat::from_u64(100);
    assert!(BigNat::from_u64(99).lt(&h));
}

#[test]
fn parsing_round_trips() {
    let v = BigNat::from_dec_str("36893488147419103230").unwrap();
    assert_eq!(v.to_dec_string(), "36893488147419103230");
    assert!(v.eq_value(&BigNat::from_u64(u64::MAX).plus(&BigNat::from_u64(u64::MAX))));
    assert_eq!(BigNat::from_dec_str("0").unwrap().to_dec_string(), "0");
    assert_eq!(BigNat::from_dec_str("007").unwrap().to_dec_string(), "7");
    assert_eq!(BigNat::from_dec_str("").unwrap().to_dec_string(), "0");
    assert!(BigNat::from_dec_str("12a4").is_none());
    assert!(BigNat::from_dec_str("-5").is_none());
}

#[test]
fn clone_preserves_value() {
    let a = BigNat::from_u64(123_456_789);
    let b = a.clone();
    assert!(a.eq_value(&b));
    assert_eq!(b.to_dec_string(), "123456789");
}
