use ben::money::{checked_sum, purchase_size, sale_size, value_at, SCALE};

#[test]
fn scale_is_a_million() {
    assert_eq!(SCALE, 1_000_000);
}

#[test]
fn purchase_divides_fiat_by_price() {
    // 50 units of fiat at 25 000 per coin buy 0.002 coins.
    assert_eq!(purchase_size(50 * SCALE, 25_000 * SCALE), Some(2_000));
    // 1 unit at 3 per coin buys a third of a coin, rounded down.
    assert_eq!(purchase_size(SCALE, 3 * SCALE), Some(333_333));
}

#[test]
fn purchase_rounds_down_to_nothing() {
    assert_eq!(purchase_size(1, 25_000 * SCALE), Some(0));
    assert_eq!(purchase_size(24_999, 25_000 * SCALE), Some(0));
    assert_eq!(purchase_size(25_000, 25_000 * SCALE), Some(1));
}

#[test]
fn purchase_refuses_what_is_not_positive() {
    assert_eq!(purchase_size(0, SCALE), None);
    assert_eq!(purchase_size(-5, SCALE), None);
    assert_eq!(purchase_size(5, 0), None);
    assert_eq!(purchase_size(5, -1), None);
}

#[test]
fn purchase_refuses_what_cannot_be_held() {
    // At the smallest price every unit of fiat buys a million coins.
    assert_eq!(purchase_size(i64::MAX, 1), None);
    assert_eq!(purchase_size(i64::MAX, SCALE), Some(i64::MAX));
}

#[test]
fn sale_divides_fiat_by_price_rounding_up() {
    assert_eq!(sale_size(50 * SCALE, 25_000 * SCALE), Some(2_000));
    assert_eq!(sale_size(SCALE, 3 * SCALE), Some(333_334));
    assert_eq!(sale_size(1, 25_000 * SCALE), Some(1));
    assert_eq!(sale_size(49_999, 25_000 * SCALE), Some(2));
    assert_eq!(sale_size(50_000, 25_000 * SCALE), Some(2));
    assert_eq!(sale_size(50_001, 25_000 * SCALE), Some(3));
}

#[test]
fn sale_refuses_what_is_not_positive_or_cannot_be_held() {
    assert_eq!(sale_size(0, SCALE), None);
    assert_eq!(sale_size(-1, SCALE), None);
    assert_eq!(sale_size(1, 0), None);
    assert_eq!(sale_size(i64::MAX, 1), None);
}

#[test]
fn value_multiplies_coins_by_price() {
    assert_eq!(value_at(2_000, 25_000 * SCALE), Some(50 * SCALE));
    assert_eq!(value_at(333_333, 3 * SCALE), Some(999_999));
    assert_eq!(value_at(0, 25_000 * SCALE), Some(0));
    assert_eq!(value_at(7, 0), Some(0));
    assert_eq!(value_at(1, 1), Some(0));
}

#[test]
fn value_refuses_negatives_and_what_cannot_be_held() {
    assert_eq!(value_at(-1, SCALE), None);
    assert_eq!(value_at(1, -1), None);
    assert_eq!(value_at(i64::MAX, 2 * SCALE), None);
    assert_eq!(value_at(i64::MAX, SCALE), Some(i64::MAX));
}

#[test]
fn buying_then_selling_never_gains() {
    let prices = [1, 3, 7, 999_999, SCALE, 25_000 * SCALE, 1_234_567_891];
    let amounts = [1, 2, 999, 49_999, SCALE, 50 * SCALE, 987_654_321];
    for price in prices {
        for fiat in amounts {
            let coins = purchase_size(fiat, price).unwrap();
            assert!(value_at(coins, price).unwrap() <= fiat);
            let given_up = sale_size(fiat, price).unwrap();
            assert!(given_up >= 1);
            assert!(value_at(given_up, price).unwrap() >= fiat);
        }
    }
}

#[test]
fn checked_sum_adds_or_refuses() {
    assert_eq!(checked_sum(2, 3), Some(5));
    assert_eq!(checked_sum(-2, 3), Some(1));
    assert_eq!(checked_sum(i64::MAX, 0), Some(i64::MAX));
    assert_eq!(checked_sum(i64::MAX, 1), None);
    assert_eq!(checked_sum(i64::MIN, -1), None);
    assert_eq!(checked_sum(i64::MIN, i64::MAX), Some(-1));
}
