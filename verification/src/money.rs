//! Fixed-point amounts.
//!
//! Every quantity the ledger holds, be it a fiat balance, a coin holding or
//! a price, is an `i64` count of millionths of a unit. Conversions between
//! fiat and coins round against the one who trades, so that no trade leaves
//! its maker worth more than before.

use vstd::prelude::*;

verus! {

/// How many stored units make one whole unit of fiat or of a coin.
pub const SCALE: i64 = 1_000_000;

/// The coins that `fiat` buys at `price`, rounded down.
pub open spec fn coins_bought(fiat: int, price: int) -> int {
    fiat * SCALE / price
}

/// The coins that have to be given up to receive `fiat` at `price`,
/// rounded up.
pub open spec fn coins_sold(fiat: int, price: int) -> int {
    (fiat * SCALE + price - 1) / price
}

/// The fiat that `coins` are worth at `price`, rounded down.
pub open spec fn fiat_value(coins: int, price: int) -> int {
    coins * price / (SCALE as int)
}

/// Whether an integer is a value an amount can hold.
pub open spec fn fits(x: int) -> bool {
    i64::MIN <= x <= i64::MAX
}

/// What `purchase_size` returns: the coins bought, where both inputs are
/// positive and the quotient is an amount.
pub open spec fn purchase_size_spec(fiat: int, price: int) -> Option<i64> {
    if fiat > 0 && price > 0 && fits(coins_bought(fiat, price)) {
        Some(coins_bought(fiat, price) as i64)
    } else {
        None
    }
}

/// What `sale_size` returns: the coins given up, where both inputs are
/// positive and the quotient is an amount.
pub open spec fn sale_size_spec(fiat: int, price: int) -> Option<i64> {
    if fiat > 0 && price > 0 && fits(coins_sold(fiat, price)) {
        Some(coins_sold(fiat, price) as i64)
    } else {
        None
    }
}

/// What `value_at` returns: the fiat value, where neither input is
/// negative and the value is an amount.
pub open spec fn value_at_spec(coins: int, price: int) -> Option<i64> {
    if coins >= 0 && price >= 0 && fits(fiat_value(coins, price)) {
        Some(fiat_value(coins, price) as i64)
    } else {
        None
    }
}

/// What `checked_sum` returns: the sum, where it is an amount.
pub open spec fn checked_sum_spec(a: int, b: int) -> Option<i64> {
    if fits(a + b) {
        Some((a + b) as i64)
    } else {
        None
    }
}

/// Adds two amounts, or reports that the sum cannot be held.
pub fn checked_sum(a: i64, b: i64) -> (sum: Option<i64>)
    ensures
        sum == checked_sum_spec(a as int, b as int),
{
    let wide: i128 = a as i128 + b as i128;
    if wide < i64::MIN as i128 || wide > i64::MAX as i128 {
        None
    } else {
        Some(wide as i64)
    }
}

/// Converts a fiat amount into the coins it buys at `price`.
pub fn purchase_size(fiat: i64, price: i64) -> (coins: Option<i64>)
    ensures
        coins == purchase_size_spec(fiat as int, price as int),
{
    if fiat <= 0 || price <= 0 {
        return None;
    }
    let units: u128 = SCALE as u128;
    assert(units == 1_000_000);
    let scaled: u128 = fiat as u128 * units;
    let quotient: u128 = scaled / (price as u128);
    assert(quotient == coins_bought(fiat as int, price as int));
    if quotient > i64::MAX as u128 {
        None
    } else {
        Some(quotient as i64)
    }
}

/// Converts a fiat amount into the coins that must be sold for it at
/// `price`.
pub fn sale_size(fiat: i64, price: i64) -> (coins: Option<i64>)
    ensures
        coins == sale_size_spec(fiat as int, price as int),
{
    if fiat <= 0 || price <= 0 {
        return None;
    }
    let units: u128 = SCALE as u128;
    assert(units == 1_000_000);
    let scaled: u128 = fiat as u128 * units + (price as u128 - 1);
    let quotient: u128 = scaled / (price as u128);
    assert(quotient == coins_sold(fiat as int, price as int));
    if quotient > i64::MAX as u128 {
        None
    } else {
        Some(quotient as i64)
    }
}

/// Values a coin holding at `price`.
pub fn value_at(coins: i64, price: i64) -> (value: Option<i64>)
    ensures
        value == value_at_spec(coins as int, price as int),
{
    if coins < 0 || price < 0 {
        return None;
    }
    assert(coins as int * price as int <= i64::MAX as int * i64::MAX as int
        && coins as int * price as int >= 0) by (nonlinear_arith)
        requires
            0 <= coins as int <= i64::MAX as int,
            0 <= price as int <= i64::MAX as int,
    ;
    let product: u128 = coins as u128 * (price as u128);
    let quotient: u128 = product / (SCALE as u128);
    assert(quotient == fiat_value(coins as int, price as int));
    if quotient > i64::MAX as u128 {
        None
    } else {
        Some(quotient as i64)
    }
}

/// Buying never yields coins worth more than was paid: the value of
/// `coins_bought(fiat, price)` at the same price is at most `fiat`.
pub proof fn lemma_purchase_is_worth_at_most_its_price(fiat: int, price: int)
    requires
        fiat >= 0,
        price > 0,
    ensures
        0 <= coins_bought(fiat, price),
        fiat_value(coins_bought(fiat, price), price) <= fiat,
{
    let n = fiat * SCALE;
    let q = n / price;
    assert(0 <= q && q * price <= n) by (nonlinear_arith)
        requires
            n >= 0,
            price > 0,
            q == n / price,
    ;
    assert((q * price) / (SCALE as int) <= fiat) by (nonlinear_arith)
        requires
            q * price <= fiat * SCALE,
            SCALE == 1_000_000,
    ;
}

/// Selling never pays more than the coins given up are worth: the value
/// of `coins_sold(fiat, price)` at the same price is at least `fiat`.
pub proof fn lemma_sale_is_worth_at_least_its_proceeds(fiat: int, price: int)
    requires
        fiat >= 0,
        price > 0,
    ensures
        0 <= coins_sold(fiat, price),
        fiat > 0 ==> coins_sold(fiat, price) > 0,
        fiat_value(coins_sold(fiat, price), price) >= fiat,
{
    let n = fiat * SCALE + price - 1;
    let q = n / price;
    assert(0 <= q && q * price > n - price && (fiat > 0 ==> q > 0)) by (nonlinear_arith)
        requires
            n >= 0,
            price > 0,
            q == n / price,
            n == fiat * SCALE + price - 1,
            fiat >= 0,
            SCALE == 1_000_000,
    ;
    assert((q * price) / (SCALE as int) >= fiat) by (nonlinear_arith)
        requires
            q * price >= fiat * SCALE,
            SCALE == 1_000_000,
    ;
}

/// Where `price` divides `fiat * SCALE`, buying and selling agree on the
/// coin amount and a round trip returns exactly what was paid.
pub proof fn lemma_exact_round_trip(fiat: int, price: int)
    requires
        fiat >= 0,
        price > 0,
        (fiat * SCALE) % price == 0,
    ensures
        coins_sold(fiat, price) == coins_bought(fiat, price),
        fiat_value(coins_bought(fiat, price), price) == fiat,
{
    let n = fiat * SCALE;
    let q = n / price;
    assert(q * price == n && (n + price - 1) / price == q) by (nonlinear_arith)
        requires
            n >= 0,
            price > 0,
            q == n / price,
            n % price == 0,
    ;
    assert((fiat * SCALE) / (SCALE as int) == fiat) by (nonlinear_arith)
        requires
            SCALE == 1_000_000,
    ;
}

} // verus!
