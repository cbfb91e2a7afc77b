//! The state of the economy and the rules of its operations, as the
//! contracts of the engine state them.
//!
//! For each operation one function says what it reports and another what
//! state it leaves. An operation that reports an error leaves the state as
//! it was.

use vstd::prelude::*;
use crate::account::{
    account_of, adjusted_balance, balance_of, distinct_ids, has_account, no_debt, with_account,
    Account,
};
use crate::error::ModelError;
use crate::ledger::{numbered, owned, Trade};
use crate::money::{fits, purchase_size_spec, sale_size_spec, value_at_spec};
use crate::oracle::{quote_under, OracleResponse, Quote};

verus! {

/// The seconds of one calendar day.
pub const SECONDS_PER_DAY: u64 = 86_400;

/// The calendar day that the moment `now` falls on, `now` being counted in
/// seconds and days beginning at multiples of `SECONDS_PER_DAY`.
pub open spec fn day_of(now: u64) -> u64 {
    now / SECONDS_PER_DAY
}

/// The state of the economy: who has how much money, and who traded what.
pub struct Economy {
    pub accounts: Seq<Account>,
    pub trades: Seq<Trade>,
}

impl Economy {
    /// What holds of every state that the engine can reach: there is one
    /// account per user; no balance and no holding is negative; trades are
    /// numbered in order; and whoever traded has an account.
    pub open spec fn wf(self) -> bool {
        &&& distinct_ids(self.accounts)
        &&& no_debt(self.accounts)
        &&& numbered(self.trades)
        &&& forall|i: int|
            0 <= i < self.trades.len() ==> has_account(
                self.accounts,
                (#[trigger] self.trades[i]).user_id,
            )
        &&& forall|user_id: u64, symbol: Seq<char>|
            0 <= #[trigger] owned(self.trades, user_id, symbol) <= i64::MAX
    }

    /// This state with other accounts.
    pub open spec fn with_accounts(self, accounts: Seq<Account>) -> Economy {
        Economy { accounts, trades: self.trades }
    }
}

/// What a transfer of `amount` from `src` to `dst` reports: the new
/// balances of the two, or why nothing was transferred.
pub open spec fn give_outcome(accounts: Seq<Account>, src: u64, dst: u64, amount: i64) -> Result<
    (i64, i64),
    ModelError,
> {
    if !has_account(accounts, src) {
        Err(ModelError::NotFound(src))
    } else if !has_account(accounts, dst) {
        Err(ModelError::NotFound(dst))
    } else if amount <= 0 {
        Err(ModelError::InvalidAmount)
    } else if balance_of(accounts, src) < amount {
        Err(ModelError::InsufficientFunds)
    } else if src != dst && !fits(balance_of(accounts, dst) + amount) {
        Err(ModelError::Unexpected)
    } else {
        Ok(
            (
                (balance_of(accounts, src) - amount) as i64,
                (if src == dst {
                    balance_of(accounts, src)
                } else {
                    balance_of(accounts, dst) + amount
                }) as i64,
            ),
        )
    }
}

/// The accounts after a transfer: changed only where the transfer took
/// place, and then in the balances of `src` and `dst` alone.
pub open spec fn after_give(accounts: Seq<Account>, src: u64, dst: u64, amount: i64) -> Seq<
    Account,
> {
    match give_outcome(accounts, src, dst, amount) {
        Ok((src_balance, dst_balance)) => with_account(
            with_account(accounts, account_of(accounts, src).with_balance(src_balance)),
            account_of(accounts, dst).with_balance(dst_balance),
        ),
        Err(_) => accounts,
    }
}

/// What an administrative credit of `amount` to `dst` reports: the new
/// balance, which is never below zero, or why nothing was credited.
pub open spec fn bless_outcome(accounts: Seq<Account>, dst: u64, amount: i64) -> Result<
    i64,
    ModelError,
> {
    if !has_account(accounts, dst) {
        Err(ModelError::NotFound(dst))
    } else {
        adjusted_balance(balance_of(accounts, dst), amount as int, true)
    }
}

/// What opening an account for `user_id` reports.
pub open spec fn create_outcome(accounts: Seq<Account>, user_id: u64) -> Result<(), ModelError> {
    if has_account(accounts, user_id) {
        Err(ModelError::AlreadyExists(user_id))
    } else {
        Ok(())
    }
}

/// The accounts after opening an account for `user_id`.
pub open spec fn after_create(accounts: Seq<Account>, user_id: u64) -> Seq<Account> {
    if has_account(accounts, user_id) {
        accounts
    } else {
        accounts.push(Account::fresh(user_id))
    }
}


/// The side of the coin that `choice` names, if it names one.
pub open spec fn picks_heads(choice: Seq<char>) -> Option<bool> {
    if choice == "heads"@ {
        Some(true)
    } else if choice == "tails"@ {
        Some(false)
    } else {
        None
    }
}

/// What a wager of `bet` on `choice` reports once the coin has landed,
/// `heads` saying how: whether the wager was won, or why none took place.
pub open spec fn wager_outcome(
    accounts: Seq<Account>,
    user_id: u64,
    choice: Seq<char>,
    bet: i64,
    heads: bool,
) -> Result<bool, ModelError> {
    if !has_account(accounts, user_id) {
        Err(ModelError::NotFound(user_id))
    } else if bet <= 0 {
        Err(ModelError::InvalidAmount)
    } else {
        match picks_heads(choice) {
            None => Err(ModelError::InvalidValue),
            Some(picked) => match adjusted_balance(
                balance_of(accounts, user_id),
                wager_delta(bet, picked == heads),
                false,
            ) {
                Ok(_) => Ok(picked == heads),
                Err(error) => Err(error),
            },
        }
    }
}

/// What a wager of `bet` adds to the balance: the bet if it was won, its
/// negative if it was lost.
pub open spec fn wager_delta(bet: i64, won: bool) -> int {
    if won {
        bet as int
    } else {
        -bet
    }
}

/// The accounts after a wager: the bet is added to the balance if the
/// wager was won and taken from it if it was lost.
pub open spec fn after_wager(
    accounts: Seq<Account>,
    user_id: u64,
    choice: Seq<char>,
    bet: i64,
    heads: bool,
) -> Seq<Account> {
    match wager_outcome(accounts, user_id, choice, bet, heads) {
        Ok(won) => with_account(
            accounts,
            account_of(accounts, user_id).with_balance(
                (balance_of(accounts, user_id) + wager_delta(bet, won)) as i64,
            ),
        ),
        Err(_) => accounts,
    }
}

/// Whether the ledger has no number left for another trade.
pub open spec fn ledger_full(trades: Seq<Trade>) -> bool {
    trades.len() >= u64::MAX
}

/// The entry that records the next trade, filed under `key`.
pub open spec fn next_trade(
    trades: Seq<Trade>,
    user_id: u64,
    key: Seq<char>,
    amount: i64,
    price: i64,
    now: u64,
) -> Trade {
    Trade { entry_id: (trades.len() + 1) as u64, user_id, symbol: key, amount, price, timestamp: now }
}

/// The state after a trade that changes the balance of `user_id` to
/// `balance` and the holding in the coin filed under `key` by `amount`.
pub open spec fn after_trade(
    state: Economy,
    user_id: u64,
    key: Seq<char>,
    balance: int,
    amount: i64,
    price: i64,
    now: u64,
) -> Economy {
    Economy {
        accounts: with_account(
            state.accounts,
            account_of(state.accounts, user_id).with_balance(balance as i64),
        ),
        trades: state.trades.push(next_trade(state.trades, user_id, key, amount, price, now)),
    }
}

/// What a purchase for `fiat` of the coin filed under `key` reports: the
/// coins bought and the price paid per coin, or why nothing was bought.
///
/// The coins are `fiat` divided by the price, rounded down. A purchase
/// that would buy no coin at all is refused as invalid. A coin amount or a
/// holding too large to be held, or a full ledger, is a fault.
pub open spec fn buy_outcome(
    state: Economy,
    user_id: u64,
    key: Seq<char>,
    fiat: i64,
    quote: Result<Quote, ModelError>,
) -> Result<(i64, i64), ModelError> {
    if !has_account(state.accounts, user_id) {
        Err(ModelError::NotFound(user_id))
    } else if fiat <= 0 {
        Err(ModelError::InvalidAmount)
    } else {
        match quote {
            Err(error) => Err(error),
            Ok(quoted) => match purchase_size_spec(fiat as int, quoted.price as int) {
                None => Err(ModelError::Unexpected),
                Some(coins) => if coins == 0 {
                    Err(ModelError::InvalidAmount)
                } else if balance_of(state.accounts, user_id) < fiat {
                    Err(ModelError::InsufficientFunds)
                } else if !fits(owned(state.trades, user_id, key) + coins)
                    || ledger_full(state.trades) {
                    Err(ModelError::Unexpected)
                } else {
                    Ok((coins, quoted.price))
                },
            },
        }
    }
}

/// The state after a purchase: `fiat` less on the balance, and one entry
/// more in the ledger, over the coins bought.
pub open spec fn after_buy(
    state: Economy,
    user_id: u64,
    key: Seq<char>,
    fiat: i64,
    quote: Result<Quote, ModelError>,
    now: u64,
) -> Economy {
    match buy_outcome(state, user_id, key, fiat, quote) {
        Ok((coins, price)) => after_trade(
            state,
            user_id,
            key,
            balance_of(state.accounts, user_id) - fiat,
            coins,
            price,
            now,
        ),
        Err(_) => state,
    }
}

/// What a sale for `fiat` of the coin filed under `key` reports: the
/// coins sold and the price received per coin, or why nothing was sold.
///
/// The coins are `fiat` divided by the price, rounded up, and the holding
/// has to cover them. A coin amount or a balance too large to be held, or
/// a full ledger, is a fault.
pub open spec fn sell_outcome(
    state: Economy,
    user_id: u64,
    key: Seq<char>,
    fiat: i64,
    quote: Result<Quote, ModelError>,
) -> Result<(i64, i64), ModelError> {
    if !has_account(state.accounts, user_id) {
        Err(ModelError::NotFound(user_id))
    } else if fiat <= 0 {
        Err(ModelError::InvalidAmount)
    } else {
        match quote {
            Err(error) => Err(error),
            Ok(quoted) => match sale_size_spec(fiat as int, quoted.price as int) {
                None => Err(ModelError::Unexpected),
                Some(coins) => if owned(state.trades, user_id, key) < coins {
                    Err(ModelError::InsufficientCoins)
                } else if !fits(balance_of(state.accounts, user_id) + fiat) || ledger_full(
                    state.trades,
                ) {
                    Err(ModelError::Unexpected)
                } else {
                    Ok((coins, quoted.price))
                },
            },
        }
    }
}

/// The state after a sale: `fiat` more on the balance, and one entry more
/// in the ledger, over the coins sold, with a negative sign.
pub open spec fn after_sell(
    state: Economy,
    user_id: u64,
    key: Seq<char>,
    fiat: i64,
    quote: Result<Quote, ModelError>,
    now: u64,
) -> Economy {
    match sell_outcome(state, user_id, key, fiat, quote) {
        Ok((coins, price)) => after_trade(
            state,
            user_id,
            key,
            balance_of(state.accounts, user_id) + fiat,
            (-coins) as i64,
            price,
            now,
        ),
        Err(_) => state,
    }
}

/// What the sale of the whole holding in the coin filed under `key`
/// reports: the coins sold and the price received per coin, or why nothing
/// was sold.
///
/// There has to be a holding above zero. The proceeds are its value at the
/// price, rounded down. Proceeds or a balance too large to be held, or a
/// full ledger, are a fault.
pub open spec fn sell_all_outcome(
    state: Economy,
    user_id: u64,
    key: Seq<char>,
    quote: Result<Quote, ModelError>,
) -> Result<(i64, i64), ModelError> {
    if !has_account(state.accounts, user_id) {
        Err(ModelError::NotFound(user_id))
    } else {
        match quote {
            Err(error) => Err(error),
            Ok(quoted) => {
                let held = owned(state.trades, user_id, key);
                if held <= 0 {
                    Err(ModelError::InsufficientCoins)
                } else {
                    match value_at_spec(held, quoted.price as int) {
                        None => Err(ModelError::Unexpected),
                        Some(proceeds) => if !fits(
                            balance_of(state.accounts, user_id) + proceeds,
                        ) || ledger_full(state.trades) {
                            Err(ModelError::Unexpected)
                        } else {
                            Ok((held as i64, quoted.price))
                        },
                    }
                }
            },
        }
    }
}

/// The state after the sale of a whole holding: its value more on the
/// balance, and one entry more in the ledger that brings the holding to
/// zero.
pub open spec fn after_sell_all(
    state: Economy,
    user_id: u64,
    key: Seq<char>,
    quote: Result<Quote, ModelError>,
    now: u64,
) -> Economy {
    match sell_all_outcome(state, user_id, key, quote) {
        Ok((coins, price)) => after_trade(
            state,
            user_id,
            key,
            balance_of(state.accounts, user_id) + value_at_spec(coins as int, price as int)->0,
            (-coins) as i64,
            price,
            now,
        ),
        Err(_) => state,
    }
}

/// The answer that belongs to the `k`-th holding: the `k`-th of
/// `responses`, and none where there are fewer.
pub open spec fn response_for(responses: Seq<Option<OracleResponse>>, k: int) -> Option<
    OracleResponse,
> {
    if 0 <= k < responses.len() {
        responses[k]
    } else {
        None
    }
}

/// The first `n` of `holdings`, each with its value at the price that the
/// answer belonging to it quotes for the coin listed under the holding's
/// key; or the error of the first among them that has no quote or a value
/// too large to be held.
pub open spec fn valued(
    holdings: Seq<(Seq<char>, int)>,
    responses: Seq<Option<OracleResponse>>,
    n: int,
) -> Result<Seq<(Seq<char>, int, int)>, ModelError>
    decreases n,
{
    if n <= 0 {
        Ok(Seq::empty())
    } else {
        match valued(holdings, responses, n - 1) {
            Err(error) => Err(error),
            Ok(rows) => match quote_under(
                holdings[n - 1].0,
                holdings[n - 1].0,
                response_for(responses, n - 1),
            ) {
                Err(error) => Err(error),
                Ok(quoted) => match value_at_spec(holdings[n - 1].1, quoted.price as int) {
                    None => Err(ModelError::Unexpected),
                    Some(value) => Ok(
                        rows.push((holdings[n - 1].0, holdings[n - 1].1, value as int)),
                    ),
                },
            },
        }
    }
}

} // verus!
