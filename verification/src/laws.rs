//! What holds of the economy whatever is done with it.
//!
//! The laws are stated over the rules of the operations, which are what
//! the engine's contracts promise of its functions: a law about
//! `after_give` is a law about every call of `Model::give`.

use vstd::prelude::*;
use crate::account::{
    account_of, after_adjust, after_claim, balance_of, claim_outcome, distinct_ids, has_account,
    lemma_push_lookup, lemma_total_push, lemma_total_with_account, lemma_with_account_lookup,
    no_debt, position_of, total_balance, with_account, Account,
};
use crate::economy::{
    after_buy, after_create, after_give, after_sell, after_sell_all, after_trade, after_wager,
    bless_outcome, buy_outcome, create_outcome, give_outcome, ledger_full, next_trade,
    picks_heads, sell_all_outcome, sell_outcome, wager_delta, wager_outcome, Economy,
};
use crate::error::ModelError;
use crate::ledger::{lemma_owned_push, owned};
use crate::money::{
    fits, lemma_sale_is_worth_at_least_its_proceeds, value_at_spec, SCALE,
};
use crate::oracle::Quote;

verus! {

/// One call of an operation that can change the state, with everything
/// that decides its effect: for a wager how the coin landed, for a reward
/// its size and the day, for a trade the quote and the time.
pub enum Operation {
    Create { user_id: u64 },
    Give { src: u64, dst: u64, amount: i64 },
    Bless { dst: u64, amount: i64 },
    Wager { user_id: u64, choice: Seq<char>, bet: i64, heads: bool },
    Daily { user_id: u64, reward: i64, today: u64 },
    Buy { user_id: u64, key: Seq<char>, fiat: i64, quote: Result<Quote, ModelError>, now: u64 },
    Sell { user_id: u64, key: Seq<char>, fiat: i64, quote: Result<Quote, ModelError>, now: u64 },
    SellAll { user_id: u64, key: Seq<char>, quote: Result<Quote, ModelError>, now: u64 },
}

/// The state that an operation leaves.
pub open spec fn step(state: Economy, operation: Operation) -> Economy {
    match operation {
        Operation::Create { user_id } => state.with_accounts(
            after_create(state.accounts, user_id),
        ),
        Operation::Give { src, dst, amount } => state.with_accounts(
            after_give(state.accounts, src, dst, amount),
        ),
        Operation::Bless { dst, amount } => state.with_accounts(
            after_adjust(state.accounts, dst, bless_outcome(state.accounts, dst, amount)),
        ),
        Operation::Wager { user_id, choice, bet, heads } => state.with_accounts(
            after_wager(state.accounts, user_id, choice, bet, heads),
        ),
        Operation::Daily { user_id, reward, today } => state.with_accounts(
            after_claim(state.accounts, user_id, reward, today),
        ),
        Operation::Buy { user_id, key, fiat, quote, now } => after_buy(
            state,
            user_id,
            key,
            fiat,
            quote,
            now,
        ),
        Operation::Sell { user_id, key, fiat, quote, now } => after_sell(
            state,
            user_id,
            key,
            fiat,
            quote,
            now,
        ),
        Operation::SellAll { user_id, key, quote, now } => after_sell_all(
            state,
            user_id,
            key,
            quote,
            now,
        ),
    }
}

/// The state without accounts or trades, in which every engine begins.
pub open spec fn initial() -> Economy {
    Economy { accounts: Seq::empty(), trades: Seq::empty() }
}

/// The state that a run of operations from the beginning leaves.
pub open spec fn run(operations: Seq<Operation>) -> Economy
    decreases operations.len(),
{
    if operations.len() == 0 {
        initial()
    } else {
        step(run(operations.drop_last()), operations.last())
    }
}

/// One transfer: who gives, who receives, and how much.
pub struct Transfer {
    pub src: u64,
    pub dst: u64,
    pub amount: i64,
}

/// The accounts after a run of transfers, each of which takes place or
/// not as its outcome says.
pub open spec fn after_gives(accounts: Seq<Account>, transfers: Seq<Transfer>) -> Seq<Account>
    decreases transfers.len(),
{
    if transfers.len() == 0 {
        accounts
    } else {
        after_give(
            after_gives(accounts, transfers.drop_last()),
            transfers.last().src,
            transfers.last().dst,
            transfers.last().amount,
        )
    }
}

/// Replacing the account of a user by one without debt leaves a
/// well-formed state well formed.
pub proof fn lemma_account_replaced(state: Economy, updated: Account)
    requires
        state.wf(),
        has_account(state.accounts, updated.user_id),
        updated.balance >= 0,
    ensures
        state.with_accounts(with_account(state.accounts, updated)).wf(),
{
    let after = with_account(state.accounts, updated);
    lemma_with_account_lookup(state.accounts, updated, updated.user_id);
    assert forall|i: int| 0 <= i < state.trades.len() implies has_account(
        after,
        (#[trigger] state.trades[i]).user_id,
    ) by {
        lemma_with_account_lookup(state.accounts, updated, state.trades[i].user_id);
    }
}

/// A trade that keeps balance and holding within what can be held, in a
/// ledger that has a number left, leaves a well-formed state well formed.
pub proof fn lemma_trade_recorded(
    state: Economy,
    user_id: u64,
    key: Seq<char>,
    balance: int,
    amount: i64,
    price: i64,
    now: u64,
)
    requires
        state.wf(),
        has_account(state.accounts, user_id),
        0 <= balance <= i64::MAX,
        !ledger_full(state.trades),
        0 <= owned(state.trades, user_id, key) + amount <= i64::MAX,
    ensures
        after_trade(state, user_id, key, balance, amount, price, now).wf(),
{
    let after = after_trade(state, user_id, key, balance, amount, price, now);
    let updated = account_of(state.accounts, user_id).with_balance(balance as i64);
    let trade = next_trade(state.trades, user_id, key, amount, price, now);
    lemma_account_replaced(state, updated);
    lemma_with_account_lookup(state.accounts, updated, user_id);
    assert forall|i: int| 0 <= i < after.trades.len() implies has_account(
        after.accounts,
        (#[trigger] after.trades[i]).user_id,
    ) by {
        if i < state.trades.len() {
            assert(after.trades[i] == state.trades[i]);
            lemma_with_account_lookup(state.accounts, updated, state.trades[i].user_id);
        }
    }
    assert forall|i: int| 0 <= i < after.trades.len() implies (#[trigger] after.trades[i]).entry_id
        == i + 1 by {
        if i < state.trades.len() {
            assert(after.trades[i] == state.trades[i]);
        }
    }
    assert forall|other: u64, coin: Seq<char>|
        0 <= #[trigger] owned(after.trades, other, coin) <= i64::MAX by {
        lemma_owned_push(state.trades, trade, other, coin);
        assert(0 <= owned(state.trades, other, coin) <= i64::MAX);
    }
}

/// Every operation leaves a well-formed state well formed: whatever is called,
/// and whatever it reports, there is one account per user afterwards, no
/// balance and no holding is negative, and whoever traded has an account.
pub proof fn lemma_step_keeps_wf(state: Economy, operation: Operation)
    requires
        state.wf(),
    ensures
        step(state, operation).wf(),
{
    let accounts = state.accounts;
    match operation {
        Operation::Create { user_id } => {
            if !has_account(accounts, user_id) {
                let added = Account::fresh(user_id);
                let after = accounts.push(added);
                lemma_push_lookup(accounts, added, user_id);
                assert forall|i: int| 0 <= i < after.len() implies #[trigger] after[i].balance
                    >= 0 by {
                    if i < accounts.len() {
                        assert(accounts[i].balance >= 0);
                    }
                }
                assert forall|i: int| 0 <= i < state.trades.len() implies has_account(
                    after,
                    (#[trigger] state.trades[i]).user_id,
                ) by {
                    lemma_push_lookup(accounts, added, state.trades[i].user_id);
                }
            }
        },
        Operation::Give { src, dst, amount } => {
            lemma_give_conserves_total(accounts, src, dst, amount);
            if let Ok((src_balance, dst_balance)) = give_outcome(accounts, src, dst, amount) {
                let debited_account = account_of(accounts, src).with_balance(src_balance);
                let credited_account = account_of(accounts, dst).with_balance(dst_balance);
                lemma_balance_is_no_debt(accounts, src);
                lemma_balance_is_no_debt(accounts, dst);
                lemma_account_replaced(state, debited_account);
                let debited = state.with_accounts(with_account(accounts, debited_account));
                lemma_with_account_lookup(accounts, debited_account, dst);
                lemma_account_replaced(debited, credited_account);
            }
        },
        Operation::Bless { dst, amount } => {
            if let Ok(balance) = bless_outcome(accounts, dst, amount) {
                lemma_account_replaced(state, account_of(accounts, dst).with_balance(balance));
            }
        },
        Operation::Wager { user_id, choice, bet, heads } => {
            if let Ok(won) = wager_outcome(accounts, user_id, choice, bet, heads) {
                lemma_account_replaced(
                    state,
                    account_of(accounts, user_id).with_balance(
                        (balance_of(accounts, user_id) + wager_delta(bet, won)) as i64,
                    ),
                );
            }
        },
        Operation::Daily { user_id, reward, today } => {
            if claim_outcome(accounts, user_id, reward, today) == Ok::<bool, ModelError>(true) {
                lemma_balance_is_no_debt(accounts, user_id);
                lemma_account_replaced(
                    state,
                    account_of(accounts, user_id).rewarded(
                        (balance_of(accounts, user_id) + reward) as i64,
                        today,
                    ),
                );
            }
        },
        Operation::Buy { user_id, key, fiat, quote, now } => {
            if let Ok((coins, price)) = buy_outcome(state, user_id, key, fiat, quote) {
                assert(0 <= owned(state.trades, user_id, key) <= i64::MAX);
                lemma_trade_recorded(
                    state,
                    user_id,
                    key,
                    balance_of(accounts, user_id) - fiat,
                    coins,
                    price,
                    now,
                );
            }
        },
        Operation::Sell { user_id, key, fiat, quote, now } => {
            if let Ok((coins, price)) = sell_outcome(state, user_id, key, fiat, quote) {
                assert(0 <= owned(state.trades, user_id, key) <= i64::MAX);
                lemma_balance_is_no_debt(accounts, user_id);
                lemma_sale_is_worth_at_least_its_proceeds(fiat as int, price as int);
                lemma_trade_recorded(
                    state,
                    user_id,
                    key,
                    balance_of(accounts, user_id) + fiat,
                    (-coins) as i64,
                    price,
                    now,
                );
            }
        },
        Operation::SellAll { user_id, key, quote, now } => {
            if let Ok((coins, price)) = sell_all_outcome(state, user_id, key, quote) {
                assert(0 <= owned(state.trades, user_id, key) <= i64::MAX);
                lemma_balance_is_no_debt(accounts, user_id);
                lemma_trade_recorded(
                    state,
                    user_id,
                    key,
                    balance_of(accounts, user_id) + value_at_spec(coins as int, price as int)->0,
                    (-coins) as i64,
                    price,
                    now,
                );
            }
        },
    }
}

/// Where no balance is negative, the balance of a user with an account is
/// not.
pub proof fn lemma_balance_is_no_debt(accounts: Seq<Account>, user_id: u64)
    requires
        no_debt(accounts),
        has_account(accounts, user_id),
    ensures
        balance_of(accounts, user_id) >= 0,
{
    let p = position_of(accounts, user_id);
    assert(accounts[p].balance >= 0);
}

/// Every state that a run of operations can reach is well formed.
pub proof fn lemma_reachable_states_are_wf(operations: Seq<Operation>)
    ensures
        run(operations).wf(),
    decreases operations.len(),
{
    if operations.len() == 0 {
        assert forall|user_id: u64, symbol: Seq<char>|
            0 <= #[trigger] owned(initial().trades, user_id, symbol) <= i64::MAX by {}
    } else {
        lemma_reachable_states_are_wf(operations.drop_last());
        lemma_step_keeps_wf(run(operations.drop_last()), operations.last());
    }
}

/// In every state that can be reached, no user is in debt and no user
/// holds less than nothing of any coin.
pub proof fn lemma_nothing_is_negative(operations: Seq<Operation>, user_id: u64, symbol: Seq<char>)
    ensures
        has_account(run(operations).accounts, user_id) ==> balance_of(
            run(operations).accounts,
            user_id,
        ) >= 0,
        owned(run(operations).trades, user_id, symbol) >= 0,
{
    lemma_reachable_states_are_wf(operations);
    if has_account(run(operations).accounts, user_id) {
        lemma_balance_is_no_debt(run(operations).accounts, user_id);
    }
}

/// A transfer leaves the sum of all balances as it was, whether it takes
/// place or is refused.
pub proof fn lemma_give_conserves_total(accounts: Seq<Account>, src: u64, dst: u64, amount: i64)
    requires
        distinct_ids(accounts),
    ensures
        total_balance(after_give(accounts, src, dst, amount)) == total_balance(accounts),
        distinct_ids(after_give(accounts, src, dst, amount)),
{
    if let Ok((src_balance, dst_balance)) = give_outcome(accounts, src, dst, amount) {
        let debited_account = account_of(accounts, src).with_balance(src_balance);
        let credited_account = account_of(accounts, dst).with_balance(dst_balance);
        let debited = with_account(accounts, debited_account);
        lemma_total_with_account(accounts, debited_account);
        lemma_with_account_lookup(accounts, debited_account, dst);
        lemma_with_account_lookup(accounts, debited_account, src);
        lemma_total_with_account(debited, credited_account);
        lemma_with_account_lookup(debited, credited_account, dst);
    }
}

/// No run of transfers changes the sum of all balances.
pub proof fn lemma_gives_conserve_total(accounts: Seq<Account>, transfers: Seq<Transfer>)
    requires
        distinct_ids(accounts),
    ensures
        total_balance(after_gives(accounts, transfers)) == total_balance(accounts),
        distinct_ids(after_gives(accounts, transfers)),
    decreases transfers.len(),
{
    if transfers.len() > 0 {
        lemma_gives_conserve_total(accounts, transfers.drop_last());
        lemma_give_conserves_total(
            after_gives(accounts, transfers.drop_last()),
            transfers.last().src,
            transfers.last().dst,
            transfers.last().amount,
        );
    }
}

/// Opening an account twice opens it once: whatever the first call
/// reported, the second reports `AlreadyExists` and changes nothing, and
/// an account that the first call opened still has a balance of zero.
pub proof fn lemma_creation_is_idempotent(accounts: Seq<Account>, user_id: u64)
    requires
        distinct_ids(accounts),
    ensures
        create_outcome(after_create(accounts, user_id), user_id) == Err::<(), ModelError>(
            ModelError::AlreadyExists(user_id),
        ),
        after_create(after_create(accounts, user_id), user_id) == after_create(accounts, user_id),
        create_outcome(accounts, user_id) is Ok ==> balance_of(
            after_create(after_create(accounts, user_id), user_id),
            user_id,
        ) == 0,
        total_balance(after_create(accounts, user_id)) == total_balance(accounts),
{
    if !has_account(accounts, user_id) {
        lemma_push_lookup(accounts, Account::fresh(user_id), user_id);
        lemma_total_push(accounts, Account::fresh(user_id));
    }
}

/// The daily reward is paid once per calendar day: after a claim that was
/// paid, a second claim on the same day is not paid and changes nothing,
/// and a claim on any other day is paid again, provided the balance can
/// hold the reward.
pub proof fn lemma_daily_cooldown(
    accounts: Seq<Account>,
    user_id: u64,
    reward: i64,
    today: u64,
    another_day: u64,
)
    requires
        distinct_ids(accounts),
        claim_outcome(accounts, user_id, reward, today) == Ok::<bool, ModelError>(true),
        another_day != today,
    ensures
        claim_outcome(after_claim(accounts, user_id, reward, today), user_id, reward, today)
            == Ok::<bool, ModelError>(false),
        after_claim(after_claim(accounts, user_id, reward, today), user_id, reward, today)
            == after_claim(accounts, user_id, reward, today),
        balance_of(after_claim(accounts, user_id, reward, today), user_id) == balance_of(
            accounts,
            user_id,
        ) + reward,
        fits(balance_of(accounts, user_id) + 2 * reward) ==> claim_outcome(
            after_claim(accounts, user_id, reward, today),
            user_id,
            reward,
            another_day,
        ) == Ok::<bool, ModelError>(true),
{
    let updated = account_of(accounts, user_id).rewarded(
        (balance_of(accounts, user_id) + reward) as i64,
        today,
    );
    lemma_with_account_lookup(accounts, updated, user_id);
}

/// A new account can claim the daily reward at once, on whatever day it
/// is, provided the reward is not negative.
pub proof fn lemma_new_account_can_claim(accounts: Seq<Account>, user_id: u64, reward: i64, today: u64)
    requires
        distinct_ids(accounts),
        !has_account(accounts, user_id),
        reward >= 0,
    ensures
        claim_outcome(after_create(accounts, user_id), user_id, reward, today) == Ok::<
            bool,
            ModelError,
        >(true),
{
    lemma_push_lookup(accounts, Account::fresh(user_id), user_id);
}

/// A wager that the balance covers is never refused for want of funds,
/// however the coin lands. If it is settled, the balance has grown or
/// shrunk by exactly the bet and is not negative; and it is settled
/// whenever the balance could hold the winnings. A wager of the whole
/// balance so leaves either nothing or twice the balance.
pub proof fn lemma_covered_wager(
    accounts: Seq<Account>,
    user_id: u64,
    choice: Seq<char>,
    bet: i64,
    heads: bool,
)
    requires
        distinct_ids(accounts),
        has_account(accounts, user_id),
        picks_heads(choice) is Some,
        0 < bet <= balance_of(accounts, user_id),
    ensures
        wager_outcome(accounts, user_id, choice, bet, heads) != Err::<bool, ModelError>(
            ModelError::InsufficientFunds,
        ),
        fits(balance_of(accounts, user_id) + bet) ==> wager_outcome(
            accounts,
            user_id,
            choice,
            bet,
            heads,
        ) is Ok,
        wager_outcome(accounts, user_id, choice, bet, heads) matches Ok(won) ==> {
            let after = balance_of(after_wager(accounts, user_id, choice, bet, heads), user_id);
            &&& won == (picks_heads(choice)->0 == heads)
            &&& after >= 0
            &&& after == balance_of(accounts, user_id) + wager_delta(bet, won)
            &&& bet == balance_of(accounts, user_id) ==> after == 0 || after == 2 * bet
        },
{
    if let Ok(won) = wager_outcome(accounts, user_id, choice, bet, heads) {
        let updated = account_of(accounts, user_id).with_balance(
            (balance_of(accounts, user_id) + wager_delta(bet, won)) as i64,
        );
        lemma_with_account_lookup(accounts, updated, user_id);
    }
}

/// What a user is worth in fiat and in one coin at a price, counted in
/// millionths of a unit so that nothing is rounded: the balance, and the
/// holding in the coin filed under `key` at `price`.
pub open spec fn worth(state: Economy, user_id: u64, key: Seq<char>, price: int) -> int {
    balance_of(state.accounts, user_id) * SCALE + owned(state.trades, user_id, key) * price
}

/// Trading makes nobody richer: whatever a user buys or sells of a coin at
/// a price, the user is afterwards worth at that price no more than
/// before. Amounts are rounded, and always against the one who trades.
pub proof fn lemma_trading_never_gains(state: Economy, operation: Operation)
    requires
        state.wf(),
    ensures
        operation matches Operation::Buy { user_id, key, quote: Ok(quoted), .. } ==> worth(
            step(state, operation),
            user_id,
            key,
            quoted.price as int,
        ) <= worth(state, user_id, key, quoted.price as int),
        operation matches Operation::Sell { user_id, key, quote: Ok(quoted), .. } ==> worth(
            step(state, operation),
            user_id,
            key,
            quoted.price as int,
        ) <= worth(state, user_id, key, quoted.price as int),
        operation matches Operation::SellAll { user_id, key, quote: Ok(quoted), .. } ==> worth(
            step(state, operation),
            user_id,
            key,
            quoted.price as int,
        ) <= worth(state, user_id, key, quoted.price as int),
{
    let accounts = state.accounts;
    match operation {
        Operation::Buy { user_id, key, fiat, quote, now } => {
            if let Ok((coins, price)) = buy_outcome(state, user_id, key, fiat, quote) {
                let balance = balance_of(accounts, user_id) - fiat;
                lemma_worth_after_trade(state, user_id, key, balance, coins, price, now);
                assert(coins * price <= fiat * SCALE) by (nonlinear_arith)
                    requires
                        fiat > 0,
                        price > 0,
                        coins == fiat * SCALE / (price as int),
                ;
                let held = owned(state.trades, user_id, key);
                assert((held + coins) * price == held * price + coins * price)
                    by (nonlinear_arith);
                assert((balance_of(accounts, user_id) - fiat) * SCALE == balance_of(
                    accounts,
                    user_id,
                ) * SCALE - fiat * SCALE) by (nonlinear_arith);
            }
        },
        Operation::Sell { user_id, key, fiat, quote, now } => {
            if let Ok((coins, price)) = sell_outcome(state, user_id, key, fiat, quote) {
                let balance = balance_of(accounts, user_id) + fiat;
                lemma_worth_after_trade(
                    state,
                    user_id,
                    key,
                    balance,
                    (-coins) as i64,
                    price,
                    now,
                );
                assert(coins * price >= fiat * SCALE) by (nonlinear_arith)
                    requires
                        fiat > 0,
                        price > 0,
                        coins == (fiat * SCALE + price - 1) / (price as int),
                ;
                let held = owned(state.trades, user_id, key);
                assert((held + (-coins)) * price == held * price - coins * price)
                    by (nonlinear_arith);
                assert((balance_of(accounts, user_id) + fiat) * SCALE == balance_of(
                    accounts,
                    user_id,
                ) * SCALE + fiat * SCALE) by (nonlinear_arith);
            }
        },
        Operation::SellAll { user_id, key, quote, now } => {
            if let Ok((coins, price)) = sell_all_outcome(state, user_id, key, quote) {
                let proceeds = value_at_spec(coins as int, price as int)->0;
                let balance = balance_of(accounts, user_id) + proceeds;
                lemma_worth_after_trade(
                    state,
                    user_id,
                    key,
                    balance,
                    (-coins) as i64,
                    price,
                    now,
                );
                assert(proceeds * SCALE <= coins * price) by (nonlinear_arith)
                    requires
                        coins >= 0,
                        price >= 0,
                        proceeds == coins * price / (SCALE as int),
                        SCALE == 1_000_000,
                ;
                let held = owned(state.trades, user_id, key);
                assert((held + (-coins)) * price == held * price - coins * price)
                    by (nonlinear_arith);
                assert((balance_of(accounts, user_id) + proceeds) * SCALE == balance_of(
                    accounts,
                    user_id,
                ) * SCALE + proceeds * SCALE) by (nonlinear_arith);
            }
        },
        _ => {},
    }
}

/// What a user is worth after a trade: the new balance, and the holding
/// changed by the amount traded.
proof fn lemma_worth_after_trade(
    state: Economy,
    user_id: u64,
    key: Seq<char>,
    balance: int,
    amount: i64,
    price: i64,
    now: u64,
)
    requires
        state.wf(),
        has_account(state.accounts, user_id),
        0 <= balance <= i64::MAX,
    ensures
        worth(
            after_trade(state, user_id, key, balance, amount, price, now),
            user_id,
            key,
            price as int,
        ) == balance * SCALE + (owned(state.trades, user_id, key) + amount)
            * price,
{
    let updated = account_of(state.accounts, user_id).with_balance(balance as i64);
    lemma_with_account_lookup(state.accounts, updated, user_id);
    lemma_owned_push(
        state.trades,
        next_trade(state.trades, user_id, key, amount, price, now),
        user_id,
        key,
    );
}

} // verus!
