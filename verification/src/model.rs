//! The economy engine: the operations that a front-end calls, each of
//! which either takes place as a whole or reports why it did not.
//!
//! Every operation checks in the same order: first that the accounts it
//! names exist, then that its arguments are valid, then that the money or
//! the coins are there. A caller so learns the most specific reason.

use std::collections::HashMap;
use vstd::prelude::*;
pub use crate::error::ModelError;
pub use crate::oracle::CoinInfo;
use crate::account::{
    account_of, after_adjust, after_claim, claim_outcome, has_account, is_leaderboard,
    lemma_with_account_lookup, total_balance, Account, AccountStore,
};
use crate::chance::random_ratio;
use crate::config::Config;
use crate::economy::{
    after_buy, after_create, after_give, after_sell, after_sell_all, after_trade, after_wager,
    bless_outcome, buy_outcome, create_outcome, day_of, give_outcome, ledger_full, picks_heads,
    response_for, sell_all_outcome, sell_outcome, valued, wager_outcome, Economy, SECONDS_PER_DAY,
};
use crate::laws::{
    lemma_give_conserves_total, lemma_step_keeps_wf, lemma_trade_recorded, Operation,
};
use crate::ledger::{
    entries_view, is_portfolio, lemma_owned_needs_a_trade, lemma_portfolio_lists_what_is_held,
    owned, portfolio_of, portfolio_view, Trade, TradeEntry, TradeLedger,
};
use crate::money::{checked_sum, purchase_size, sale_size, value_at};
use crate::oracle::{
    is_quote, quote_in, quote_under, quote_url, quote_url_spec, read_quote, read_quote_by_key,
    received, OracleResponse,
};
use crate::permissions::Permission;
use crate::symbol::{to_uppercase, uppercase_of};
use vstd::string::StringExecFns;

verus! {

broadcast use vstd::std_specs::hash::group_hash_axioms;

/// The daily reward of a new engine: one hundred units of fiat.
pub const DAILY_REWARD: i64 = 100_000_000;

/// The user who administers every engine from the start.
pub const FOUNDING_ADMIN: u64 = 181002804813496320;

/// The engine: the account store and the trade ledger, with the settings
/// that its operations go by.
pub struct Model {
    config: Config,
    accounts: AccountStore,
    ledger: TradeLedger,
    permissions: HashMap<u64, Permission>,
    daily_amount: i64,
}

impl View for Model {
    type V = Economy;

    closed spec fn view(&self) -> Economy {
        Economy { accounts: self.accounts@, trades: self.ledger@ }
    }
}

impl Model {
    /// What holds of every engine: its state is well formed.
    pub open spec fn wf(&self) -> bool {
        self@.wf()
    }

    /// Who was granted which permission.
    pub closed spec fn granted(&self) -> Map<u64, Permission> {
        self.permissions@
    }

    /// The configuration that the engine was made with.
    pub closed spec fn settings(&self) -> Config {
        self.config
    }

    /// The fiat that a daily reward pays.
    pub closed spec fn daily_reward(&self) -> i64 {
        self.daily_amount
    }

    /// Whether this engine has the settings of `before`: the same
    /// configuration, permissions and daily reward.
    pub open spec fn set_up_like(&self, before: &Model) -> bool {
        &&& self.settings() == before.settings()
        &&& self.granted() == before.granted()
        &&& self.daily_reward() == before.daily_reward()
    }

    /// An engine without accounts or trades, with the usual daily reward
    /// and the founding administrator.
    pub fn new(config: Config) -> (model: Model)
        ensures
            model.wf(),
            model@.accounts == Seq::<Account>::empty(),
            model@.trades == Seq::<Trade>::empty(),
            model.settings() == config,
            model.daily_reward() == DAILY_REWARD,
            model.granted() == Map::<u64, Permission>::empty().insert(
                FOUNDING_ADMIN,
                Permission::Admin,
            ),
    {
        let mut permissions: HashMap<u64, Permission> = HashMap::new();
        permissions.insert(FOUNDING_ADMIN, Permission::Admin);
        let model = Model {
            config,
            accounts: AccountStore::new(),
            ledger: TradeLedger::new(),
            permissions,
            daily_amount: DAILY_REWARD,
        };
        proof {
            assert forall|user_id: u64, symbol: Seq<char>|
                0 <= #[trigger] owned(model@.trades, user_id, symbol) <= i64::MAX by {}
        }
        model
    }

    /// An engine over accounts and trades that were stored earlier, with
    /// the usual daily reward and the founding administrator; or `None` if
    /// they do not make a well-formed state.
    pub fn restore(config: Config, accounts: Vec<Account>, entries: Vec<TradeEntry>) -> (model:
        Option<Model>)
        ensures
            model is Some == (Economy { accounts: accounts@, trades: entries_view(entries@) }).wf(),
            model matches Some(restored) ==> {
                &&& restored.wf()
                &&& restored@ == (Economy { accounts: accounts@, trades: entries_view(entries@) })
                &&& restored.settings() == config
                &&& restored.daily_reward() == DAILY_REWARD
                &&& restored.granted() == Map::<u64, Permission>::empty().insert(
                    FOUNDING_ADMIN,
                    Permission::Admin,
                )
            },
    {
        let ghost state = Economy { accounts: accounts@, trades: entries_view(entries@) };
        let store = match AccountStore::from_accounts(accounts) {
            Some(store) => store,
            None => {
                return None;
            },
        };
        let ledger = match TradeLedger::from_entries(entries) {
            Some(ledger) => ledger,
            None => {
                return None;
            },
        };
        let mut i: usize = 0;
        while i < ledger.len()
            invariant
                i <= ledger@.len(),
                store.wf(),
                store@ == state.accounts,
                ledger@ == state.trades,
                state == (Economy { accounts: accounts@, trades: entries_view(entries@) }),
                forall|k: int|
                    0 <= k < i ==> has_account(state.accounts, (#[trigger] state.trades[k]).user_id),
                forall|k: int|
                    0 <= k < i ==> 0 <= owned(
                        state.trades,
                        (#[trigger] state.trades[k]).user_id,
                        state.trades[k].symbol,
                    ) <= i64::MAX,
            decreases ledger@.len() - i,
        {
            if !store.contains(ledger.trader(i)) {
                assert(!has_account(state.accounts, state.trades[i as int].user_id));
                return None;
            }
            if !ledger.holding_is_sound(i) {
                assert(!(0 <= owned(
                    state.trades,
                    state.trades[i as int].user_id,
                    state.trades[i as int].symbol,
                ) <= i64::MAX));
                return None;
            }
            i += 1;
        }
        proof {
            assert forall|user_id: u64, symbol: Seq<char>|
                0 <= #[trigger] owned(state.trades, user_id, symbol) <= i64::MAX by {
                if owned(state.trades, user_id, symbol) != 0 {
                    lemma_owned_needs_a_trade(state.trades, user_id, symbol);
                    let k = choose|k: int|
                        0 <= k < state.trades.len() && (#[trigger] state.trades[k]).user_id
                            == user_id && state.trades[k].symbol == symbol;
                    assert(0 <= owned(state.trades, state.trades[k].user_id, state.trades[k].symbol)
                        <= i64::MAX);
                }
            }
        }
        let mut permissions: HashMap<u64, Permission> = HashMap::new();
        permissions.insert(FOUNDING_ADMIN, Permission::Admin);
        Some(Model { config, accounts: store, ledger, permissions, daily_amount: DAILY_REWARD })
    }

    /// The configuration that the engine was made with.
    pub fn config(&self) -> (config: &Config)
        ensures
            *config == self.settings(),
    {
        &self.config
    }

    /// The fiat that a daily reward pays.
    pub fn daily_amount(&self) -> (amount: i64)
        ensures
            amount == self.daily_reward(),
    {
        self.daily_amount
    }

    /// Sets the fiat that a daily reward pays. A negative amount can be
    /// set, and every claim is then refused as invalid.
    pub fn set_daily_amount(&mut self, amount: i64)
        ensures
            final(self)@ == old(self)@,
            final(self).settings() == old(self).settings(),
            final(self).granted() == old(self).granted(),
            final(self).daily_reward() == amount,
    {
        self.daily_amount = amount;
    }

    /// Whether `user_id` was granted `permission` or a higher one.
    pub fn user_has_permission(&self, user_id: u64, permission: Permission) -> (allowed: bool)
        ensures
            allowed == (self.granted().contains_key(user_id) && self.granted()[user_id].covers(
                permission,
            )),
    {
        match self.permissions.get(&user_id) {
            Some(held) => held.allows(permission),
            None => false,
        }
    }

    /// The balance of `user_id`.
    pub fn balance(&self, user_id: u64) -> (outcome: Result<i64, ModelError>)
        requires
            self.wf(),
        ensures
            outcome == (if has_account(self@.accounts, user_id) {
                Ok::<i64, ModelError>(account_of(self@.accounts, user_id).balance)
            } else {
                Err::<i64, ModelError>(ModelError::NotFound(user_id))
            }),
    {
        self.accounts.get_balance(user_id)
    }

    /// Opens an account for `user_id` with a balance of zero. A user who
    /// has an account keeps it unchanged and is told `AlreadyExists`.
    pub fn create_bank_account(&mut self, user_id: u64) -> (outcome: Result<(), ModelError>)
        requires
            old(self).wf(),
        ensures
            final(self).wf(),
            final(self).set_up_like(old(self)),
            outcome == create_outcome(old(self)@.accounts, user_id),
            final(self)@ == old(self)@.with_accounts(after_create(old(self)@.accounts, user_id)),
    {
        let outcome = self.accounts.create(user_id);
        proof {
            lemma_step_keeps_wf(old(self)@, Operation::Create { user_id });
        }
        outcome
    }

    /// Transfers `amount` from `src_user_id` to `dst_user_id` and returns the
    /// new balances of the two.
    ///
    /// Both users need an account, the amount has to be strictly positive,
    /// and the sender's balance has to cover it. The transfer takes place
    /// as a whole or not at all: whenever an error is returned, no balance
    /// has changed. The sum of all balances is the same before and after.
    pub fn give(&mut self, src_user_id: u64, dst_user_id: u64, amount: i64) -> (outcome: Result<
        (i64, i64),
        ModelError,
    >)
        requires
            old(self).wf(),
        ensures
            final(self).wf(),
            final(self).set_up_like(old(self)),
            outcome == give_outcome(old(self)@.accounts, src_user_id, dst_user_id, amount),
            final(self)@ == old(self)@.with_accounts(
                after_give(old(self)@.accounts, src_user_id, dst_user_id, amount),
            ),
            total_balance(final(self)@.accounts) == total_balance(old(self)@.accounts),
    {
        proof {
            lemma_give_conserves_total(old(self)@.accounts, src_user_id, dst_user_id, amount);
        }
        let src_balance = match self.accounts.get_balance(src_user_id) {
            Ok(balance) => balance,
            Err(error) => {
                return Err(error);
            },
        };
        let dst_balance = match self.accounts.get_balance(dst_user_id) {
            Ok(balance) => balance,
            Err(error) => {
                return Err(error);
            },
        };
        if amount <= 0 {
            return Err(ModelError::InvalidAmount);
        }
        if src_balance < amount {
            return Err(ModelError::InsufficientFunds);
        }
        if src_user_id != dst_user_id && checked_sum(dst_balance, amount).is_none() {
            return Err(ModelError::Unexpected);
        }
        let ghost before = self@.accounts;
        let ghost debited_account = account_of(before, src_user_id).with_balance(
            (src_balance - amount) as i64,
        );
        let src_new_balance = match self.accounts.adjust(src_user_id, -amount, false) {
            Ok(balance) => balance,
            Err(error) => {
                return Err(error);
            },
        };
        proof {
            lemma_with_account_lookup(before, debited_account, dst_user_id);
        }
        let ghost debited = self@.accounts;
        let dst_new_balance = match self.accounts.adjust(dst_user_id, amount, false) {
            Ok(balance) => balance,
            Err(error) => {
                return Err(error);
            },
        };
        proof {
            assert(account_of(debited, dst_user_id).with_balance(dst_new_balance) == account_of(
                before,
                dst_user_id,
            ).with_balance(dst_new_balance));
            lemma_step_keeps_wf(
                old(self)@,
                Operation::Give { src: src_user_id, dst: dst_user_id, amount },
            );
        }
        Ok((src_new_balance, dst_new_balance))
    }

    /// Credits `amount` to `dst_user_id` on an administrator's word and
    /// returns the new balance. The amount may be negative, to take money
    /// away; a balance that would fall below zero becomes zero.
    pub fn bless(&mut self, dst_user_id: u64, amount: i64) -> (outcome: Result<i64, ModelError>)
        requires
            old(self).wf(),
        ensures
            final(self).wf(),
            final(self).set_up_like(old(self)),
            outcome == bless_outcome(old(self)@.accounts, dst_user_id, amount),
            final(self)@ == old(self)@.with_accounts(
                after_adjust(old(self)@.accounts, dst_user_id, outcome),
            ),
    {
        let outcome = self.accounts.adjust(dst_user_id, amount, true);
        proof {
            lemma_step_keeps_wf(old(self)@, Operation::Bless { dst: dst_user_id, amount });
        }
        outcome
    }

    /// All accounts as rows of user and balance, ordered by balance from
    /// the highest down; accounts of equal balance keep the order of their
    /// creation.
    pub fn leaderboard(&self) -> (board: Vec<(u64, i64)>)
        requires
            self.wf(),
        ensures
            is_leaderboard(self@.accounts, board@),
    {
        self.accounts.leaderboard()
    }

    /// Pays the daily reward to `user_id` unless the user has claimed it on
    /// the calendar day of `now` already, and says whether it was paid.
    ///
    /// Only the calendar day counts, not the time that has passed: the
    /// reward can be claimed again as soon as the next day begins.
    pub fn daily(&mut self, user_id: u64, now: u64) -> (outcome: Result<bool, ModelError>)
        requires
            old(self).wf(),
        ensures
            final(self).wf(),
            final(self).set_up_like(old(self)),
            outcome == claim_outcome(
                old(self)@.accounts,
                user_id,
                old(self).daily_reward(),
                day_of(now),
            ),
            final(self)@ == old(self)@.with_accounts(
                after_claim(old(self)@.accounts, user_id, old(self).daily_reward(), day_of(now)),
            ),
    {
        let today = now / SECONDS_PER_DAY;
        let outcome = self.accounts.try_claim_daily(user_id, self.daily_amount, today);
        proof {
            lemma_step_keeps_wf(
                old(self)@,
                Operation::Daily { user_id, reward: self.daily_amount, today },
            );
        }
        outcome
    }

    /// Settles a wager of `bet` on `choice`, which is `heads` or `tails`,
    /// for a coin that has landed as `heads` says, and reports whether the
    /// wager was won.
    ///
    /// A won wager adds the bet to the balance and a lost one takes it
    /// away. The user needs an account, the bet has to be strictly
    /// positive, and the balance has to cover a lost bet. Whenever an error
    /// is returned, nothing has changed.
    pub fn settle_coin_flip(&mut self, user_id: u64, choice: &str, bet: i64, heads: bool) -> (outcome:
        Result<bool, ModelError>)
        requires
            old(self).wf(),
        ensures
            final(self).wf(),
            final(self).set_up_like(old(self)),
            outcome == wager_outcome(old(self)@.accounts, user_id, choice@, bet, heads),
            final(self)@ == old(self)@.with_accounts(
                after_wager(old(self)@.accounts, user_id, choice@, bet, heads),
            ),
    {
        if !self.accounts.contains(user_id) {
            return Err(ModelError::NotFound(user_id));
        }
        if bet <= 0 {
            return Err(ModelError::InvalidAmount);
        }
        let picked = match side_of(choice) {
            Some(picked) => picked,
            None => {
                return Err(ModelError::InvalidValue);
            },
        };
        let has_won = picked == heads;
        let delta = if has_won {
            bet
        } else {
            -bet
        };
        match self.accounts.adjust(user_id, delta, false) {
            Ok(_) => {
                proof {
                    lemma_step_keeps_wf(
                        old(self)@,
                        Operation::Wager { user_id, choice: choice@, bet, heads },
                    );
                }
                Ok(has_won)
            },
            Err(error) => Err(error),
        }
    }

    /// Wagers `bet` on `choice`, which is `heads` or `tails`: draws a coin
    /// that lands heads with one chance in two, and settles the wager as
    /// `settle_coin_flip` does. Whichever way the coin lands, the outcome
    /// and the state are those of that settlement.
    pub fn coin_flip(&mut self, user_id: u64, choice: &str, bet: i64) -> (outcome: Result<
        bool,
        ModelError,
    >)
        requires
            old(self).wf(),
        ensures
            final(self).wf(),
            final(self).set_up_like(old(self)),
            exists|heads: bool|
                outcome == #[trigger] wager_outcome(
                    old(self)@.accounts,
                    user_id,
                    choice@,
                    bet,
                    heads,
                ) && final(self)@ == old(self)@.with_accounts(
                    after_wager(old(self)@.accounts, user_id, choice@, bet, heads),
                ),
    {
        let heads = random_ratio(1, 2);
        self.settle_coin_flip(user_id, choice, bet, heads)
    }

    /// The address to ask for the current price of `coin_symbol`, on the
    /// service that the configuration selects.
    pub fn quote_url(&self, coin_symbol: &str) -> (url: String)
        ensures
            url@ == quote_url_spec(self.settings().use_cmc_sandbox_api, coin_symbol@),
    {
        quote_url(&self.config, coin_symbol)
    }

    /// The name and current price of `coin_symbol` according to what the
    /// price source answered; `None` stands for a request that failed or an
    /// answer that could not be understood.
    pub fn coin_info(&self, coin_symbol: &str, response: Option<&OracleResponse>) -> (outcome:
        Result<CoinInfo, ModelError>)
        ensures
            is_quote(outcome, quote_in(coin_symbol@, received(response))),
    {
        read_quote(coin_symbol, response)
    }

    /// The coins that `user_id` holds of the coin filed under `key`; zero
    /// for a user who never traded it.
    pub fn owned_by_key(&self, user_id: u64, key: &str) -> (held: i64)
        requires
            self.wf(),
        ensures
            held == owned(self@.trades, user_id, key@),
    {
        self.ledger.owned_by_key(user_id, key) as i64
    }

    /// The coins of `coin_symbol` that `user_id` holds, whatever the case
    /// of the symbol's letters: what `owned_by_key` gives under the
    /// upper-case form of the symbol.
    pub fn owned_amount(&self, user_id: u64, coin_symbol: &str) -> (held: i64)
        requires
            self.wf(),
        ensures
            held == owned(self@.trades, user_id, uppercase_of(coin_symbol@)),
    {
        let key = to_uppercase(coin_symbol);
        self.owned_by_key(user_id, key.as_str())
    }

    /// The coins that `user_id` holds in a strictly positive amount, each
    /// with that amount, in the order in which they were first traded.
    pub fn holdings(&self, user_id: u64) -> (outcome: Result<Vec<(String, i64)>, ModelError>)
        requires
            self.wf(),
        ensures
            !has_account(self@.accounts, user_id) ==> outcome == Err::<
                Vec<(String, i64)>,
                ModelError,
            >(ModelError::NotFound(user_id)),
            has_account(self@.accounts, user_id) ==> outcome is Ok && holdings_view(outcome->Ok_0@)
                == portfolio_of(self@.trades, user_id),
    {
        if !self.accounts.contains(user_id) {
            return Err(ModelError::NotFound(user_id));
        }
        let wide = self.ledger.portfolio(user_id);
        let mut holdings: Vec<(String, i64)> = Vec::new();
        let ghost target = portfolio_of(self@.trades, user_id);
        proof {
            lemma_portfolio_lists_what_is_held(self@.trades, user_id);
            assert(holdings_view(holdings@) =~= target.take(0));
        }
        let mut k: usize = 0;
        while k < wide.len()
            invariant
                self.wf(),
                k <= wide.len(),
                holdings@.len() == k,
                portfolio_view(wide@) == target,
                is_portfolio(self@.trades, user_id, target),
                holdings_view(holdings@) == target.take(k as int),
            decreases wide.len() - k,
        {
            let ghost before = holdings@;
            let symbol = wide[k].0.clone();
            let amount = wide[k].1;
            assert(target[k as int].1 == owned(self@.trades, user_id, target[k as int].0));
            holdings.push((symbol, amount as i64));
            assert(holdings_view(holdings@) =~= target.take(k + 1)) by {
                assert(holdings_view(before) == target.take(k as int));
                assert forall|j: int| 0 <= j < k + 1 implies holdings_view(holdings@)[j]
                    == target.take(k + 1)[j] by {
                    if j < k {
                        assert(holdings@[j] == before[j]);
                        assert(holdings_view(before)[j] == target.take(k as int)[j]);
                    }
                }
            }
            k += 1;
        }
        assert(target.take(k as int) =~= target);
        Ok(holdings)
    }

    /// Buys for `euro_amount` of fiat the coin that is filed under `key`,
    /// at the price that the price source answered for the coin it lists
    /// under that key, and returns the coins bought and that price.
    ///
    /// The user needs an account, the amount has to be strictly positive,
    /// the coin has to be quoted, and the balance has to cover the amount.
    /// The purchase takes place as a whole or not at all: whenever an error
    /// is returned, neither balance nor ledger has changed.
    pub fn buy_by_key(
        &mut self,
        user_id: u64,
        key: &str,
        euro_amount: i64,
        response: Option<&OracleResponse>,
        now: u64,
    ) -> (outcome: Result<(i64, i64), ModelError>)
        requires
            old(self).wf(),
        ensures
            final(self).wf(),
            final(self).set_up_like(old(self)),
            outcome == buy_outcome(
                old(self)@,
                user_id,
                key@,
                euro_amount,
                quote_under(key@, key@, received(response)),
            ),
            final(self)@ == after_buy(
                old(self)@,
                user_id,
                key@,
                euro_amount,
                quote_under(key@, key@, received(response)),
                now,
            ),
    {
        let balance = match self.accounts.get_balance(user_id) {
            Ok(balance) => balance,
            Err(error) => {
                return Err(error);
            },
        };
        if euro_amount <= 0 {
            return Err(ModelError::InvalidAmount);
        }
        let coin_info = match read_quote_by_key(key, key, response) {
            Ok(coin_info) => coin_info,
            Err(error) => {
                return Err(error);
            },
        };
        let price = coin_info.current_price;
        let coin_amount = match purchase_size(euro_amount, price) {
            Some(coin_amount) => coin_amount,
            None => {
                return Err(ModelError::Unexpected);
            },
        };
        if coin_amount == 0 {
            return Err(ModelError::InvalidAmount);
        }
        if balance < euro_amount {
            return Err(ModelError::InsufficientFunds);
        }
        let held = self.ledger.owned_by_key(user_id, key);
        if held + coin_amount as i128 > i64::MAX as i128 || self.ledger.len() as u64 == u64::MAX {
            return Err(ModelError::Unexpected);
        }
        self.record_trade(user_id, key, balance - euro_amount, coin_amount, price, now);
        Ok((coin_amount, price))
    }

    /// Buys `coin_symbol` for `euro_amount` of fiat, whatever the case of
    /// the symbol's letters: what `buy_by_key` does under the upper-case
    /// form of the symbol.
    pub fn buy(
        &mut self,
        user_id: u64,
        coin_symbol: &str,
        euro_amount: i64,
        response: Option<&OracleResponse>,
        now: u64,
    ) -> (outcome: Result<(i64, i64), ModelError>)
        requires
            old(self).wf(),
        ensures
            final(self).wf(),
            final(self).set_up_like(old(self)),
            outcome == buy_outcome(
                old(self)@,
                user_id,
                uppercase_of(coin_symbol@),
                euro_amount,
                quote_under(
                    uppercase_of(coin_symbol@),
                    uppercase_of(coin_symbol@),
                    received(response),
                ),
            ),
            final(self)@ == after_buy(
                old(self)@,
                user_id,
                uppercase_of(coin_symbol@),
                euro_amount,
                quote_under(
                    uppercase_of(coin_symbol@),
                    uppercase_of(coin_symbol@),
                    received(response),
                ),
                now,
            ),
    {
        let key = to_uppercase(coin_symbol);
        self.buy_by_key(user_id, key.as_str(), euro_amount, response, now)
    }

    /// Sells as much of the coin that is filed under `key` as brings in
    /// `euro_amount` of fiat, at the price that the price source answered
    /// for the coin it lists under that key, and returns the coins sold and
    /// that price.
    ///
    /// The user needs an account, the amount has to be strictly positive,
    /// the coin has to be quoted, and the holding has to cover the coins.
    /// The sale takes place as a whole or not at all: whenever an error is
    /// returned, neither balance nor ledger has changed.
    pub fn sell_by_key(
        &mut self,
        user_id: u64,
        key: &str,
        euro_amount: i64,
        response: Option<&OracleResponse>,
        now: u64,
    ) -> (outcome: Result<(i64, i64), ModelError>)
        requires
            old(self).wf(),
        ensures
            final(self).wf(),
            final(self).set_up_like(old(self)),
            outcome == sell_outcome(
                old(self)@,
                user_id,
                key@,
                euro_amount,
                quote_under(key@, key@, received(response)),
            ),
            final(self)@ == after_sell(
                old(self)@,
                user_id,
                key@,
                euro_amount,
                quote_under(key@, key@, received(response)),
                now,
            ),
    {
        let balance = match self.accounts.get_balance(user_id) {
            Ok(balance) => balance,
            Err(error) => {
                return Err(error);
            },
        };
        if euro_amount <= 0 {
            return Err(ModelError::InvalidAmount);
        }
        let coin_info = match read_quote_by_key(key, key, response) {
            Ok(coin_info) => coin_info,
            Err(error) => {
                return Err(error);
            },
        };
        let price = coin_info.current_price;
        let coin_amount = match sale_size(euro_amount, price) {
            Some(coin_amount) => coin_amount,
            None => {
                return Err(ModelError::Unexpected);
            },
        };
        let held = self.ledger.owned_by_key(user_id, key);
        if held < coin_amount as i128 {
            return Err(ModelError::InsufficientCoins);
        }
        let new_balance = match checked_sum(balance, euro_amount) {
            Some(new_balance) => new_balance,
            None => {
                return Err(ModelError::Unexpected);
            },
        };
        if self.ledger.len() as u64 == u64::MAX {
            return Err(ModelError::Unexpected);
        }
        self.record_trade(user_id, key, new_balance, -coin_amount, price, now);
        Ok((coin_amount, price))
    }

    /// Sells as much of `coin_symbol` as brings in `euro_amount` of fiat,
    /// whatever the case of the symbol's letters: what `sell_by_key` does
    /// under the upper-case form of the symbol.
    pub fn sell(
        &mut self,
        user_id: u64,
        coin_symbol: &str,
        euro_amount: i64,
        response: Option<&OracleResponse>,
        now: u64,
    ) -> (outcome: Result<(i64, i64), ModelError>)
        requires
            old(self).wf(),
        ensures
            final(self).wf(),
            final(self).set_up_like(old(self)),
            outcome == sell_outcome(
                old(self)@,
                user_id,
                uppercase_of(coin_symbol@),
                euro_amount,
                quote_under(
                    uppercase_of(coin_symbol@),
                    uppercase_of(coin_symbol@),
                    received(response),
                ),
            ),
            final(self)@ == after_sell(
                old(self)@,
                user_id,
                uppercase_of(coin_symbol@),
                euro_amount,
                quote_under(
                    uppercase_of(coin_symbol@),
                    uppercase_of(coin_symbol@),
                    received(response),
                ),
                now,
            ),
    {
        let key = to_uppercase(coin_symbol);
        self.sell_by_key(user_id, key.as_str(), euro_amount, response, now)
    }

    /// Sells the whole holding of `user_id` in the coin that is filed under
    /// `key`, at the price that the price source answered for the coin it
    /// lists under that key, and returns the coins sold and that price.
    ///
    /// The user needs an account, the coin has to be quoted, and there has
    /// to be a holding above zero. The sale takes place as a whole or not
    /// at all: whenever an error is returned, neither balance nor ledger
    /// has changed.
    pub fn sell_all_by_key(
        &mut self,
        user_id: u64,
        key: &str,
        response: Option<&OracleResponse>,
        now: u64,
    ) -> (outcome: Result<(i64, i64), ModelError>)
        requires
            old(self).wf(),
        ensures
            final(self).wf(),
            final(self).set_up_like(old(self)),
            outcome == sell_all_outcome(
                old(self)@,
                user_id,
                key@,
                quote_under(key@, key@, received(response)),
            ),
            final(self)@ == after_sell_all(
                old(self)@,
                user_id,
                key@,
                quote_under(key@, key@, received(response)),
                now,
            ),
    {
        let balance = match self.accounts.get_balance(user_id) {
            Ok(balance) => balance,
            Err(error) => {
                return Err(error);
            },
        };
        let coin_info = match read_quote_by_key(key, key, response) {
            Ok(coin_info) => coin_info,
            Err(error) => {
                return Err(error);
            },
        };
        let price = coin_info.current_price;
        let held = self.ledger.owned_by_key(user_id, key);
        if held <= 0 {
            return Err(ModelError::InsufficientCoins);
        }
        let owned_coin_amount = held as i64;
        let proceeds = match value_at(owned_coin_amount, price) {
            Some(proceeds) => proceeds,
            None => {
                return Err(ModelError::Unexpected);
            },
        };
        let new_balance = match checked_sum(balance, proceeds) {
            Some(new_balance) => new_balance,
            None => {
                return Err(ModelError::Unexpected);
            },
        };
        if self.ledger.len() as u64 == u64::MAX {
            return Err(ModelError::Unexpected);
        }
        self.record_trade(user_id, key, new_balance, -owned_coin_amount, price, now);
        Ok((owned_coin_amount, price))
    }

    /// Sells the whole holding of `user_id` in `coin_symbol`, whatever the
    /// case of the symbol's letters: what `sell_all_by_key` does under the
    /// upper-case form of the symbol.
    pub fn sell_all(
        &mut self,
        user_id: u64,
        coin_symbol: &str,
        response: Option<&OracleResponse>,
        now: u64,
    ) -> (outcome: Result<(i64, i64), ModelError>)
        requires
            old(self).wf(),
        ensures
            final(self).wf(),
            final(self).set_up_like(old(self)),
            outcome == sell_all_outcome(
                old(self)@,
                user_id,
                uppercase_of(coin_symbol@),
                quote_under(
                    uppercase_of(coin_symbol@),
                    uppercase_of(coin_symbol@),
                    received(response),
                ),
            ),
            final(self)@ == after_sell_all(
                old(self)@,
                user_id,
                uppercase_of(coin_symbol@),
                quote_under(
                    uppercase_of(coin_symbol@),
                    uppercase_of(coin_symbol@),
                    received(response),
                ),
                now,
            ),
    {
        let key = to_uppercase(coin_symbol);
        self.sell_all_by_key(user_id, key.as_str(), response, now)
    }

    /// Carries out a trade that was found to be in order: sets the balance
    /// and appends the entry.
    fn record_trade(
        &mut self,
        user_id: u64,
        key: &str,
        new_balance: i64,
        signed_amount: i64,
        price: i64,
        now: u64,
    )
        requires
            old(self).wf(),
            has_account(old(self)@.accounts, user_id),
            new_balance >= 0,
            !ledger_full(old(self)@.trades),
            0 <= owned(old(self)@.trades, user_id, key@) + signed_amount <= i64::MAX,
        ensures
            final(self).wf(),
            final(self).set_up_like(old(self)),
            final(self)@ == after_trade(
                old(self)@,
                user_id,
                key@,
                new_balance as int,
                signed_amount,
                price,
                now,
            ),
    {
        let ghost before = self@;
        self.accounts.set_balance(user_id, new_balance);
        let appended = self.ledger.append_by_key(user_id, key, signed_amount, price, now);
        assert(appended is Ok);
        proof {
            lemma_trade_recorded(
                before,
                user_id,
                key@,
                new_balance as int,
                signed_amount,
                price,
                now,
            );
        }
    }

    /// The portfolio of `user_id` with its value: each coin held in a
    /// strictly positive amount, with that amount and what it is worth at
    /// the price that the price source answered for it.
    ///
    /// The `k`-th of `responses` is the answer for the `k`-th holding, in
    /// the order of `holdings`, and is searched for the coin listed under
    /// the key that the holding is filed under; a holding without an answer
    /// counts as one whose request failed. The first holding that has no
    /// quote, or a value too large to be held, decides the error.
    pub fn portfolio(&self, user_id: u64, responses: &Vec<Option<OracleResponse>>) -> (outcome:
        Result<Vec<(String, i64, i64)>, ModelError>)
        requires
            self.wf(),
        ensures
            !has_account(self@.accounts, user_id) ==> outcome == Err::<
                Vec<(String, i64, i64)>,
                ModelError,
            >(ModelError::NotFound(user_id)),
            has_account(self@.accounts, user_id) ==> is_valuation(
                outcome,
                valued(
                    portfolio_of(self@.trades, user_id),
                    responses@,
                    portfolio_of(self@.trades, user_id).len() as int,
                ),
            ),
    {
        let holdings = match self.holdings(user_id) {
            Ok(holdings) => holdings,
            Err(error) => {
                return Err(error);
            },
        };
        let ghost target = portfolio_of(self@.trades, user_id);
        let mut rows: Vec<(String, i64, i64)> = Vec::new();
        let mut k: usize = 0;
        assert(rows_view(rows@) =~= Seq::<(Seq<char>, int, int)>::empty());
        while k < holdings.len()
            invariant
                k <= holdings.len(),
                has_account(self@.accounts, user_id),
                target == portfolio_of(self@.trades, user_id),
                holdings_view(holdings@) == target,
                valued(target, responses@, k as int) == Ok::<
                    Seq<(Seq<char>, int, int)>,
                    ModelError,
                >(rows_view(rows@)),
            decreases holdings.len() - k,
        {
            let ghost before = rows@;
            assert(holdings_view(holdings@)[k as int] == target[k as int]);
            let response = if k < responses.len() {
                responses[k].as_ref()
            } else {
                None
            };
            assert(received(response) == response_for(responses@, k as int));
            let amount = holdings[k].1;
            let coin_info = match read_quote_by_key(
                holdings[k].0.as_str(),
                holdings[k].0.as_str(),
                response,
            ) {
                Ok(coin_info) => coin_info,
                Err(error) => {
                    proof {
                        lemma_valued_error_stays(target, responses@, k + 1, target.len() as int);
                    }
                    return Err(error);
                },
            };
            let value = match value_at(amount, coin_info.current_price) {
                Some(value) => value,
                None => {
                    proof {
                        lemma_valued_error_stays(target, responses@, k + 1, target.len() as int);
                    }
                    return Err(ModelError::Unexpected);
                },
            };
            rows.push((holdings[k].0.clone(), amount, value));
            assert(rows_view(rows@) =~= rows_view(before).push(
                (target[k as int].0, amount as int, value as int),
            ));
            k += 1;
        }
        Ok(rows)
    }

    /// How many accounts there are.
    pub fn account_count(&self) -> (n: usize)
        ensures
            n == self@.accounts.len(),
    {
        self.accounts.len()
    }

    /// The account that was opened `i`-th, counting from zero.
    pub fn account(&self, i: usize) -> (account: Option<Account>)
        ensures
            account == (if i < self@.accounts.len() {
                Some(self@.accounts[i as int])
            } else {
                None
            }),
    {
        self.accounts.get(i)
    }

    /// How many trades the ledger holds.
    pub fn trade_count(&self) -> (n: usize)
        ensures
            n == self@.trades.len(),
    {
        self.ledger.len()
    }

    /// The trade that was recorded `i`-th, counting from zero.
    pub fn trade(&self, i: usize) -> (entry: Option<TradeEntry>)
        ensures
            i < self@.trades.len() ==> entry is Some && entry->0@ == self@.trades[i as int],
            i >= self@.trades.len() ==> entry is None,
    {
        self.ledger.get(i)
    }
}

/// The side of the coin that `choice` names, if it names one.
fn side_of(choice: &str) -> (picked: Option<bool>)
    ensures
        picked == picks_heads(choice@),
{
    let choice = String::from_str(choice);
    if choice == String::from_str("heads") {
        Some(true)
    } else if choice == String::from_str("tails") {
        Some(false)
    } else {
        None
    }
}

/// A list of holdings as the contracts see it: each symbol by its
/// characters, each amount as an integer.
pub open spec fn holdings_view(holdings: Seq<(String, i64)>) -> Seq<(Seq<char>, int)> {
    Seq::new(holdings.len(), |k: int| (holdings[k].0@, holdings[k].1 as int))
}

/// A list of valued holdings as the contracts see it: each symbol by its
/// characters, each amount and each value as an integer.
pub open spec fn rows_view(rows: Seq<(String, i64, i64)>) -> Seq<(Seq<char>, int, int)> {
    Seq::new(rows.len(), |k: int| (rows[k].0@, rows[k].1 as int, rows[k].2 as int))
}

/// Whether `outcome` holds the rows, or the error, that `expected` asks
/// for.
pub open spec fn is_valuation(
    outcome: Result<Vec<(String, i64, i64)>, ModelError>,
    expected: Result<Seq<(Seq<char>, int, int)>, ModelError>,
) -> bool {
    match outcome {
        Ok(rows) => expected == Ok::<Seq<(Seq<char>, int, int)>, ModelError>(rows_view(rows@)),
        Err(error) => expected == Err::<Seq<(Seq<char>, int, int)>, ModelError>(error),
    }
}

/// An error among the first `n` holdings is the error of every longer
/// valuation.
proof fn lemma_valued_error_stays(
    holdings: Seq<(Seq<char>, int)>,
    responses: Seq<Option<OracleResponse>>,
    n: int,
    m: int,
)
    requires
        0 <= n <= m,
        valued(holdings, responses, n) is Err,
    ensures
        valued(holdings, responses, m) == valued(holdings, responses, n),
    decreases m - n,
{
    if n < m {
        lemma_valued_error_stays(holdings, responses, n, m - 1);
    }
}

} // verus!
