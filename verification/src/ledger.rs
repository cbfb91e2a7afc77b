//! The trade ledger: an append-only record of coin purchases and sales,
//! from which holdings are derived by summation.

use vstd::prelude::*;
use crate::error::ModelError;
use crate::symbol::{to_uppercase, uppercase_of};
use vstd::string::StringExecFns;

verus! {

/// One recorded purchase or sale.
#[derive(Debug, Clone)]
pub struct TradeEntry {
    /// The number of the entry: the first appended is 1, each next one more.
    pub entry_id: u64,
    /// Who traded.
    pub user_id: u64,
    /// The coin, in upper case.
    pub coin_symbol: String,
    /// The coins bought, if positive, or sold, if negative.
    pub signed_amount: i64,
    /// The fiat price of one coin at the time of the trade.
    pub price_at_trade: i64,
    /// When the trade took place.
    pub timestamp: u64,
}

/// A trade entry as the contracts see it.
pub struct Trade {
    pub entry_id: u64,
    pub user_id: u64,
    pub symbol: Seq<char>,
    pub amount: i64,
    pub price: i64,
    pub timestamp: u64,
}

impl View for TradeEntry {
    type V = Trade;

    open spec fn view(&self) -> Trade {
        Trade {
            entry_id: self.entry_id,
            user_id: self.user_id,
            symbol: self.coin_symbol@,
            amount: self.signed_amount,
            price: self.price_at_trade,
            timestamp: self.timestamp,
        }
    }
}

/// The coins a trade adds to the holding of `user_id` in `symbol`: its
/// signed amount if it is a trade of that user in that coin, else nothing.
pub open spec fn contribution(trade: Trade, user_id: u64, symbol: Seq<char>) -> int {
    if trade.user_id == user_id && trade.symbol == symbol {
        trade.amount as int
    } else {
        0
    }
}

/// The holding of `user_id` in `symbol`: the signed sum of that user's
/// trades in that coin, zero if there are none.
pub open spec fn owned(trades: Seq<Trade>, user_id: u64, symbol: Seq<char>) -> int
    decreases trades.len(),
{
    if trades.len() == 0 {
        0
    } else {
        owned(trades.drop_last(), user_id, symbol) + contribution(trades.last(), user_id, symbol)
    }
}

/// Whether `user_id` has traded `symbol` at all.
pub open spec fn has_traded(trades: Seq<Trade>, user_id: u64, symbol: Seq<char>) -> bool {
    exists|i: int|
        0 <= i < trades.len() && (#[trigger] trades[i]).user_id == user_id && trades[i].symbol
            == symbol
}

/// Entries are numbered from 1 in the order in which they were appended.
pub open spec fn numbered(trades: Seq<Trade>) -> bool {
    forall|i: int| 0 <= i < trades.len() ==> (#[trigger] trades[i]).entry_id == i + 1
}

/// Whether `holdings` is the portfolio of `user_id`: each coin held in a
/// strictly positive amount, once, with that amount.
pub open spec fn is_portfolio(
    trades: Seq<Trade>,
    user_id: u64,
    holdings: Seq<(Seq<char>, int)>,
) -> bool {
    &&& forall|k: int|
        0 <= k < holdings.len() ==> (#[trigger] holdings[k]).1 > 0 && holdings[k].1 == owned(
            trades,
            user_id,
            holdings[k].0,
        )
    &&& forall|k: int, l: int|
        0 <= k < l < holdings.len() ==> (#[trigger] holdings[k]).0 != (#[trigger] holdings[l]).0
    &&& forall|symbol: Seq<char>| #[trigger]
        owned(trades, user_id, symbol) > 0 ==> exists|k: int|
            0 <= k < holdings.len() && (#[trigger] holdings[k]).0 == symbol
}

/// The coins that `user_id` has traded, each once, in the order in which
/// they were first traded.
pub open spec fn traded_symbols(trades: Seq<Trade>, user_id: u64) -> Seq<Seq<char>>
    decreases trades.len(),
{
    if trades.len() == 0 {
        Seq::empty()
    } else {
        let earlier = traded_symbols(trades.drop_last(), user_id);
        if trades.last().user_id == user_id && !has_traded(
            trades.drop_last(),
            user_id,
            trades.last().symbol,
        ) {
            earlier.push(trades.last().symbol)
        } else {
            earlier
        }
    }
}

/// Those of `symbols` that `user_id` holds in a strictly positive amount,
/// each with that amount, in the order of `symbols`.
pub open spec fn positive_holdings(trades: Seq<Trade>, user_id: u64, symbols: Seq<Seq<char>>)
    -> Seq<(Seq<char>, int)>
    decreases symbols.len(),
{
    if symbols.len() == 0 {
        Seq::empty()
    } else {
        let earlier = positive_holdings(trades, user_id, symbols.drop_last());
        if owned(trades, user_id, symbols.last()) > 0 {
            earlier.push((symbols.last(), owned(trades, user_id, symbols.last())))
        } else {
            earlier
        }
    }
}

/// The portfolio of `user_id`: every coin held in a strictly positive
/// amount, with that amount, in the order in which the coins were first
/// traded.
pub open spec fn portfolio_of(trades: Seq<Trade>, user_id: u64) -> Seq<(Seq<char>, int)> {
    positive_holdings(trades, user_id, traded_symbols(trades, user_id))
}

/// Appending a trade adds its contribution to every holding.
pub proof fn lemma_owned_push(trades: Seq<Trade>, trade: Trade, user_id: u64, symbol: Seq<char>)
    ensures
        owned(trades.push(trade), user_id, symbol) == owned(trades, user_id, symbol)
            + contribution(trade, user_id, symbol),
{
    assert(trades.push(trade).drop_last() =~= trades);
}

/// A holding other than zero has a trade behind it.
pub proof fn lemma_owned_needs_a_trade(trades: Seq<Trade>, user_id: u64, symbol: Seq<char>)
    requires
        owned(trades, user_id, symbol) != 0,
    ensures
        has_traded(trades, user_id, symbol),
    decreases trades.len(),
{
    if trades.len() > 0 {
        if contribution(trades.last(), user_id, symbol) != 0 {
            assert(trades[trades.len() - 1].user_id == user_id);
        } else {
            lemma_owned_needs_a_trade(trades.drop_last(), user_id, symbol);
            let i = choose|i: int|
                0 <= i < trades.drop_last().len() && (#[trigger] trades.drop_last()[i]).user_id
                    == user_id && trades.drop_last()[i].symbol == symbol;
            assert(trades[i].user_id == user_id && trades[i].symbol == symbol);
        }
    }
}

/// A holding is bounded by the number of trades: no sum of `n` amounts
/// leaves the range of `n` times the largest amount.
pub proof fn lemma_owned_bounds(trades: Seq<Trade>, user_id: u64, symbol: Seq<char>)
    ensures
        -(trades.len() * 0x8000_0000_0000_0000) <= owned(trades, user_id, symbol) <= trades.len()
            * 0x8000_0000_0000_0000,
    decreases trades.len(),
{
    if trades.len() > 0 {
        lemma_owned_bounds(trades.drop_last(), user_id, symbol);
    }
}

/// The ledger of all trades, in the order in which they were appended.
pub struct TradeLedger {
    entries: Vec<TradeEntry>,
}

impl View for TradeLedger {
    type V = Seq<Trade>;

    closed spec fn view(&self) -> Seq<Trade> {
        Seq::new(self.entries@.len(), |i: int| self.entries@[i]@)
    }
}

impl TradeLedger {
    /// What holds of every ledger: its entries are numbered from 1.
    pub open spec fn wf(&self) -> bool {
        numbered(self@)
    }

    /// An empty ledger.
    pub fn new() -> (ledger: TradeLedger)
        ensures
            ledger@ == Seq::<Trade>::empty(),
            ledger.wf(),
    {
        let ledger = TradeLedger { entries: Vec::new() };
        assert(ledger@ =~= Seq::<Trade>::empty());
        ledger
    }

    /// A ledger of the given entries, in their order, if they can be the
    /// entries of a ledger: numbered from 1 without a gap.
    pub fn from_entries(entries: Vec<TradeEntry>) -> (ledger: Option<TradeLedger>)
        ensures
            ledger matches Some(restored) ==> restored@ == entries_view(entries@) && restored.wf(),
            ledger is Some == numbered(entries_view(entries@)),
    {
        let mut i: usize = 0;
        while i < entries.len()
            invariant
                i <= entries.len(),
                forall|k: int| 0 <= k < i ==> (#[trigger] entries@[k]).entry_id == k + 1,
            decreases entries.len() - i,
        {
            if i as u64 == u64::MAX || entries[i].entry_id != i as u64 + 1 {
                assert(entries_view(entries@)[i as int].entry_id != i + 1);
                return None;
            }
            i += 1;
        }
        let ledger = TradeLedger { entries };
        assert(ledger@ =~= entries_view(entries@));
        assert forall|k: int| 0 <= k < ledger@.len() implies (#[trigger] ledger@[k]).entry_id == k
            + 1 by {
            assert(entries@[k].entry_id == k + 1);
        }
        Some(ledger)
    }

    /// Whether the holding that the `i`-th entry counts towards is one that
    /// a user can have: not negative, and not more than an amount can hold.
    pub fn holding_is_sound(&self, i: usize) -> (sound: bool)
        requires
            i < self@.len(),
        ensures
            sound == (0 <= owned(self@, self@[i as int].user_id, self@[i as int].symbol)
                <= i64::MAX),
    {
        let entry = &self.entries[i];
        let total = self.sum_for(entry.user_id, &entry.coin_symbol);
        0 <= total && total <= i64::MAX as i128
    }

    /// Who made the `i`-th trade.
    pub fn trader(&self, i: usize) -> (user_id: u64)
        requires
            i < self@.len(),
        ensures
            user_id == self@[i as int].user_id,
    {
        self.entries[i].user_id
    }

    /// How many entries there are.
    pub fn len(&self) -> (n: usize)
        ensures
            n == self@.len(),
    {
        self.entries.len()
    }

    /// The entry that was appended `i`-th, counting from zero.
    pub fn get(&self, i: usize) -> (entry: Option<TradeEntry>)
        ensures
            i < self@.len() ==> entry is Some && entry->0@ == self@[i as int],
            i >= self@.len() ==> entry is None,
    {
        if i < self.entries.len() {
            let entry = &self.entries[i];
            Some(
                TradeEntry {
                    entry_id: entry.entry_id,
                    user_id: entry.user_id,
                    coin_symbol: entry.coin_symbol.clone(),
                    signed_amount: entry.signed_amount,
                    price_at_trade: entry.price_at_trade,
                    timestamp: entry.timestamp,
                },
            )
        } else {
            None
        }
    }

    /// Records a trade of `signed_amount` coins by `user_id` at `price`,
    /// filed under `key` as it is. Nothing about the trade is validated
    /// here. The only failure is a ledger that cannot number another entry,
    /// and then nothing has changed.
    pub fn append_by_key(
        &mut self,
        user_id: u64,
        key: &str,
        signed_amount: i64,
        price: i64,
        timestamp: u64,
    ) -> (outcome: Result<(), ModelError>)
        requires
            old(self).wf(),
        ensures
            final(self).wf(),
            old(self)@.len() >= u64::MAX ==> outcome == Err::<(), ModelError>(
                ModelError::Unexpected,
            ) && final(self)@ == old(self)@,
            old(self)@.len() < u64::MAX ==> outcome == Ok::<(), ModelError>(()) && final(self)@
                == old(self)@.push(
                Trade {
                    entry_id: (old(self)@.len() + 1) as u64,
                    user_id,
                    symbol: key@,
                    amount: signed_amount,
                    price,
                    timestamp,
                },
            ),
    {
        let count = self.entries.len() as u64;
        if count == u64::MAX {
            return Err(ModelError::Unexpected);
        }
        let entry = TradeEntry {
            entry_id: count + 1,
            user_id,
            coin_symbol: String::from_str(key),
            signed_amount,
            price_at_trade: price,
            timestamp,
        };
        let ghost trade = entry@;
        self.entries.push(entry);
        assert(self@ =~= old(self)@.push(trade));
        Ok(())
    }

    /// Records a trade of `signed_amount` coins of `symbol` by `user_id` at
    /// `price`, filed under the upper-case form of the symbol, as
    /// `append_by_key` does under that key.
    pub fn append(
        &mut self,
        user_id: u64,
        symbol: &str,
        signed_amount: i64,
        price: i64,
        timestamp: u64,
    ) -> (outcome: Result<(), ModelError>)
        requires
            old(self).wf(),
        ensures
            final(self).wf(),
            old(self)@.len() >= u64::MAX ==> outcome == Err::<(), ModelError>(
                ModelError::Unexpected,
            ) && final(self)@ == old(self)@,
            old(self)@.len() < u64::MAX ==> outcome == Ok::<(), ModelError>(()) && final(self)@
                == old(self)@.push(
                Trade {
                    entry_id: (old(self)@.len() + 1) as u64,
                    user_id,
                    symbol: uppercase_of(symbol@),
                    amount: signed_amount,
                    price,
                    timestamp,
                },
            ),
    {
        let key = to_uppercase(symbol);
        self.append_by_key(user_id, key.as_str(), signed_amount, price, timestamp)
    }

    /// The sum of the trades of `user_id` filed under exactly `symbol`.
    fn sum_for(&self, user_id: u64, symbol: &String) -> (total: i128)
        ensures
            total == owned(self@, user_id, symbol@),
    {
        let mut total: i128 = 0;
        let mut i: usize = 0;
        while i < self.entries.len()
            invariant
                i <= self.entries.len(),
                total == owned(self@.take(i as int), user_id, symbol@),
                -(i * 0x8000_0000_0000_0000) <= total <= i * 0x8000_0000_0000_0000,
            decreases self.entries.len() - i,
        {
            let entry = &self.entries[i];
            proof {
                assert(self@.take(i + 1).drop_last() =~= self@.take(i as int));
                assert(self@.take(i + 1).last() == self@[i as int]);
                lemma_owned_bounds(self@.take(i + 1), user_id, symbol@);
            }
            if entry.user_id == user_id && entry.coin_symbol == *symbol {
                total = total + entry.signed_amount as i128;
            }
            i += 1;
        }
        assert(self@.take(i as int) =~= self@);
        total
    }

    /// The holding of `user_id` in the coin filed under `key`: the signed
    /// sum of the user's trades under exactly that key, and zero where there
    /// is none.
    pub fn owned_by_key(&self, user_id: u64, key: &str) -> (total: i128)
        ensures
            total == owned(self@, user_id, key@),
    {
        let key = String::from_str(key);
        self.sum_for(user_id, &key)
    }

    /// The holding of `user_id` in the coin `symbol`, whatever the case of
    /// the symbol's letters: what `owned_by_key` gives under the upper-case
    /// form of the symbol.
    pub fn owned_amount(&self, user_id: u64, symbol: &str) -> (total: i128)
        ensures
            total == owned(self@, user_id, uppercase_of(symbol@)),
    {
        let key = to_uppercase(symbol);
        self.owned_by_key(user_id, key.as_str())
    }

    /// Whether an entry before the `i`-th is a trade of the same user in the
    /// same coin.
    fn traded_before(&self, i: usize) -> (seen: bool)
        requires
            i < self@.len(),
        ensures
            seen == has_traded(self@.take(i as int), self@[i as int].user_id, self@[i as int].symbol),
    {
        let entry = &self.entries[i];
        let mut j: usize = 0;
        while j < i
            invariant
                j <= i < self.entries.len(),
                entry == &self.entries@[i as int],
                !has_traded(self@.take(j as int), self@[i as int].user_id, self@[i as int].symbol),
            decreases i - j,
        {
            let earlier = &self.entries[j];
            if earlier.user_id == entry.user_id && earlier.coin_symbol == entry.coin_symbol {
                assert(self@.take(i as int)[j as int] == self@[j as int]);
                return true;
            }
            proof {
                let user_id = self@[i as int].user_id;
                let symbol = self@[i as int].symbol;
                assert forall|k: int| 0 <= k < j + 1 implies !((#[trigger] self@.take(
                    j + 1,
                )[k]).user_id == user_id && self@.take(j + 1)[k].symbol == symbol) by {
                    if k < j {
                        assert(self@.take(j as int)[k] == self@.take(j + 1)[k]);
                    }
                }
            }
            j += 1;
        }
        false
    }

    /// The portfolio of `user_id`: every coin of which the user holds a
    /// strictly positive amount, with that amount, in the order in which
    /// the coins were first traded.
    pub fn portfolio(&self, user_id: u64) -> (holdings: Vec<(String, i128)>)
        ensures
            portfolio_view(holdings@) == portfolio_of(self@, user_id),
    {
        let mut holdings: Vec<(String, i128)> = Vec::new();
        let mut i: usize = 0;
        assert(portfolio_view(holdings@) =~= Seq::<(Seq<char>, int)>::empty());
        while i < self.entries.len()
            invariant
                i <= self.entries.len(),
                portfolio_view(holdings@) == positive_holdings(
                    self@,
                    user_id,
                    traded_symbols(self@.take(i as int), user_id),
                ),
            decreases self.entries.len() - i,
        {
            let entry = &self.entries[i];
            let ghost before = holdings@;
            let ghost symbols = traded_symbols(self@.take(i as int), user_id);
            proof {
                assert(self@.take(i + 1).drop_last() =~= self@.take(i as int));
                assert(self@.take(i + 1).last() == self@[i as int]);
            }
            if entry.user_id == user_id {
                let seen = self.traded_before(i);
                if !seen {
                    let total = self.sum_for(user_id, &entry.coin_symbol);
                    proof {
                        assert(symbols.push(self@[i as int].symbol).drop_last() =~= symbols);
                    }
                    if total > 0 {
                        holdings.push((entry.coin_symbol.clone(), total));
                        assert(portfolio_view(holdings@) =~= portfolio_view(before).push(
                            (self@[i as int].symbol, total as int),
                        ));
                    }
                }
            }
            i += 1;
        }
        assert(self@.take(i as int) =~= self@);
        holdings
    }
}

/// A list of entries as the contracts see it.
pub open spec fn entries_view(entries: Seq<TradeEntry>) -> Seq<Trade> {
    Seq::new(entries.len(), |i: int| entries[i]@)
}

/// A list of holdings as the contracts see it: each symbol by its
/// characters, each amount as an integer.
pub open spec fn portfolio_view(holdings: Seq<(String, i128)>) -> Seq<(Seq<char>, int)> {
    Seq::new(holdings.len(), |k: int| (holdings[k].0@, holdings[k].1 as int))
}

/// A coin traded in a shorter ledger is traded in every longer one.
pub proof fn lemma_has_traded_grows(trades: Seq<Trade>, user_id: u64, symbol: Seq<char>)
    requires
        trades.len() > 0,
        has_traded(trades.drop_last(), user_id, symbol),
    ensures
        has_traded(trades, user_id, symbol),
{
    let i = choose|i: int|
        0 <= i < trades.drop_last().len() && (#[trigger] trades.drop_last()[i]).user_id == user_id
            && trades.drop_last()[i].symbol == symbol;
    assert(trades[i].user_id == user_id && trades[i].symbol == symbol);
}

/// The traded coins are exactly those with a trade behind them, and none
/// is listed twice.
pub proof fn lemma_traded_symbols(trades: Seq<Trade>, user_id: u64)
    ensures
        forall|symbol: Seq<char>|
            traded_symbols(trades, user_id).contains(symbol) <==> has_traded(
                trades,
                user_id,
                symbol,
            ),
        traded_symbols(trades, user_id).no_duplicates(),
    decreases trades.len(),
{
    let symbols = traded_symbols(trades, user_id);
    if trades.len() == 0 {
        assert forall|symbol: Seq<char>| !symbols.contains(symbol) by {}
    } else {
        let shorter = trades.drop_last();
        let earlier = traded_symbols(shorter, user_id);
        let last = trades.last();
        lemma_traded_symbols(shorter, user_id);
        let is_new = last.user_id == user_id && !has_traded(shorter, user_id, last.symbol);
        assert forall|symbol: Seq<char>| symbols.contains(symbol) <==> has_traded(
            trades,
            user_id,
            symbol,
        ) by {
            if symbols.contains(symbol) {
                let k = choose|k: int| 0 <= k < symbols.len() && symbols[k] == symbol;
                if k < earlier.len() {
                    assert(earlier[k] == symbol);
                    assert(earlier.contains(symbol));
                    lemma_has_traded_grows(trades, user_id, symbol);
                } else {
                    assert(trades[trades.len() - 1].user_id == user_id);
                }
            }
            if has_traded(trades, user_id, symbol) {
                let i = choose|i: int|
                    0 <= i < trades.len() && (#[trigger] trades[i]).user_id == user_id
                        && trades[i].symbol == symbol;
                if i < shorter.len() {
                    assert(shorter[i].user_id == user_id && shorter[i].symbol == symbol);
                }
                if has_traded(shorter, user_id, symbol) {
                    let k = choose|k: int| 0 <= k < earlier.len() && earlier[k] == symbol;
                    assert(symbols[k] == symbol);
                } else {
                    assert(i == trades.len() - 1);
                    assert(symbols[earlier.len() as int] == symbol);
                }
            }
        }
        assert forall|k: int, l: int| 0 <= k < l < symbols.len() implies symbols[k]
            != symbols[l] by {
            if l < earlier.len() {
                assert(earlier[k] != earlier[l]);
            } else {
                assert(earlier[k] == symbols[k]);
                assert(earlier.contains(symbols[k]));
            }
        }
    }
}

/// The positive holdings among distinct coins: every one of them is one of
/// the coins, held in the amount listed; none is listed twice; and none
/// that is held is left out.
pub proof fn lemma_positive_holdings(trades: Seq<Trade>, user_id: u64, symbols: Seq<Seq<char>>)
    requires
        symbols.no_duplicates(),
    ensures
        forall|k: int|
            0 <= k < positive_holdings(trades, user_id, symbols).len() ==> {
                let holding = #[trigger] positive_holdings(trades, user_id, symbols)[k];
                holding.1 > 0 && holding.1 == owned(trades, user_id, holding.0)
                    && symbols.contains(holding.0)
            },
        forall|k: int, l: int|
            0 <= k < l < positive_holdings(trades, user_id, symbols).len() ==> (
            #[trigger] positive_holdings(trades, user_id, symbols)[k]).0 != (
            #[trigger] positive_holdings(trades, user_id, symbols)[l]).0,
        forall|symbol: Seq<char>|
            symbols.contains(symbol) && #[trigger] owned(trades, user_id, symbol) > 0
                ==> exists|k: int|
                0 <= k < positive_holdings(trades, user_id, symbols).len() && (
                #[trigger] positive_holdings(trades, user_id, symbols)[k]).0 == symbol,
    decreases symbols.len(),
{
    let holdings = positive_holdings(trades, user_id, symbols);
    if symbols.len() > 0 {
        let shorter = symbols.drop_last();
        let earlier = positive_holdings(trades, user_id, shorter);
        let last = symbols.last();
        lemma_positive_holdings(trades, user_id, shorter);
        assert forall|k: int| 0 <= k < holdings.len() implies {
            let holding = #[trigger] holdings[k];
            holding.1 > 0 && holding.1 == owned(trades, user_id, holding.0) && symbols.contains(
                holding.0,
            )
        } by {
            if k < earlier.len() {
                assert(holdings[k] == earlier[k]);
                let at = choose|at: int| 0 <= at < shorter.len() && shorter[at] == earlier[k].0;
                assert(symbols[at] == earlier[k].0);
            } else {
                assert(symbols[symbols.len() - 1] == last);
            }
        }
        assert forall|k: int, l: int| 0 <= k < l < holdings.len() implies (#[trigger] holdings[k]).0
            != (#[trigger] holdings[l]).0 by {
            if l < earlier.len() {
                assert(holdings[k] == earlier[k] && holdings[l] == earlier[l]);
            } else {
                assert(holdings[k] == earlier[k]);
                let at = choose|at: int| 0 <= at < shorter.len() && shorter[at] == earlier[k].0;
                assert(symbols[at] != symbols[symbols.len() - 1]);
            }
        }
        assert forall|symbol: Seq<char>|
            symbols.contains(symbol) && #[trigger] owned(trades, user_id, symbol)
                > 0 implies exists|k: int|
            0 <= k < holdings.len() && (#[trigger] holdings[k]).0 == symbol by {
            let at = choose|at: int| 0 <= at < symbols.len() && symbols[at] == symbol;
            if at < shorter.len() {
                assert(shorter[at] == symbol);
                assert(shorter.contains(symbol));
                let k = choose|k: int| 0 <= k < earlier.len() && (#[trigger] earlier[k]).0 == symbol;
                assert(holdings[k] == earlier[k]);
            } else {
                assert(holdings[holdings.len() - 1].0 == symbol);
            }
        }
    }
}

/// The portfolio lists each coin that the user holds in a strictly
/// positive amount, once, with the amount held, and no other coin.
pub proof fn lemma_portfolio_lists_what_is_held(trades: Seq<Trade>, user_id: u64)
    ensures
        is_portfolio(trades, user_id, portfolio_of(trades, user_id)),
{
    let symbols = traded_symbols(trades, user_id);
    let holdings = portfolio_of(trades, user_id);
    lemma_traded_symbols(trades, user_id);
    lemma_positive_holdings(trades, user_id, symbols);
    assert forall|symbol: Seq<char>| #[trigger]
        owned(trades, user_id, symbol) > 0 implies exists|k: int|
        0 <= k < holdings.len() && (#[trigger] holdings[k]).0 == symbol by {
        lemma_owned_needs_a_trade(trades, user_id, symbol);
        assert(symbols.contains(symbol));
    }
}

} // verus!
