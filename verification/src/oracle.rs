//! The price oracle adapter: where to ask for a coin's price, and how to
//! read the answer.
//!
//! The request itself is made elsewhere. What comes back is handed in as an
//! `OracleResponse`, or as `None` if nothing usable came back.

use vstd::prelude::*;
use vstd::string::StringExecFns;
use crate::config::Config;
use crate::error::ModelError;
use crate::symbol::{to_uppercase, uppercase_of};

verus! {

/// The name and the current price of a coin.
#[derive(Debug, Clone)]
pub struct CoinInfo {
    /// The symbol that was asked for, as it was asked.
    pub symbol: String,
    /// The coin's display name.
    pub name: String,
    /// The fiat price of one coin; strictly positive.
    pub current_price: i64,
}

/// A coin quote as the contracts see it.
pub struct Quote {
    pub symbol: Seq<char>,
    pub name: Seq<char>,
    pub price: i64,
}

impl View for CoinInfo {
    type V = Quote;

    open spec fn view(&self) -> Quote {
        Quote { symbol: self.symbol@, name: self.name@, price: self.current_price }
    }
}

/// One price of a coin, in one currency.
#[derive(Debug, Clone)]
pub struct OracleQuote {
    /// The currency of the price.
    pub currency: String,
    /// The price of one coin in that currency.
    pub price: i64,
}

/// What the price source says of one coin.
#[derive(Debug, Clone)]
pub struct OracleCoin {
    /// The coin's symbol in the source's directory.
    pub symbol: String,
    /// The coin's display name.
    pub name: String,
    /// The coin's prices.
    pub quotes: Vec<OracleQuote>,
}

/// An answer of the price source.
#[derive(Debug, Clone)]
pub struct OracleResponse {
    /// The source's status code. A code other than zero is worth a log
    /// line, but does not by itself make the answer unusable.
    pub error_code: i32,
    /// The coins that the answer covers, if it covers any.
    pub data: Option<Vec<OracleCoin>>,
}

/// Where the first coin with the symbol `key` stands in `coins`.
pub open spec fn first_coin(coins: Seq<OracleCoin>, key: Seq<char>) -> Option<int>
    decreases coins.len(),
{
    if coins.len() == 0 {
        None
    } else {
        match first_coin(coins.drop_last(), key) {
            Some(i) => Some(i),
            None => if coins.last().symbol@ == key {
                Some(coins.len() - 1)
            } else {
                None
            },
        }
    }
}

/// Where the first price in `currency` stands in `quotes`.
pub open spec fn first_quote(quotes: Seq<OracleQuote>, currency: Seq<char>) -> Option<int>
    decreases quotes.len(),
{
    if quotes.len() == 0 {
        None
    } else {
        match first_quote(quotes.drop_last(), currency) {
            Some(i) => Some(i),
            None => if quotes.last().currency@ == currency {
                Some(quotes.len() - 1)
            } else {
                None
            },
        }
    }
}

/// The currency in which the ledger keeps its balances.
pub open spec fn fiat_currency() -> Seq<char> {
    "EUR"@
}

/// The quote that a response holds for the coin that its directory lists
/// under `key`; `symbol` is what the coin was asked for as, and is handed
/// on.
///
/// No response, or one without data, means that the source was
/// unavailable. Data without the coin means that the source does not know
/// it. A coin without a price in the ledger's currency, or with a price
/// that is not strictly positive, again counts as unavailable.
pub open spec fn quote_under(
    symbol: Seq<char>,
    key: Seq<char>,
    response: Option<OracleResponse>,
) -> Result<Quote, ModelError> {
    match response {
        None => Err(ModelError::Unavailable),
        Some(answer) => match answer.data {
            None => Err(ModelError::Unavailable),
            Some(coins) => match first_coin(coins@, key) {
                None => Err(ModelError::UnknownSymbol),
                Some(i) => match first_quote(coins@[i].quotes@, fiat_currency()) {
                    None => Err(ModelError::Unavailable),
                    Some(j) => if coins@[i].quotes@[j].price > 0 {
                        Ok(
                            Quote {
                                symbol,
                                name: coins@[i].name@,
                                price: coins@[i].quotes@[j].price,
                            },
                        )
                    } else {
                        Err(ModelError::Unavailable)
                    },
                },
            },
        },
    }
}

/// The quote for `symbol` that a response holds: the one listed under the
/// upper-case form of the symbol.
pub open spec fn quote_in(symbol: Seq<char>, response: Option<OracleResponse>) -> Result<
    Quote,
    ModelError,
> {
    quote_under(symbol, uppercase_of(symbol), response)
}

/// What came back from the price source, if anything did.
pub open spec fn received(response: Option<&OracleResponse>) -> Option<OracleResponse> {
    match response {
        Some(answer) => Some(*answer),
        None => None,
    }
}

/// Whether `outcome` is the quote, or the error, that `expected` asks for.
pub open spec fn is_quote(outcome: Result<CoinInfo, ModelError>, expected: Result<Quote, ModelError>)
    -> bool {
    match outcome {
        Ok(info) => expected == Ok::<Quote, ModelError>(info@),
        Err(error) => expected == Err::<Quote, ModelError>(error),
    }
}

/// The address to ask for the price of `symbol`.
pub open spec fn quote_url_spec(sandbox: bool, symbol: Seq<char>) -> Seq<char> {
    "https://"@ + (if sandbox {
        "sandbox"@
    } else {
        "pro"@
    }) + "-api.coinmarketcap.com/v1/cryptocurrency/quotes/latest?symbol="@ + symbol
        + "&convert=eur"@
}

/// Builds the address to ask for the current price of `symbol` in the
/// ledger's currency: on the test service if the configuration says so, on
/// the production service otherwise.
pub fn quote_url(config: &Config, symbol: &str) -> (url: String)
    ensures
        url@ == quote_url_spec(config.use_cmc_sandbox_api, symbol@),
{
    let mut url = String::from_str("https://");
    if config.use_cmc_sandbox_api {
        url.append("sandbox");
    } else {
        url.append("pro");
    }
    url.append("-api.coinmarketcap.com/v1/cryptocurrency/quotes/latest?symbol=");
    url.append(symbol);
    url.append("&convert=eur");
    url
}

/// Looks up the first coin filed under `key`.
fn find_coin<'a>(coins: &'a Vec<OracleCoin>, key: &String) -> (found: Option<&'a OracleCoin>)
    ensures
        match first_coin(coins@, key@) {
            Some(i) => 0 <= i < coins@.len() && found == Some(&coins@[i]),
            None => found is None,
        },
{
    let mut i: usize = 0;
    while i < coins.len()
        invariant
            i <= coins.len(),
            first_coin(coins@.take(i as int), key@) is None,
        decreases coins.len() - i,
    {
        proof {
            assert(coins@.take(i + 1).drop_last() =~= coins@.take(i as int));
            assert(coins@.take(i + 1).last() == coins@[i as int]);
        }
        if coins[i].symbol == *key {
            proof {
                lemma_first_coin_stays(coins@, i + 1, key@);
            }
            return Some(&coins[i]);
        }
        i += 1;
    }
    assert(coins@.take(i as int) =~= coins@);
    None
}

/// Looks up the first price in `currency`.
fn find_quote<'a>(quotes: &'a Vec<OracleQuote>, currency: &String) -> (found: Option<
    &'a OracleQuote,
>)
    ensures
        match first_quote(quotes@, currency@) {
            Some(j) => 0 <= j < quotes@.len() && found == Some(&quotes@[j]),
            None => found is None,
        },
{
    let mut j: usize = 0;
    while j < quotes.len()
        invariant
            j <= quotes.len(),
            first_quote(quotes@.take(j as int), currency@) is None,
        decreases quotes.len() - j,
    {
        proof {
            assert(quotes@.take(j + 1).drop_last() =~= quotes@.take(j as int));
            assert(quotes@.take(j + 1).last() == quotes@[j as int]);
        }
        if quotes[j].currency == *currency {
            proof {
                lemma_first_quote_stays(quotes@, j + 1, currency@);
            }
            return Some(&quotes[j]);
        }
        j += 1;
    }
    assert(quotes@.take(j as int) =~= quotes@);
    None
}

/// A coin found among the first `n` is the one found among all.
proof fn lemma_first_coin_stays(coins: Seq<OracleCoin>, n: int, key: Seq<char>)
    requires
        0 <= n <= coins.len(),
        first_coin(coins.take(n), key) is Some,
    ensures
        first_coin(coins, key) == first_coin(coins.take(n), key),
    decreases coins.len() - n,
{
    if n < coins.len() {
        assert(coins.take(n + 1).drop_last() =~= coins.take(n));
        lemma_first_coin_stays(coins, n + 1, key);
    } else {
        assert(coins.take(n) =~= coins);
    }
}

/// A price found among the first `n` is the one found among all.
proof fn lemma_first_quote_stays(quotes: Seq<OracleQuote>, n: int, currency: Seq<char>)
    requires
        0 <= n <= quotes.len(),
        first_quote(quotes.take(n), currency) is Some,
    ensures
        first_quote(quotes, currency) == first_quote(quotes.take(n), currency),
    decreases quotes.len() - n,
{
    if n < quotes.len() {
        assert(quotes.take(n + 1).drop_last() =~= quotes.take(n));
        lemma_first_quote_stays(quotes, n + 1, currency);
    } else {
        assert(quotes.take(n) =~= quotes);
    }
}

/// Reads the quote for `symbol` out of what the price source answered,
/// whatever the case of the symbol's letters: what `read_quote_by_key`
/// gives under the upper-case form of the symbol.
pub fn read_quote(symbol: &str, response: Option<&OracleResponse>) -> (outcome: Result<
    CoinInfo,
    ModelError,
>)
    ensures
        is_quote(outcome, quote_in(symbol@, received(response))),
{
    let key = to_uppercase(symbol);
    read_quote_by_key(symbol, key.as_str(), response)
}

/// Reads out of what the price source answered the quote of the coin that
/// is listed under `key`, for a coin that was asked for as `symbol`; `None`
/// stands for a request that failed or an answer that could not be
/// understood.
pub fn read_quote_by_key(symbol: &str, key: &str, response: Option<&OracleResponse>) -> (outcome:
    Result<CoinInfo, ModelError>)
    ensures
        is_quote(outcome, quote_under(symbol@, key@, received(response))),
{
    let answer = match response {
        Some(answer) => answer,
        None => {
            return Err(ModelError::Unavailable);
        },
    };
    let coins = match &answer.data {
        Some(coins) => coins,
        None => {
            return Err(ModelError::Unavailable);
        },
    };
    let key = String::from_str(key);
    let coin = match find_coin(coins, &key) {
        Some(coin) => coin,
        None => {
            return Err(ModelError::UnknownSymbol);
        },
    };
    let currency = String::from_str("EUR");
    let quote = match find_quote(&coin.quotes, &currency) {
        Some(quote) => quote,
        None => {
            return Err(ModelError::Unavailable);
        },
    };
    if quote.price <= 0 {
        return Err(ModelError::Unavailable);
    }
    Ok(
        CoinInfo {
            symbol: String::from_str(symbol),
            name: coin.name.clone(),
            current_price: quote.price,
        },
    )
}

} // verus!
