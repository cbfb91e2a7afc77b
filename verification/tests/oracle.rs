use ben::config::Config;
use ben::error::ModelError;
use ben::oracle::{
    quote_url, read_quote, read_quote_by_key, OracleCoin, OracleQuote, OracleResponse,
};

fn quote(currency: &str, price: i64) -> OracleQuote {
    OracleQuote { currency: currency.to_string(), price }
}

fn coin(symbol: &str, name: &str, quotes: Vec<OracleQuote>) -> OracleCoin {
    OracleCoin { symbol: symbol.to_string(), name: name.to_string(), quotes }
}

fn answer(coins: Vec<OracleCoin>) -> OracleResponse {
    OracleResponse { error_code: 0, data: Some(coins) }
}

#[test]
fn url_goes_to_the_production_service() {
    let config = Config::default();
    assert_eq!(
        quote_url(&config, "btc"),
        "https://pro-api.coinmarketcap.com/v1/cryptocurrency/quotes/latest?symbol=btc&convert=eur"
    );
}

#[test]
fn url_goes_to_the_test_service_when_configured() {
    let config = Config { use_cmc_sandbox_api: true, ..Config::default() };
    assert_eq!(
        quote_url(&config, "ETH"),
        "https://sandbox-api.coinmarketcap.com/v1/cryptocurrency/quotes/latest?symbol=ETH&convert=eur"
    );
}

#[test]
fn quote_is_read_from_the_answer() {
    let response = answer(vec![
        coin("ETH", "Ethereum", vec![quote("EUR", 2_000_000_000)]),
        coin("BTC", "Bitcoin", vec![quote("USD", 1), quote("EUR", 25_000_000_000)]),
    ]);
    let info = read_quote("btc", Some(&response)).unwrap();
    assert_eq!(info.symbol, "btc");
    assert_eq!(info.name, "Bitcoin");
    assert_eq!(info.current_price, 25_000_000_000);
    let info = read_quote("ETH", Some(&response)).unwrap();
    assert_eq!(info.symbol, "ETH");
    assert_eq!(info.name, "Ethereum");
    assert_eq!(info.current_price, 2_000_000_000);
}

#[test]
fn first_match_decides() {
    let response = answer(vec![
        coin("BTC", "First", vec![quote("EUR", 5), quote("EUR", 6)]),
        coin("BTC", "Second", vec![quote("EUR", 7)]),
    ]);
    let info = read_quote("BTC", Some(&response)).unwrap();
    assert_eq!(info.name, "First");
    assert_eq!(info.current_price, 5);
}

#[test]
fn no_answer_is_unavailable() {
    assert_eq!(read_quote("btc", None).unwrap_err(), ModelError::Unavailable);
}

#[test]
fn answer_without_data_is_unavailable() {
    let response = OracleResponse { error_code: 400, data: None };
    assert_eq!(read_quote("btc", Some(&response)).unwrap_err(), ModelError::Unavailable);
}

#[test]
fn unlisted_coin_is_unknown() {
    let response = answer(vec![coin("ETH", "Ethereum", vec![quote("EUR", 2)])]);
    assert_eq!(read_quote("btc", Some(&response)).unwrap_err(), ModelError::UnknownSymbol);
    assert_eq!(read_quote("btc", Some(&answer(vec![]))).unwrap_err(), ModelError::UnknownSymbol);
}

#[test]
fn directory_is_compared_in_upper_case() {
    // The directory's own symbols are taken as they are.
    let response = answer(vec![coin("btc", "Lower", vec![quote("EUR", 2)])]);
    assert_eq!(read_quote("btc", Some(&response)).unwrap_err(), ModelError::UnknownSymbol);
}

#[test]
fn coin_without_price_in_the_currency_is_unavailable() {
    let response = answer(vec![coin("BTC", "Bitcoin", vec![quote("USD", 2), quote("eur", 3)])]);
    assert_eq!(read_quote("btc", Some(&response)).unwrap_err(), ModelError::Unavailable);
}

#[test]
fn price_that_is_not_positive_is_unavailable() {
    let response = answer(vec![coin("BTC", "Bitcoin", vec![quote("EUR", 0)])]);
    assert_eq!(read_quote("btc", Some(&response)).unwrap_err(), ModelError::Unavailable);
    let response = answer(vec![coin("BTC", "Bitcoin", vec![quote("EUR", -4)])]);
    assert_eq!(read_quote("btc", Some(&response)).unwrap_err(), ModelError::Unavailable);
}

#[test]
fn status_code_alone_does_not_decide() {
    let response = OracleResponse {
        error_code: 1008,
        data: Some(vec![coin("BTC", "Bitcoin", vec![quote("EUR", 9)])]),
    };
    assert_eq!(read_quote("btc", Some(&response)).unwrap().current_price, 9);
}

#[test]
fn quote_is_read_under_a_key_as_it_is() {
    let response = answer(vec![
        coin("btc", "Lower", vec![quote("EUR", 2)]),
        coin("BTC", "Upper", vec![quote("EUR", 3)]),
    ]);
    let info = read_quote_by_key("asked", "btc", Some(&response)).unwrap();
    assert_eq!(info.symbol, "asked");
    assert_eq!(info.name, "Lower");
    assert_eq!(info.current_price, 2);
    let info = read_quote_by_key("btc", "BTC", Some(&response)).unwrap();
    assert_eq!(info.symbol, "btc");
    assert_eq!(info.name, "Upper");
    assert_eq!(
        read_quote_by_key("btc", "Btc", Some(&response)).unwrap_err(),
        ModelError::UnknownSymbol
    );
    assert_eq!(read_quote_by_key("btc", "btc", None).unwrap_err(), ModelError::Unavailable);
    // By symbol, the upper-case listing is the one found.
    assert_eq!(read_quote("btc", Some(&response)).unwrap().name, "Upper");
}
