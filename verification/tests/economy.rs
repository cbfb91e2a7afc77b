use ben::config::Config;
use ben::error::ModelError;
use ben::model::{Model, DAILY_REWARD, FOUNDING_ADMIN};
use ben::money::SCALE;
use ben::oracle::{OracleCoin, OracleQuote, OracleResponse};
use ben::permissions::Permission;

const A: u64 = 11;
const B: u64 = 22;
const C: u64 = 33;
const DAY: u64 = 86_400;

fn priced(symbol: &str, price: i64) -> OracleResponse {
    OracleResponse {
        error_code: 0,
        data: Some(vec![OracleCoin {
            symbol: symbol.to_string(),
            name: format!("{} coin", symbol),
            quotes: vec![OracleQuote { currency: "EUR".to_string(), price }],
        }]),
    }
}

fn engine_with(balances: &[(u64, i64)]) -> Model {
    let mut model = Model::new(Config::default());
    for (user, balance) in balances {
        assert_eq!(model.create_bank_account(*user), Ok(()));
        assert_eq!(model.bless(*user, *balance), Ok(*balance));
    }
    model
}

fn total(model: &Model) -> i128 {
    let mut sum: i128 = 0;
    for i in 0..model.account_count() {
        sum += model.account(i).unwrap().balance as i128;
    }
    sum
}

#[test]
fn new_engine_is_empty() {
    let config = Config {
        discord_token: "t".to_string(),
        cmc_api_key: "k".to_string(),
        use_cmc_sandbox_api: true,
        bot_admins: vec![5],
    };
    let model = Model::new(config);
    assert_eq!(model.account_count(), 0);
    assert_eq!(model.trade_count(), 0);
    assert_eq!(model.daily_amount(), DAILY_REWARD);
    assert_eq!(model.daily_amount(), 100 * SCALE);
    assert_eq!(model.leaderboard(), vec![]);
    assert_eq!(model.config().cmc_api_key, "k");
    assert_eq!(model.config().discord_token, "t");
    assert_eq!(model.config().bot_admins, vec![5]);
    assert_eq!(
        model.quote_url("btc"),
        "https://sandbox-api.coinmarketcap.com/v1/cryptocurrency/quotes/latest?symbol=btc&convert=eur"
    );
}

#[test]
fn founding_admin_has_every_permission() {
    let model = Model::new(Config::default());
    assert_eq!(FOUNDING_ADMIN, 181002804813496320);
    assert!(model.user_has_permission(FOUNDING_ADMIN, Permission::Admin));
    assert!(model.user_has_permission(FOUNDING_ADMIN, Permission::Mod));
    assert!(!model.user_has_permission(A, Permission::Mod));
    assert!(!model.user_has_permission(A, Permission::Admin));
}

#[test]
fn creation_is_idempotent() {
    let mut model = Model::new(Config::default());
    assert_eq!(model.balance(A), Err(ModelError::NotFound(A)));
    assert_eq!(model.create_bank_account(A), Ok(()));
    assert_eq!(model.create_bank_account(A), Err(ModelError::AlreadyExists(A)));
    assert_eq!(model.balance(A), Ok(0));
    assert_eq!(model.account_count(), 1);
}

#[test]
fn creation_does_not_overwrite() {
    let mut model = engine_with(&[(A, 70)]);
    assert_eq!(model.create_bank_account(A), Err(ModelError::AlreadyExists(A)));
    assert_eq!(model.balance(A), Ok(70));
}

#[test]
fn transfer_moves_money() {
    let mut model = engine_with(&[(A, 100), (B, 5)]);
    assert_eq!(model.give(A, B, 30), Ok((70, 35)));
    assert_eq!(model.balance(A), Ok(70));
    assert_eq!(model.balance(B), Ok(35));
    assert_eq!(model.give(A, B, 70), Ok((0, 105)));
    assert_eq!(model.balance(A), Ok(0));
}

#[test]
fn transfer_beyond_balance_fails_and_changes_nothing() {
    let mut model = engine_with(&[(A, 20), (B, 0)]);
    assert_eq!(model.give(A, B, 30), Err(ModelError::InsufficientFunds));
    assert_eq!(model.balance(A), Ok(20));
    assert_eq!(model.balance(B), Ok(0));
}

#[test]
fn transfer_checks_accounts_before_amounts() {
    let mut model = engine_with(&[(A, 20)]);
    assert_eq!(model.give(B, C, 0), Err(ModelError::NotFound(B)));
    assert_eq!(model.give(A, C, 0), Err(ModelError::NotFound(C)));
    assert_eq!(model.give(C, A, -1), Err(ModelError::NotFound(C)));
    assert_eq!(model.give(A, A, 0), Err(ModelError::InvalidAmount));
    assert_eq!(model.give(A, A, -3), Err(ModelError::InvalidAmount));
    assert_eq!(model.give(A, A, 21), Err(ModelError::InsufficientFunds));
    assert_eq!(model.balance(A), Ok(20));
}

#[test]
fn transfer_to_oneself_changes_nothing() {
    let mut model = engine_with(&[(A, 20)]);
    assert_eq!(model.give(A, A, 5), Ok((15, 20)));
    assert_eq!(model.balance(A), Ok(20));
}

#[test]
fn transfer_that_the_receiver_cannot_hold_is_refused_whole() {
    let mut model = engine_with(&[(A, 10), (B, i64::MAX - 5)]);
    assert_eq!(model.give(A, B, 6), Err(ModelError::Unexpected));
    assert_eq!(model.balance(A), Ok(10));
    assert_eq!(model.balance(B), Ok(i64::MAX - 5));
    assert_eq!(model.give(A, B, 5), Ok((5, i64::MAX)));
}

#[test]
fn transfers_conserve_the_total() {
    let mut model = engine_with(&[(A, 500), (B, 40), (C, 0)]);
    let before = total(&model);
    let calls = [
        (A, B, 100),
        (B, C, 140),
        (C, A, 1),
        (C, A, 1_000),
        (A, A, 7),
        (B, A, 0),
        (A, 99, 5),
        (C, B, 139),
        (A, C, -4),
    ];
    for (src, dst, amount) in calls {
        let _ = model.give(src, dst, amount);
        assert_eq!(total(&model), before);
    }
    assert_eq!(model.balance(A), Ok(401));
    assert_eq!(model.balance(B), Ok(139));
    assert_eq!(model.balance(C), Ok(0));
}

#[test]
fn bless_credits_and_debits_with_a_floor() {
    let mut model = engine_with(&[(A, 0)]);
    assert_eq!(model.bless(A, 100), Ok(100));
    assert_eq!(model.bless(A, -30), Ok(70));
    assert_eq!(model.bless(A, -500), Ok(0));
    assert_eq!(model.bless(A, 0), Ok(0));
    assert_eq!(model.bless(B, 100), Err(ModelError::NotFound(B)));
    assert_eq!(model.bless(A, i64::MAX), Ok(i64::MAX));
    assert_eq!(model.bless(A, 1), Err(ModelError::Unexpected));
    assert_eq!(model.balance(A), Ok(i64::MAX));
}

#[test]
fn leaderboard_is_ordered_by_balance() {
    let model = engine_with(&[(A, 5), (B, 90), (C, 5), (44, 0), (55, 91)]);
    assert_eq!(
        model.leaderboard(),
        vec![(55, 91), (B, 90), (A, 5), (C, 5), (44, 0)]
    );
}

#[test]
fn daily_reward_has_a_cooldown_of_one_calendar_day() {
    let mut model = engine_with(&[(A, 0)]);
    let now = 20_000 * DAY + 3_600;
    assert_eq!(model.daily(A, now), Ok(true));
    assert_eq!(model.daily(A, now), Ok(false));
    assert_eq!(model.balance(A), Ok(100 * SCALE));
    // Later on the same day.
    assert_eq!(model.daily(A, 20_000 * DAY + DAY - 1), Ok(false));
    // One second past midnight, not a day after the claim.
    assert_eq!(model.daily(A, 20_001 * DAY), Ok(true));
    assert_eq!(model.balance(A), Ok(200 * SCALE));
    assert_eq!(model.daily(A, 20_001 * DAY + 1), Ok(false));
    assert_eq!(model.daily(B, now), Err(ModelError::NotFound(B)));
}

#[test]
fn daily_reward_can_be_set() {
    let mut model = engine_with(&[(A, 0)]);
    model.set_daily_amount(7);
    assert_eq!(model.daily_amount(), 7);
    assert_eq!(model.daily(A, 0), Ok(true));
    assert_eq!(model.balance(A), Ok(7));
    model.set_daily_amount(-1);
    assert_eq!(model.daily(A, DAY), Err(ModelError::InvalidAmount));
    assert_eq!(model.balance(A), Ok(7));
}

#[test]
fn settled_wager_pays_or_takes_the_bet() {
    let mut model = engine_with(&[(A, 10)]);
    assert_eq!(model.settle_coin_flip(A, "heads", 4, true), Ok(true));
    assert_eq!(model.balance(A), Ok(14));
    assert_eq!(model.settle_coin_flip(A, "heads", 4, false), Ok(false));
    assert_eq!(model.balance(A), Ok(10));
    assert_eq!(model.settle_coin_flip(A, "tails", 4, false), Ok(true));
    assert_eq!(model.balance(A), Ok(14));
    assert_eq!(model.settle_coin_flip(A, "tails", 4, true), Ok(false));
    assert_eq!(model.balance(A), Ok(10));
}

#[test]
fn wager_checks_in_order() {
    let mut model = engine_with(&[(A, 10)]);
    assert_eq!(model.settle_coin_flip(B, "edge", 0, true), Err(ModelError::NotFound(B)));
    assert_eq!(model.settle_coin_flip(A, "edge", 0, true), Err(ModelError::InvalidAmount));
    assert_eq!(model.settle_coin_flip(A, "heads", -2, true), Err(ModelError::InvalidAmount));
    assert_eq!(model.settle_coin_flip(A, "edge", 5, true), Err(ModelError::InvalidValue));
    assert_eq!(model.settle_coin_flip(A, "Heads", 5, true), Err(ModelError::InvalidValue));
    assert_eq!(model.settle_coin_flip(A, "", 5, true), Err(ModelError::InvalidValue));
    assert_eq!(model.settle_coin_flip(A, "heads", 11, false), Err(ModelError::InsufficientFunds));
    assert_eq!(model.balance(A), Ok(10));
    // A won wager needs no cover.
    assert_eq!(model.settle_coin_flip(A, "heads", 11, true), Ok(true));
    assert_eq!(model.balance(A), Ok(21));
}

#[test]
fn wager_of_the_whole_balance_leaves_nothing_or_double() {
    for choice in ["heads", "tails"] {
        for heads in [true, false] {
            let mut model = engine_with(&[(A, 10)]);
            let won = model.settle_coin_flip(A, choice, 10, heads).unwrap();
            assert_eq!(won, (choice == "heads") == heads);
            assert_eq!(model.balance(A), Ok(if won { 20 } else { 0 }));
        }
    }
}

#[test]
fn drawn_wager_of_the_whole_balance_leaves_nothing_or_double() {
    let mut seen_win = false;
    let mut seen_loss = false;
    for round in 0..400 {
        let choice = if round % 2 == 0 { "heads" } else { "tails" };
        let mut model = engine_with(&[(A, 10)]);
        let won = model.coin_flip(A, choice, 10).unwrap();
        assert_eq!(model.balance(A), Ok(if won { 20 } else { 0 }));
        seen_win |= won;
        seen_loss |= !won;
    }
    assert!(seen_win && seen_loss);
}

#[test]
fn drawn_wager_reports_errors_whatever_the_coin() {
    let mut model = engine_with(&[(A, 10)]);
    for _ in 0..20 {
        assert_eq!(model.coin_flip(B, "heads", 1), Err(ModelError::NotFound(B)));
        assert_eq!(model.coin_flip(A, "heads", 0), Err(ModelError::InvalidAmount));
        assert_eq!(model.coin_flip(A, "side", 1), Err(ModelError::InvalidValue));
    }
    assert_eq!(model.balance(A), Ok(10));
}

#[test]
fn winnings_that_cannot_be_held_are_refused() {
    let mut model = engine_with(&[(A, i64::MAX)]);
    assert_eq!(model.settle_coin_flip(A, "heads", 1, true), Err(ModelError::Unexpected));
    assert_eq!(model.balance(A), Ok(i64::MAX));
    assert_eq!(model.settle_coin_flip(A, "heads", 1, false), Ok(false));
}

#[test]
fn buy_then_sell_all_at_one_price() {
    let mut model = Model::new(Config::default());
    assert_eq!(model.create_bank_account(A), Ok(()));
    assert_eq!(model.balance(A), Ok(0));
    assert_eq!(model.bless(A, 100 * SCALE), Ok(100 * SCALE));
    assert_eq!(model.balance(A), Ok(100 * SCALE));
    let btc = priced("BTC", 25_000 * SCALE);
    assert_eq!(
        model.buy(A, "btc", 50 * SCALE, Some(&btc), 1_000),
        Ok((2_000, 25_000 * SCALE))
    );
    // 0.002 coins.
    assert_eq!(model.owned_amount(A, "btc"), 2_000);
    assert_eq!(model.balance(A), Ok(50 * SCALE));
    assert_eq!(
        model.sell_all(A, "btc", Some(&btc), 2_000),
        Ok((2_000, 25_000 * SCALE))
    );
    assert_eq!(model.balance(A), Ok(100 * SCALE));
    assert_eq!(model.owned_amount(A, "btc"), 0);
    assert_eq!(model.trade_count(), 2);
    let bought = model.trade(0).unwrap();
    assert_eq!(bought.entry_id, 1);
    assert_eq!(bought.user_id, A);
    assert_eq!(bought.coin_symbol, "BTC");
    assert_eq!(bought.signed_amount, 2_000);
    assert_eq!(bought.price_at_trade, 25_000 * SCALE);
    assert_eq!(bought.timestamp, 1_000);
    let sold = model.trade(1).unwrap();
    assert_eq!(sold.entry_id, 2);
    assert_eq!(sold.coin_symbol, "BTC");
    assert_eq!(sold.signed_amount, -2_000);
    assert_eq!(sold.timestamp, 2_000);
    assert!(model.trade(2).is_none());
}

#[test]
fn sell_beyond_holding_fails_and_changes_nothing() {
    let mut model = engine_with(&[(A, 100 * SCALE)]);
    let eth = priced("ETH", 2_000 * SCALE);
    // Holds 0.015 coins, worth 30.
    assert_eq!(
        model.buy(A, "eth", 30 * SCALE, Some(&eth), 1),
        Ok((15_000, 2_000 * SCALE))
    );
    assert_eq!(model.balance(A), Ok(70 * SCALE));
    assert_eq!(
        model.sell(A, "eth", 40 * SCALE, Some(&eth), 2),
        Err(ModelError::InsufficientCoins)
    );
    assert_eq!(model.trade_count(), 1);
    assert_eq!(model.balance(A), Ok(70 * SCALE));
    assert_eq!(model.owned_amount(A, "eth"), 15_000);
}

#[test]
fn sell_credits_fiat_and_records_a_negative_entry() {
    let mut model = engine_with(&[(A, 100 * SCALE)]);
    let eth = priced("ETH", 2_000 * SCALE);
    model.buy(A, "ETH", 30 * SCALE, Some(&eth), 1).unwrap();
    assert_eq!(
        model.sell(A, "eth", 10 * SCALE, Some(&eth), 2),
        Ok((5_000, 2_000 * SCALE))
    );
    assert_eq!(model.balance(A), Ok(80 * SCALE));
    assert_eq!(model.owned_amount(A, "Eth"), 10_000);
    assert_eq!(model.trade(1).unwrap().signed_amount, -5_000);
    assert_eq!(model.sell(A, "eth", 20 * SCALE, Some(&eth), 3), Ok((10_000, 2_000 * SCALE)));
    assert_eq!(model.owned_amount(A, "eth"), 0);
    assert_eq!(model.balance(A), Ok(100 * SCALE));
    assert_eq!(model.sell(A, "eth", 1, Some(&eth), 4), Err(ModelError::InsufficientCoins));
}

#[test]
fn sale_rounds_coins_up() {
    let mut model = engine_with(&[(A, 100 * SCALE)]);
    let btc = priced("BTC", 25_000 * SCALE);
    model.buy(A, "btc", 50 * SCALE, Some(&btc), 1).unwrap();
    // 49 999 millionths of fiat are worth just under two millionths of a coin.
    assert_eq!(model.sell(A, "btc", 49_999, Some(&btc), 2), Ok((2, 25_000 * SCALE)));
    assert_eq!(model.owned_amount(A, "btc"), 1_998);
    assert_eq!(model.balance(A), Ok(50 * SCALE + 49_999));
}

#[test]
fn buy_checks_in_order() {
    let mut model = engine_with(&[(A, 10 * SCALE)]);
    let btc = priced("BTC", 25_000 * SCALE);
    let other = priced("ETH", 5);
    assert_eq!(model.buy(B, "btc", 0, None, 0), Err(ModelError::NotFound(B)));
    assert_eq!(model.buy(A, "btc", 0, None, 0), Err(ModelError::InvalidAmount));
    assert_eq!(model.buy(A, "btc", -1, Some(&btc), 0), Err(ModelError::InvalidAmount));
    assert_eq!(model.buy(A, "btc", 20 * SCALE, None, 0), Err(ModelError::Unavailable));
    assert_eq!(model.buy(A, "btc", 20 * SCALE, Some(&other), 0), Err(ModelError::UnknownSymbol));
    assert_eq!(model.buy(A, "btc", 20 * SCALE, Some(&btc), 0), Err(ModelError::InsufficientFunds));
    assert_eq!(model.balance(A), Ok(10 * SCALE));
    assert_eq!(model.trade_count(), 0);
}

#[test]
fn buy_debits_the_fiat_not_the_coins() {
    // The balance covers the coin amount but not the fiat.
    let mut model = engine_with(&[(A, 10 * SCALE)]);
    let btc = priced("BTC", 25_000 * SCALE);
    assert_eq!(model.buy(A, "btc", 11 * SCALE, Some(&btc), 0), Err(ModelError::InsufficientFunds));
    assert_eq!(model.buy(A, "btc", 10 * SCALE, Some(&btc), 0), Ok((400, 25_000 * SCALE)));
    assert_eq!(model.balance(A), Ok(0));
}

#[test]
fn buy_of_less_than_one_unit_of_coin_is_invalid() {
    let mut model = engine_with(&[(A, 10 * SCALE)]);
    let btc = priced("BTC", 25_000 * SCALE);
    assert_eq!(model.buy(A, "btc", 24_999, Some(&btc), 0), Err(ModelError::InvalidAmount));
    assert_eq!(model.buy(A, "btc", 25_000, Some(&btc), 0), Ok((1, 25_000 * SCALE)));
    assert_eq!(model.balance(A), Ok(10 * SCALE - 25_000));
}

#[test]
fn buy_that_cannot_be_held_is_refused_whole() {
    let mut model = engine_with(&[(A, i64::MAX)]);
    let dust = priced("DUST", 1);
    assert_eq!(model.buy(A, "dust", i64::MAX, Some(&dust), 0), Err(ModelError::Unexpected));
    let par = priced("PAR", SCALE);
    assert_eq!(model.buy(A, "par", i64::MAX - 1, Some(&par), 0), Ok((i64::MAX - 1, SCALE)));
    assert_eq!(model.balance(A), Ok(1));
    model.bless(A, 10).unwrap();
    // One more coin unit fits, two do not.
    assert_eq!(model.buy(A, "par", 2, Some(&par), 0), Err(ModelError::Unexpected));
    assert_eq!(model.balance(A), Ok(11));
    assert_eq!(model.trade_count(), 1);
    assert_eq!(model.buy(A, "par", 1, Some(&par), 0), Ok((1, SCALE)));
    assert_eq!(model.owned_amount(A, "par"), i64::MAX);
}

#[test]
fn sell_checks_in_order() {
    let mut model = engine_with(&[(A, 10 * SCALE)]);
    let btc = priced("BTC", 25_000 * SCALE);
    assert_eq!(model.sell(B, "btc", 0, None, 0), Err(ModelError::NotFound(B)));
    assert_eq!(model.sell(A, "btc", 0, None, 0), Err(ModelError::InvalidAmount));
    assert_eq!(model.sell(A, "btc", 5, None, 0), Err(ModelError::Unavailable));
    assert_eq!(
        model.sell(A, "btc", 5, Some(&priced("ETH", 5)), 0),
        Err(ModelError::UnknownSymbol)
    );
    assert_eq!(model.sell(A, "btc", 5, Some(&btc), 0), Err(ModelError::InsufficientCoins));
    assert_eq!(model.balance(A), Ok(10 * SCALE));
    assert_eq!(model.trade_count(), 0);
}

#[test]
fn sell_that_the_balance_cannot_hold_is_refused_whole() {
    let mut model = engine_with(&[(A, 100)]);
    let par = priced("PAR", SCALE);
    model.buy(A, "par", 100, Some(&par), 0).unwrap();
    model.bless(A, i64::MAX).unwrap();
    assert_eq!(model.sell(A, "par", 1, Some(&par), 0), Err(ModelError::Unexpected));
    assert_eq!(model.sell_all(A, "par", Some(&par), 0), Err(ModelError::Unexpected));
    assert_eq!(model.owned_amount(A, "par"), 100);
    assert_eq!(model.trade_count(), 1);
    assert_eq!(model.balance(A), Ok(i64::MAX));
}

#[test]
fn sell_all_checks_in_order() {
    let mut model = engine_with(&[(A, 10 * SCALE)]);
    let btc = priced("BTC", 25_000 * SCALE);
    assert_eq!(model.sell_all(B, "btc", None, 0), Err(ModelError::NotFound(B)));
    assert_eq!(model.sell_all(A, "btc", None, 0), Err(ModelError::Unavailable));
    assert_eq!(
        model.sell_all(A, "btc", Some(&priced("ETH", 5)), 0),
        Err(ModelError::UnknownSymbol)
    );
    assert_eq!(model.sell_all(A, "btc", Some(&btc), 0), Err(ModelError::InsufficientCoins));
    assert_eq!(model.trade_count(), 0);
}

#[test]
fn sell_all_pays_the_value_at_the_current_price() {
    let mut model = engine_with(&[(A, 10 * SCALE)]);
    model.buy(A, "xyz", 10 * SCALE, Some(&priced("XYZ", 3 * SCALE)), 0).unwrap();
    assert_eq!(model.owned_amount(A, "xyz"), 3_333_333);
    assert_eq!(model.balance(A), Ok(0));
    // At the same price the rounding is lost.
    let mut same = engine_with(&[(A, 10 * SCALE)]);
    same.buy(A, "xyz", 10 * SCALE, Some(&priced("XYZ", 3 * SCALE)), 0).unwrap();
    assert_eq!(
        same.sell_all(A, "xyz", Some(&priced("XYZ", 3 * SCALE)), 1),
        Ok((3_333_333, 3 * SCALE))
    );
    assert_eq!(same.balance(A), Ok(9_999_999));
    // At twice the price the holding is worth twice as much.
    assert_eq!(
        model.sell_all(A, "xyz", Some(&priced("XYZ", 6 * SCALE)), 1),
        Ok((3_333_333, 6 * SCALE))
    );
    assert_eq!(model.balance(A), Ok(19_999_998));
    assert_eq!(model.owned_amount(A, "xyz"), 0);
    assert_eq!(
        model.sell_all(A, "xyz", Some(&priced("XYZ", 6 * SCALE)), 2),
        Err(ModelError::InsufficientCoins)
    );
}

#[test]
fn holdings_are_kept_per_user_and_coin() {
    let mut model = engine_with(&[(A, 100 * SCALE), (B, 100 * SCALE)]);
    let btc = priced("BTC", 25_000 * SCALE);
    let eth = priced("ETH", 2_000 * SCALE);
    model.buy(A, "btc", 50 * SCALE, Some(&btc), 0).unwrap();
    model.buy(B, "eth", 20 * SCALE, Some(&eth), 0).unwrap();
    assert_eq!(model.owned_amount(A, "btc"), 2_000);
    assert_eq!(model.owned_amount(A, "eth"), 0);
    assert_eq!(model.owned_amount(B, "btc"), 0);
    assert_eq!(model.owned_amount(B, "eth"), 10_000);
    assert_eq!(model.owned_amount(C, "eth"), 0);
    assert_eq!(model.sell(B, "btc", SCALE, Some(&btc), 0), Err(ModelError::InsufficientCoins));
    assert_eq!(model.holdings(A), Ok(vec![("BTC".to_string(), 2_000)]));
    assert_eq!(model.holdings(B), Ok(vec![("ETH".to_string(), 10_000)]));
    assert_eq!(model.holdings(C), Err(ModelError::NotFound(C)));
}

#[test]
fn portfolio_values_each_holding() {
    let mut model = engine_with(&[(A, 100 * SCALE)]);
    let btc = priced("BTC", 25_000 * SCALE);
    let eth = priced("ETH", 2_000 * SCALE);
    let ada = priced("ADA", SCALE);
    model.buy(A, "eth", 20 * SCALE, Some(&eth), 0).unwrap();
    model.buy(A, "ada", 5 * SCALE, Some(&ada), 0).unwrap();
    model.buy(A, "btc", 50 * SCALE, Some(&btc), 0).unwrap();
    model.sell_all(A, "ada", Some(&ada), 0).unwrap();
    assert_eq!(
        model.holdings(A),
        Ok(vec![("ETH".to_string(), 10_000), ("BTC".to_string(), 2_000)])
    );
    let answers = vec![Some(priced("ETH", 3_000 * SCALE)), Some(btc.clone())];
    assert_eq!(
        model.portfolio(A, &answers),
        Ok(vec![
            ("ETH".to_string(), 10_000, 30 * SCALE),
            ("BTC".to_string(), 2_000, 50 * SCALE),
        ])
    );
}

#[test]
fn portfolio_reports_the_first_failure() {
    let mut model = engine_with(&[(A, 100 * SCALE)]);
    let btc = priced("BTC", 25_000 * SCALE);
    let eth = priced("ETH", 2_000 * SCALE);
    model.buy(A, "eth", 20 * SCALE, Some(&eth), 0).unwrap();
    model.buy(A, "btc", 50 * SCALE, Some(&btc), 0).unwrap();
    assert_eq!(model.portfolio(B, &vec![]), Err(ModelError::NotFound(B)));
    assert_eq!(model.portfolio(A, &vec![]), Err(ModelError::Unavailable));
    assert_eq!(
        model.portfolio(A, &vec![Some(eth.clone())]),
        Err(ModelError::Unavailable)
    );
    assert_eq!(
        model.portfolio(A, &vec![Some(btc.clone()), None]),
        Err(ModelError::UnknownSymbol)
    );
    assert_eq!(
        model.portfolio(A, &vec![Some(eth.clone()), Some(eth.clone())]),
        Err(ModelError::UnknownSymbol)
    );
    assert_eq!(
        model.portfolio(A, &vec![None, Some(eth.clone())]),
        Err(ModelError::Unavailable)
    );
}

#[test]
fn portfolio_of_a_user_without_holdings_is_empty() {
    let model = engine_with(&[(A, 5)]);
    assert_eq!(model.portfolio(A, &vec![]), Ok(vec![]));
    assert_eq!(model.portfolio(A, &vec![None]), Ok(vec![]));
    assert_eq!(model.holdings(A), Ok(vec![]));
}

#[test]
fn portfolio_value_that_cannot_be_held_is_a_fault() {
    let mut model = engine_with(&[(A, i64::MAX)]);
    let par = priced("PAR", SCALE);
    model.buy(A, "par", i64::MAX, Some(&par), 0).unwrap();
    assert_eq!(
        model.portfolio(A, &vec![Some(priced("PAR", 2 * SCALE))]),
        Err(ModelError::Unexpected)
    );
    assert_eq!(
        model.portfolio(A, &vec![Some(par)]),
        Ok(vec![("PAR".to_string(), i64::MAX, i64::MAX)])
    );
}

#[test]
fn coin_info_reads_the_answer() {
    let model = Model::new(Config::default());
    let btc = priced("BTC", 25_000 * SCALE);
    let info = model.coin_info("btc", Some(&btc)).unwrap();
    assert_eq!(info.symbol, "btc");
    assert_eq!(info.name, "BTC coin");
    assert_eq!(info.current_price, 25_000 * SCALE);
    assert_eq!(model.coin_info("eth", Some(&btc)).unwrap_err(), ModelError::UnknownSymbol);
    assert_eq!(model.coin_info("btc", None).unwrap_err(), ModelError::Unavailable);
}

#[test]
fn nothing_goes_negative_over_a_mixed_run() {
    let mut model = engine_with(&[(A, 30 * SCALE), (B, 0)]);
    let btc = priced("BTC", 25_000 * SCALE);
    let cheap = priced("BTC", 20_000 * SCALE);
    let mut now = 0;
    for round in 0..60 {
        now += 40_000;
        let _ = model.daily(B, now);
        let _ = model.buy(A, "btc", (round % 7) * SCALE, Some(&btc), now);
        let _ = model.sell(A, "BTC", (round % 5) * SCALE, Some(&cheap), now);
        let _ = model.give(A, B, (round % 11) * SCALE);
        let _ = model.give(B, A, 3 * SCALE);
        let _ = model.coin_flip(B, "tails", (round % 4) * SCALE);
        let _ = model.bless(A, -((round % 3) * SCALE));
        if round % 13 == 0 {
            let _ = model.sell_all(A, "btc", Some(&cheap), now);
        }
        for i in 0..model.account_count() {
            assert!(model.account(i).unwrap().balance >= 0);
        }
        assert!(model.owned_amount(A, "btc") >= 0);
        assert!(model.owned_amount(B, "btc") >= 0);
    }
    for i in 0..model.trade_count() {
        assert_eq!(model.trade(i).unwrap().entry_id, i as u64 + 1);
        assert_eq!(model.trade(i).unwrap().user_id, A);
    }
}

#[test]
fn trades_by_key_take_the_key_as_it_is() {
    let mut model = engine_with(&[(A, 100 * SCALE)]);
    let lower = priced("btc", 25_000 * SCALE);
    let upper = priced("BTC", 20_000 * SCALE);
    assert_eq!(
        model.buy_by_key(A, "btc", 50 * SCALE, Some(&upper), 5),
        Err(ModelError::UnknownSymbol)
    );
    assert_eq!(
        model.buy_by_key(A, "btc", 50 * SCALE, Some(&lower), 5),
        Ok((2_000, 25_000 * SCALE))
    );
    assert_eq!(model.trade(0).unwrap().coin_symbol, "btc");
    assert_eq!(model.owned_by_key(A, "btc"), 2_000);
    assert_eq!(model.owned_by_key(A, "BTC"), 0);
    assert_eq!(model.owned_amount(A, "btc"), 0);
    assert_eq!(
        model.sell_by_key(A, "BTC", SCALE, Some(&upper), 6),
        Err(ModelError::InsufficientCoins)
    );
    assert_eq!(
        model.sell_by_key(A, "btc", 25 * SCALE, Some(&lower), 6),
        Ok((1_000, 25_000 * SCALE))
    );
    assert_eq!(model.balance(A), Ok(75 * SCALE));
    assert_eq!(
        model.sell_all_by_key(A, "BTC", Some(&upper), 7),
        Err(ModelError::InsufficientCoins)
    );
    assert_eq!(
        model.sell_all_by_key(A, "btc", Some(&lower), 7),
        Ok((1_000, 25_000 * SCALE))
    );
    assert_eq!(model.balance(A), Ok(100 * SCALE));
    assert_eq!(model.owned_by_key(A, "btc"), 0);
    assert_eq!(model.trade_count(), 3);
}

#[test]
fn trades_by_symbol_file_in_upper_case() {
    let mut model = engine_with(&[(A, 100 * SCALE)]);
    let lower = priced("btc", 25_000 * SCALE);
    let upper = priced("BTC", 20_000 * SCALE);
    assert_eq!(
        model.buy(A, "btc", 50 * SCALE, Some(&lower), 5),
        Err(ModelError::UnknownSymbol)
    );
    assert_eq!(
        model.buy(A, "bTc", 50 * SCALE, Some(&upper), 5),
        Ok((2_500, 20_000 * SCALE))
    );
    assert_eq!(model.trade(0).unwrap().coin_symbol, "BTC");
    assert_eq!(model.owned_by_key(A, "BTC"), 2_500);
    assert_eq!(model.owned_by_key(A, "bTc"), 0);
    assert_eq!(model.owned_amount(A, "btc"), 2_500);
    assert_eq!(
        model.sell(A, "Btc", 20 * SCALE, Some(&upper), 6),
        Ok((1_000, 20_000 * SCALE))
    );
    assert_eq!(
        model.sell_all(A, "btC", Some(&upper), 7),
        Ok((1_500, 20_000 * SCALE))
    );
    assert_eq!(model.balance(A), Ok(100 * SCALE));
}
