use ben::account::{Account, AccountStore};
use ben::error::ModelError;
use ben::ledger::TradeLedger;
use ben::permissions::Permission;

#[test]
fn store_creates_each_account_once() {
    let mut store = AccountStore::new();
    assert_eq!(store.len(), 0);
    assert_eq!(store.create(4), Ok(()));
    assert_eq!(store.create(9), Ok(()));
    assert_eq!(store.create(4), Err(ModelError::AlreadyExists(4)));
    assert_eq!(store.len(), 2);
    assert_eq!(
        store.get(0),
        Some(Account { user_id: 4, balance: 0, last_daily_claim: None })
    );
    assert_eq!(
        store.get(1),
        Some(Account { user_id: 9, balance: 0, last_daily_claim: None })
    );
    assert_eq!(store.get(2), None);
    assert!(store.contains(9));
    assert!(!store.contains(5));
}

#[test]
fn store_reports_missing_accounts() {
    let mut store = AccountStore::new();
    assert_eq!(store.get_balance(1), Err(ModelError::NotFound(1)));
    assert_eq!(store.adjust(1, 5, true), Err(ModelError::NotFound(1)));
    assert_eq!(store.adjust(1, 5, false), Err(ModelError::NotFound(1)));
    assert_eq!(store.try_claim_daily(1, 5, 0), Err(ModelError::NotFound(1)));
}

#[test]
fn adjust_with_floor_clamps_at_zero() {
    let mut store = AccountStore::new();
    store.create(1).unwrap();
    assert_eq!(store.adjust(1, 70, true), Ok(70));
    assert_eq!(store.adjust(1, -30, true), Ok(40));
    assert_eq!(store.adjust(1, -100, true), Ok(0));
    assert_eq!(store.get_balance(1), Ok(0));
    assert_eq!(store.adjust(1, i64::MIN, true), Ok(0));
}

#[test]
fn adjust_without_floor_is_conditional() {
    let mut store = AccountStore::new();
    store.create(1).unwrap();
    assert_eq!(store.adjust(1, 70, false), Ok(70));
    assert_eq!(store.adjust(1, -71, false), Err(ModelError::InsufficientFunds));
    assert_eq!(store.get_balance(1), Ok(70));
    assert_eq!(store.adjust(1, -70, false), Ok(0));
    assert_eq!(store.adjust(1, -1, false), Err(ModelError::InsufficientFunds));
    assert_eq!(store.get_balance(1), Ok(0));
}

#[test]
fn adjust_refuses_a_balance_that_cannot_be_held() {
    let mut store = AccountStore::new();
    store.create(1).unwrap();
    assert_eq!(store.adjust(1, i64::MAX, false), Ok(i64::MAX));
    assert_eq!(store.adjust(1, 1, false), Err(ModelError::Unexpected));
    assert_eq!(store.adjust(1, 1, true), Err(ModelError::Unexpected));
    assert_eq!(store.get_balance(1), Ok(i64::MAX));
}

#[test]
fn adjust_leaves_other_accounts_alone() {
    let mut store = AccountStore::new();
    store.create(1).unwrap();
    store.create(2).unwrap();
    store.create(3).unwrap();
    store.adjust(2, 5, true).unwrap();
    assert_eq!(store.get_balance(1), Ok(0));
    assert_eq!(store.get_balance(2), Ok(5));
    assert_eq!(store.get_balance(3), Ok(0));
}

#[test]
fn daily_claim_is_once_per_day() {
    let mut store = AccountStore::new();
    store.create(1).unwrap();
    assert_eq!(store.try_claim_daily(1, 100, 20_000), Ok(true));
    assert_eq!(store.try_claim_daily(1, 100, 20_000), Ok(false));
    assert_eq!(store.get_balance(1), Ok(100));
    assert_eq!(store.try_claim_daily(1, 100, 20_001), Ok(true));
    assert_eq!(store.get_balance(1), Ok(200));
    assert_eq!(
        store.get(0),
        Some(Account { user_id: 1, balance: 200, last_daily_claim: Some(20_001) })
    );
    // An earlier day is another day too.
    assert_eq!(store.try_claim_daily(1, 100, 19_999), Ok(true));
}

#[test]
fn daily_claim_can_be_made_on_day_zero() {
    let mut store = AccountStore::new();
    store.create(1).unwrap();
    assert_eq!(store.try_claim_daily(1, 1, 0), Ok(true));
    assert_eq!(store.try_claim_daily(1, 1, 0), Ok(false));
}

#[test]
fn daily_claim_refuses_bad_rewards() {
    let mut store = AccountStore::new();
    store.create(1).unwrap();
    assert_eq!(store.try_claim_daily(1, -1, 5), Err(ModelError::InvalidAmount));
    assert_eq!(store.try_claim_daily(1, 0, 5), Ok(true));
    store.adjust(1, i64::MAX, true).unwrap();
    assert_eq!(store.try_claim_daily(1, 1, 6), Err(ModelError::Unexpected));
    assert_eq!(
        store.get(0),
        Some(Account { user_id: 1, balance: i64::MAX, last_daily_claim: Some(5) })
    );
}

#[test]
fn leaderboard_orders_by_balance_then_age() {
    let mut store = AccountStore::new();
    assert_eq!(store.leaderboard(), vec![]);
    for user in [10, 20, 30, 40, 50] {
        store.create(user).unwrap();
    }
    store.adjust(10, 5, true).unwrap();
    store.adjust(20, 9, true).unwrap();
    store.adjust(30, 5, true).unwrap();
    store.adjust(50, 9, true).unwrap();
    assert_eq!(
        store.leaderboard(),
        vec![(20, 9), (50, 9), (10, 5), (30, 5), (40, 0)]
    );
}

#[test]
fn ledger_sums_signed_amounts() {
    let mut ledger = TradeLedger::new();
    assert_eq!(ledger.owned_amount(1, "BTC"), 0);
    assert_eq!(ledger.append(1, "BTC", 5, 100, 1), Ok(()));
    assert_eq!(ledger.append(1, "BTC", -2, 110, 2), Ok(()));
    assert_eq!(ledger.append(2, "BTC", 40, 110, 3), Ok(()));
    assert_eq!(ledger.append(1, "ETH", 7, 10, 4), Ok(()));
    assert_eq!(ledger.owned_amount(1, "BTC"), 3);
    assert_eq!(ledger.owned_amount(2, "BTC"), 40);
    assert_eq!(ledger.owned_amount(1, "ETH"), 7);
    assert_eq!(ledger.owned_amount(2, "ETH"), 0);
    assert_eq!(ledger.owned_amount(3, "BTC"), 0);
    assert_eq!(ledger.len(), 4);
}

#[test]
fn ledger_does_not_validate() {
    let mut ledger = TradeLedger::new();
    assert_eq!(ledger.append(1, "BTC", -5, 0, 0), Ok(()));
    assert_eq!(ledger.owned_amount(1, "BTC"), -5);
    assert_eq!(ledger.portfolio(1), vec![]);
}

#[test]
fn ledger_sums_beyond_one_amount() {
    let mut ledger = TradeLedger::new();
    ledger.append(1, "BTC", i64::MAX, 1, 0).unwrap();
    ledger.append(1, "BTC", i64::MAX, 1, 0).unwrap();
    assert_eq!(ledger.owned_amount(1, "BTC"), 2 * (i64::MAX as i128));
}

#[test]
fn ledger_files_symbols_in_upper_case() {
    let mut ledger = TradeLedger::new();
    ledger.append(1, "btc", 5, 100, 1).unwrap();
    ledger.append(1, "Btc", 6, 100, 2).unwrap();
    let first = ledger.get(0).unwrap();
    assert_eq!(first.coin_symbol, "BTC");
    assert_eq!(ledger.owned_amount(1, "BTC"), 11);
    assert_eq!(ledger.owned_amount(1, "bTc"), 11);
    assert_eq!(ledger.portfolio(1), vec![("BTC".to_string(), 11)]);
}

#[test]
fn ledger_numbers_and_keeps_entries() {
    let mut ledger = TradeLedger::new();
    ledger.append(8, "eth", -3, 17, 99).unwrap();
    ledger.append(9, "ada", 4, 18, 100).unwrap();
    let first = ledger.get(0).unwrap();
    assert_eq!(first.entry_id, 1);
    assert_eq!(first.user_id, 8);
    assert_eq!(first.coin_symbol, "ETH");
    assert_eq!(first.signed_amount, -3);
    assert_eq!(first.price_at_trade, 17);
    assert_eq!(first.timestamp, 99);
    let second = ledger.get(1).unwrap();
    assert_eq!(second.entry_id, 2);
    assert_eq!(second.coin_symbol, "ADA");
    assert!(ledger.get(2).is_none());
}

#[test]
fn portfolio_lists_positive_holdings_in_order_of_first_trade() {
    let mut ledger = TradeLedger::new();
    ledger.append(1, "ETH", 7, 10, 1).unwrap();
    ledger.append(2, "XRP", 1, 10, 2).unwrap();
    ledger.append(1, "BTC", 5, 100, 3).unwrap();
    ledger.append(1, "ADA", 9, 1, 4).unwrap();
    ledger.append(1, "ETH", 1, 10, 5).unwrap();
    ledger.append(1, "ADA", -9, 1, 6).unwrap();
    ledger.append(1, "DOT", -1, 1, 7).unwrap();
    assert_eq!(
        ledger.portfolio(1),
        vec![("ETH".to_string(), 8), ("BTC".to_string(), 5)]
    );
    assert_eq!(ledger.portfolio(2), vec![("XRP".to_string(), 1)]);
    assert_eq!(ledger.portfolio(3), vec![]);
}

#[test]
fn permissions_are_ordered() {
    assert!(Permission::Admin.allows(Permission::Admin));
    assert!(Permission::Admin.allows(Permission::Mod));
    assert!(Permission::Mod.allows(Permission::Mod));
    assert!(!Permission::Mod.allows(Permission::Admin));
    assert!(Permission::Mod < Permission::Admin);
}

#[test]
fn ledger_files_under_a_key_as_it_is() {
    let mut ledger = TradeLedger::new();
    assert_eq!(ledger.append_by_key(1, "btc", 5, 100, 1), Ok(()));
    assert_eq!(ledger.append_by_key(1, "BTC", 7, 100, 2), Ok(()));
    assert_eq!(ledger.get(0).unwrap().coin_symbol, "btc");
    assert_eq!(ledger.get(1).unwrap().coin_symbol, "BTC");
    assert_eq!(ledger.get(1).unwrap().entry_id, 2);
    assert_eq!(ledger.owned_by_key(1, "btc"), 5);
    assert_eq!(ledger.owned_by_key(1, "BTC"), 7);
    assert_eq!(ledger.owned_by_key(1, "Btc"), 0);
    assert_eq!(ledger.owned_by_key(2, "btc"), 0);
    // By symbol, only what is filed in upper case is found.
    assert_eq!(ledger.owned_amount(1, "btc"), 7);
    assert_eq!(
        ledger.portfolio(1),
        vec![("btc".to_string(), 5), ("BTC".to_string(), 7)]
    );
}
