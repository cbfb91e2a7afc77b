//! A virtual economy ledger: per-user balances, a trade ledger of coin
//! purchases and sales, and the engine that keeps both consistent.
//!
//! - [`money`]: fixed-point amounts and the conversions between fiat and
//!   coins.
//! - [`account`]: the account store.
//! - [`ledger`]: the trade ledger and the holdings derived from it.
//! - [`oracle`]: the price oracle adapter.
//! - [`economy`]: the state of the economy and the rules of its operations.
//! - [`model`]: the engine that carries the operations out.
//! - [`laws`]: what holds of the economy whatever is done with it.

pub mod account;
mod chance;
pub mod config;
pub mod economy;
pub mod error;
pub mod laws;
pub mod ledger;
pub mod model;
pub mod money;
pub mod oracle;
pub mod permissions;
pub mod symbol;
