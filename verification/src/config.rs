//! What the ledger is configured with.

use vstd::prelude::*;

verus! {

/// The settings of one installation.
#[derive(Debug, Clone, Default)]
pub struct Config {
    /// The credential of the chat front-end.
    pub discord_token: String,
    /// The credential that the price source asks for.
    pub cmc_api_key: String,
    /// Whether prices come from the price source's test service.
    pub use_cmc_sandbox_api: bool,
    /// The users that administer the installation.
    pub bot_admins: Vec<u64>,
}

} // verus!
