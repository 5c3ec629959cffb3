//! Requests and their parameters, as the dispatcher hands them over.
use vstd::prelude::*;

verus! {

/// Funds of one denomination attached to a request.
#[derive(Clone, Debug, PartialEq, Eq)]
pub struct Coin {
    pub denom: String,
    pub amount: u128,
}

/// Who sends a request, and the funds attached to it.
#[derive(Clone, Debug, PartialEq, Eq)]
pub struct MessageInfo {
    pub sender: String,
    pub funds: Vec<Coin>,
}

/// The genesis configuration.
#[derive(Clone, Debug, PartialEq, Eq)]
pub struct InstantiateMsg {
    /// The accepted asset.
    pub use_denom: String,
    /// Token units minted for each unit of the accepted asset.
    pub exchange_ratio: u128,
    /// Smallest deposit meant to be accepted (recorded, not enforced).
    pub min_exchange_amount: u32,
    pub first_winner_ratio: u8,
    pub second_winner_ratio: u8,
    pub owner_ratio: u8,
    pub token_name: String,
    pub token_symbol: String,
    pub token_decimals: u8,
}

/// The state-changing requests.
#[derive(Clone, Debug, PartialEq, Eq)]
pub enum ExecuteMsg {
    /// Deposit the attached funds into the open round.
    Invest {},
    /// Close the open round and pay out (owner only).
    CloseInvestment {},
    /// Move internal tokens from the sender to `to`.
    TransferToken { to: String, amount: u128 },
}

/// The read-only requests.
#[derive(Clone, Debug, PartialEq, Eq)]
pub enum QueryMsg {
    Info {},
    CurrentRound {},
    CurrentInvestment {},
    CurrentInvestors { start_after: Option<String>, limit: Option<u32> },
    Investors { round: u32, start_after: Option<String>, limit: Option<u32> },
    InvestResult { round: u32 },
    TotalTokenSupply {},
    TokenBalance { who: String },
}

/// A bare counter.
#[derive(Clone, Copy, Debug, PartialEq, Eq)]
pub struct CountResponse {
    pub count: i32,
}

/// The configuration, as a query returns it.
#[derive(Clone, Debug, PartialEq, Eq)]
pub struct InfoResponse {
    pub exchange_ratio: u128,
    pub min_exchange_amount: u32,
    pub first_winner_ratio: u8,
    pub second_winner_ratio: u8,
    pub owner_ratio: u8,
    pub token_name: String,
    pub token_symbol: String,
    pub token_decimals: u8,
}

} // verus!
