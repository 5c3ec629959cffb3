//! The configuration fixed at genesis.
use vstd::prelude::*;

verus! {

/// Who owns the lottery, what it accepts and how it pays out.
#[derive(Clone, Debug, PartialEq, Eq)]
pub struct ContractInfo {
    pub owner: String,
    pub use_denom: String,
    pub exchange_ratio: u128,
    pub min_exchange_amount: u32,
    pub first_winner_ratio: u8,
    pub second_winner_ratio: u8,
    pub owner_ratio: u8,
}

/// The internal token's description; its supply is kept by the ledger.
#[derive(Clone, Debug, PartialEq, Eq)]
pub struct TokenInfo {
    pub name: String,
    pub symbol: String,
    pub decimals: u8,
}

/// A round of exchanging tokens back into the accepted asset: its number
/// and the amount asked for in it.
#[derive(Clone, Copy, Debug, PartialEq, Eq)]
pub struct Exchange {
    pub round: u32,
    pub total_amount: u128,
}

} // verus!
