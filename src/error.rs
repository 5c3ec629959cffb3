//! Why a request was refused.
use vstd::prelude::*;

verus! {

/// The reasons for which a request fails; a failed request changes nothing.
#[derive(Debug, PartialEq, Eq)]
pub enum ContractError {
    /// The genesis configuration is malformed (no accepted asset).
    InvalidParams,
    /// The caller is not the owner of an owner-gated operation.
    Unauthorized,
    /// No record of this round, or it does not accept contributions.
    InvalidRound { round: u32 },
    /// The round has been closed already.
    AlreadyClosed { round: u32 },
    /// The round has not been settled yet; ask again later.
    RoundStillOpen { round: u32 },
    /// No funds, or a zero amount, came with a deposit.
    NoFunds,
    /// More than one denomination came with a deposit.
    MultipleDenoms,
    /// The funds that came are not of the accepted asset (named here).
    MissingDenom(String),
    /// The sender holds less than the amount to transfer.
    InsufficientBalance,
    /// A transfer of zero tokens.
    InvalidAmount,
    /// A balance or the total supply would leave the 128-bit range.
    Overflow,
    /// A computed amount would leave the 128-bit range.
    ArithmeticOverflow,
    /// The round to close has no investors.
    NoInvestors,
}

} // verus!
