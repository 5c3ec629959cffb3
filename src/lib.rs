//! The ledger and round logic of an invest-and-draw lottery.
//!
//! Investors deposit the accepted asset into the open round and are credited
//! internal tokens at a fixed exchange ratio. Closing a round picks two
//! winners from its investors, splits the pot by the configured ratios, and
//! opens the next round. The state is an explicit value (`contract::Lottery`)
//! that every operation takes; each operation either succeeds or leaves the
//! state unchanged.
pub mod contract;
pub mod error;
pub mod event;
pub mod ledger;
pub mod msg;
pub mod order;
pub mod payout;
pub mod queries;
pub mod response;
pub mod rounds;
pub mod state;
