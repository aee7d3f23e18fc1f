//! A single-asset staking ledger: accounts deposit units of a fungible token,
//! accrue simple daily interest while staked, and withdraw principal plus
//! interest. Token movements are requested from an outside collaborator and
//! the ledger commits a change only once that movement is reported done.

pub mod errors;
pub mod rewards;
pub mod ledger;
pub mod laws;
pub mod contract;
