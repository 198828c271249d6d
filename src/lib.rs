//! A deterministic state-transition engine over four ledgers: fungible
//! balances, constant-product liquidity pools, proposals with votes, and a
//! registry of verified accounts. Every operation either applies in full and
//! yields a record, or fails with an `Error` and leaves the state unchanged.
pub mod error;
pub mod origin;
pub mod store;
pub mod community_token;
pub mod amm;
pub mod governance;
pub mod kyc;
pub mod runtime;

pub use error::Error;
pub use origin::{AccountId, Origin};
