//! Accounting core of a token staking protocol.
//!
//! A single fungible token is minted under a derived mint authority, a
//! custodial pool account (owned by a derived pool authority) holds all
//! currently staked funds, and a per-user stake ledger records how much
//! each user has deposited and not yet withdrawn.  The operations —
//! mint setup, pool setup, airdrop, stake, unstake — are verified to
//! preserve conservation of supply: the sum of all token account
//! balances always equals the total minted supply, and the pool balance
//! always equals the sum of all staked amounts.

pub mod authority;
pub mod errors;
pub mod ledger;
pub mod staking;
