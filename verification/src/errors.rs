use vstd::prelude::*;

verus! {

/// Failures signaled by the token ledger itself, the collaborator that
/// holds the mint record and all token account balances.
#[derive(Clone, Copy, Debug, PartialEq, Eq, Structural)]
pub enum LedgerError {
    /// A one-time record (the mint) was created twice.
    AlreadyExists,
    /// An operation needs the mint record, and it does not exist yet.
    MintNotFound,
    /// A supplied account identifier names no account.
    AccountNotFound,
    /// The presented authority does not control the funds it tries to move.
    Unauthorized,
    /// A transfer asks for more than the source account holds.
    InsufficientFunds,
    /// Minting the requested amount would overflow the total supply.
    Overflow,
}

/// Failures of the staking protocol's own operations.
#[derive(Clone, Copy, Debug, PartialEq, Eq, Structural)]
pub enum StakeError {
    /// A one-time setup operation (mint setup, pool setup) was re-run.
    AlreadyInitialized,
    /// The mint must exist before this operation can run.
    MintNotFound,
    /// The pool token account must exist before this operation can run.
    PoolNotFound,
    /// No stake ledger entry exists for the user.
    LedgerNotFound,
    /// A supplied derived-authority identifier or disambiguation value
    /// does not reproduce the expected derivation.
    InvalidAuthority,
    /// The presented authority does not control the funds it tries to move.
    Unauthorized,
    /// A supplied account identifier names no account.
    AccountNotFound,
    /// The user's liquid balance is below the requested stake amount.
    InsufficientFunds,
    /// The requested unstake amount exceeds the user's staked balance.
    ExceedsStakedBalance,
    /// The operation would overflow a balance or the total supply.
    Overflow,
}

/// How a ledger-level failure surfaces from a protocol operation.
pub open spec fn spec_from_ledger(e: LedgerError) -> StakeError {
    match e {
        LedgerError::AlreadyExists => StakeError::AlreadyInitialized,
        LedgerError::MintNotFound => StakeError::MintNotFound,
        LedgerError::AccountNotFound => StakeError::AccountNotFound,
        LedgerError::Unauthorized => StakeError::Unauthorized,
        LedgerError::InsufficientFunds => StakeError::InsufficientFunds,
        LedgerError::Overflow => StakeError::Overflow,
    }
}

/// Map a ledger failure to the corresponding protocol failure.
pub fn from_ledger(e: LedgerError) -> (r: StakeError)
    ensures
        r == spec_from_ledger(e),
{
    match e {
        LedgerError::AlreadyExists => StakeError::AlreadyInitialized,
        LedgerError::MintNotFound => StakeError::MintNotFound,
        LedgerError::AccountNotFound => StakeError::AccountNotFound,
        LedgerError::Unauthorized => StakeError::Unauthorized,
        LedgerError::InsufficientFunds => StakeError::InsufficientFunds,
        LedgerError::Overflow => StakeError::Overflow,
    }
}

} // verus!
