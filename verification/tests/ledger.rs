use token_staking::errors::LedgerError;
use token_staking::ledger::{MintToAccounts, TokenLedger, TransferAccounts};

fn mint_ix(to: usize, authority: u64) -> MintToAccounts {
    MintToAccounts { to, authority }
}

fn transfer_ix(from: usize, to: usize, authority: u64) -> TransferAccounts {
    TransferAccounts { from, to, authority }
}

#[test]
fn create_mint_twice_fails() {
    let mut l = TokenLedger::new();
    assert_eq!(l.create_mint(9, 6), Ok(()));
    assert_eq!(l.create_mint(9, 6), Err(LedgerError::AlreadyExists));
    assert_eq!(l.mint.unwrap().authority, 9);
    assert_eq!(l.mint.unwrap().decimals, 6);
}

#[test]
fn create_account_requires_mint() {
    let mut l = TokenLedger::new();
    assert_eq!(l.create_account(1), Err(LedgerError::MintNotFound));
    l.create_mint(9, 6).unwrap();
    assert_eq!(l.create_account(1), Ok(0));
    assert_eq!(l.create_account(2), Ok(1));
    assert_eq!(l.balance_of(0), Some(0));
    assert_eq!(l.balance_of(1), Some(0));
    assert_eq!(l.balance_of(2), None);
}

#[test]
fn mint_to_checks_authority_and_overflow() {
    let mut l = TokenLedger::new();
    l.create_mint(9, 6).unwrap();
    let a = l.create_account(1).unwrap();
    assert_eq!(l.mint_to(mint_ix(a, 8), 5), Err(LedgerError::Unauthorized));
    assert_eq!(l.mint_to(mint_ix(7, 9), 5), Err(LedgerError::AccountNotFound));
    assert_eq!(l.mint_to(mint_ix(a, 9), u64::MAX), Ok(()));
    assert_eq!(l.mint_to(mint_ix(a, 9), 1), Err(LedgerError::Overflow));
    assert_eq!(l.total_supply(), u64::MAX);
    assert_eq!(l.balance_of(a), Some(u64::MAX));
}

#[test]
fn mint_to_before_mint_fails() {
    let mut l = TokenLedger::new();
    assert_eq!(l.mint_to(mint_ix(0, 9), 5), Err(LedgerError::MintNotFound));
}

#[test]
fn transfer_moves_funds_between_accounts() {
    let mut l = TokenLedger::new();
    l.create_mint(9, 6).unwrap();
    let a = l.create_account(1).unwrap();
    let b = l.create_account(2).unwrap();
    l.mint_to(mint_ix(a, 9), 100).unwrap();
    assert_eq!(l.transfer(transfer_ix(a, b, 1), 40), Ok(()));
    assert_eq!(l.balance_of(a), Some(60));
    assert_eq!(l.balance_of(b), Some(40));
    assert_eq!(l.total_supply(), 100);
}

#[test]
fn transfer_checks_owner_funds_and_accounts() {
    let mut l = TokenLedger::new();
    l.create_mint(9, 6).unwrap();
    let a = l.create_account(1).unwrap();
    let b = l.create_account(2).unwrap();
    l.mint_to(mint_ix(a, 9), 100).unwrap();
    assert_eq!(
        l.transfer(transfer_ix(a, b, 2), 40),
        Err(LedgerError::Unauthorized)
    );
    assert_eq!(
        l.transfer(transfer_ix(a, b, 1), 101),
        Err(LedgerError::InsufficientFunds)
    );
    assert_eq!(
        l.transfer(transfer_ix(a, 9, 1), 1),
        Err(LedgerError::AccountNotFound)
    );
    assert_eq!(
        l.transfer(transfer_ix(9, b, 1), 1),
        Err(LedgerError::AccountNotFound)
    );
    assert_eq!(l.balance_of(a), Some(100));
    assert_eq!(l.balance_of(b), Some(0));
}

#[test]
fn transfer_to_self_changes_nothing() {
    let mut l = TokenLedger::new();
    l.create_mint(9, 6).unwrap();
    let a = l.create_account(1).unwrap();
    l.mint_to(mint_ix(a, 9), 100).unwrap();
    assert_eq!(l.transfer(transfer_ix(a, a, 1), 60), Ok(()));
    assert_eq!(l.balance_of(a), Some(100));
}
