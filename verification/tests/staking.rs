use token_staking::authority::{derive_authority, AuthorityLabel};
use token_staking::errors::StakeError;
use token_staking::staking::{
    DistributeAirdrop, PerformStake, PerformUnstake, SetupMint, SetupPool, StakingProtocol,
};

const PROTOCOL_ID: u64 = 7;

fn mint_setup_ctx() -> SetupMint {
    let ma = derive_authority(AuthorityLabel::MintAuthority, PROTOCOL_ID);
    SetupMint { mint_authority: ma.id, mint_authority_bump: ma.bump }
}

fn pool_setup_ctx() -> SetupPool {
    let pa = derive_authority(AuthorityLabel::PoolAuthority, PROTOCOL_ID);
    SetupPool { pool_authority: pa.id, pool_authority_bump: pa.bump }
}

fn airdrop_ctx(user: u64) -> DistributeAirdrop {
    let ma = derive_authority(AuthorityLabel::MintAuthority, PROTOCOL_ID);
    DistributeAirdrop {
        user_authority: user,
        mint_authority: ma.id,
        mint_authority_bump: ma.bump,
    }
}

fn stake_ctx(user: u64, wallet: usize) -> PerformStake {
    let pa = derive_authority(AuthorityLabel::PoolAuthority, PROTOCOL_ID);
    PerformStake {
        user_authority: user,
        user_wallet_account: wallet,
        pool_wallet_account: 0,
        pool_authority: pa.id,
    }
}

fn unstake_ctx(user: u64, wallet: usize) -> PerformUnstake {
    let pa = derive_authority(AuthorityLabel::PoolAuthority, PROTOCOL_ID);
    PerformUnstake {
        user_authority: user,
        user_wallet_account: wallet,
        pool_wallet_account: 0,
        pool_authority: pa.id,
        pool_authority_bump: pa.bump,
    }
}

/// A protocol with mint (6 decimals) and pool set up; the pool is account 0.
fn ready_protocol() -> StakingProtocol {
    let mut p = StakingProtocol::new(PROTOCOL_ID);
    p.setup_mint(mint_setup_ctx(), 6).unwrap();
    p.setup_pool(pool_setup_ctx()).unwrap();
    p
}

fn sum_of_balances(p: &StakingProtocol) -> u64 {
    p.ledger.accounts.iter().map(|a| a.balance).sum()
}

#[test]
fn scenario_airdrop_stake_unstake() {
    let mut p = ready_protocol();
    let wallet = p.distribute_airdrop(airdrop_ctx(42), 1_000_000).unwrap();
    assert_eq!(p.ledger.balance_of(wallet), Some(1_000_000));
    assert_eq!(p.ledger.total_supply(), 1_000_000);

    assert_eq!(p.perform_stake(stake_ctx(42, wallet), 400_000), Ok(()));
    assert_eq!(p.ledger.balance_of(wallet), Some(600_000));
    assert_eq!(p.get_staked(42), 400_000);
    assert_eq!(p.pool_balance(), Some(400_000));

    assert_eq!(
        p.perform_unstake(unstake_ctx(42, wallet), 500_000),
        Err(StakeError::ExceedsStakedBalance)
    );
    assert_eq!(p.ledger.balance_of(wallet), Some(600_000));
    assert_eq!(p.get_staked(42), 400_000);
    assert_eq!(p.pool_balance(), Some(400_000));

    assert_eq!(p.perform_unstake(unstake_ctx(42, wallet), 400_000), Ok(()));
    assert_eq!(p.ledger.balance_of(wallet), Some(1_000_000));
    assert_eq!(p.get_staked(42), 0);
    assert_eq!(p.pool_balance(), Some(0));
    assert_eq!(p.ledger.total_supply(), 1_000_000);
}

#[test]
fn setup_mint_twice_fails_and_preserves_state() {
    let mut p = StakingProtocol::new(PROTOCOL_ID);
    assert_eq!(p.setup_mint(mint_setup_ctx(), 6), Ok(()));
    let mint_before = p.ledger.mint;
    assert_eq!(p.setup_mint(mint_setup_ctx(), 9), Err(StakeError::AlreadyInitialized));
    assert_eq!(p.ledger.mint, mint_before);
    assert_eq!(p.ledger.mint.unwrap().decimals, 6);
}

#[test]
fn setup_mint_with_wrong_authority_fails() {
    let mut p = StakingProtocol::new(PROTOCOL_ID);
    let mut ctx = mint_setup_ctx();
    ctx.mint_authority_bump = ctx.mint_authority_bump.wrapping_add(1);
    assert_eq!(p.setup_mint(ctx, 6), Err(StakeError::InvalidAuthority));
    assert_eq!(p.ledger.mint, None);
}

#[test]
fn setup_pool_with_wrong_authority_fails() {
    let mut p = StakingProtocol::new(PROTOCOL_ID);
    p.setup_mint(mint_setup_ctx(), 6).unwrap();
    let mut ctx = pool_setup_ctx();
    ctx.pool_authority = ctx.pool_authority.wrapping_add(1);
    assert_eq!(p.setup_pool(ctx), Err(StakeError::InvalidAuthority));
    assert_eq!(p.pool_token_account, None);
}

#[test]
fn setup_pool_before_mint_fails() {
    let mut p = StakingProtocol::new(PROTOCOL_ID);
    assert_eq!(p.setup_pool(pool_setup_ctx()), Err(StakeError::MintNotFound));
    assert_eq!(p.pool_token_account, None);
}

#[test]
fn setup_pool_twice_fails() {
    let mut p = ready_protocol();
    assert_eq!(p.setup_pool(pool_setup_ctx()), Err(StakeError::AlreadyInitialized));
}

#[test]
fn airdrop_before_mint_fails() {
    let mut p = StakingProtocol::new(PROTOCOL_ID);
    assert_eq!(
        p.distribute_airdrop(airdrop_ctx(42), 5),
        Err(StakeError::MintNotFound)
    );
}

#[test]
fn airdrop_with_wrong_bump_fails() {
    let mut p = ready_protocol();
    let mut ctx = airdrop_ctx(42);
    ctx.mint_authority_bump = ctx.mint_authority_bump.wrapping_add(1);
    assert_eq!(
        p.distribute_airdrop(ctx, 5),
        Err(StakeError::InvalidAuthority)
    );
    assert_eq!(p.ledger.total_supply(), 0);
}

#[test]
fn airdrop_with_wrong_authority_fails() {
    let mut p = ready_protocol();
    let mut ctx = airdrop_ctx(42);
    ctx.mint_authority = ctx.mint_authority.wrapping_add(1);
    assert_eq!(
        p.distribute_airdrop(ctx, 5),
        Err(StakeError::InvalidAuthority)
    );
}

#[test]
fn airdrop_overflow_fails_and_preserves_state() {
    let mut p = ready_protocol();
    let w = p.distribute_airdrop(airdrop_ctx(42), u64::MAX - 10).unwrap();
    let accounts_before = p.ledger.accounts.clone();
    assert_eq!(
        p.distribute_airdrop(airdrop_ctx(43), 11),
        Err(StakeError::Overflow)
    );
    assert_eq!(p.ledger.accounts, accounts_before);
    assert_eq!(p.ledger.total_supply(), u64::MAX - 10);
    assert_eq!(p.ledger.balance_of(w), Some(u64::MAX - 10));
}

#[test]
fn stake_before_pool_fails() {
    let mut p = StakingProtocol::new(PROTOCOL_ID);
    p.setup_mint(mint_setup_ctx(), 6).unwrap();
    assert_eq!(
        p.perform_stake(stake_ctx(42, 0), 5),
        Err(StakeError::PoolNotFound)
    );
}

#[test]
fn stake_with_wrong_pool_authority_fails() {
    let mut p = ready_protocol();
    let wallet = p.distribute_airdrop(airdrop_ctx(42), 100).unwrap();
    let mut ctx = stake_ctx(42, wallet);
    ctx.pool_authority = ctx.pool_authority.wrapping_add(1);
    assert_eq!(p.perform_stake(ctx, 5), Err(StakeError::InvalidAuthority));
}

#[test]
fn stake_impersonating_pool_authority_fails() {
    let mut p = ready_protocol();
    let pa = derive_authority(AuthorityLabel::PoolAuthority, PROTOCOL_ID);
    // The "user" claims the derived pool authority identity; no signer
    // can be the derived authority, so the stake is rejected before the
    // pool's funds could be touched as a transfer source.
    let ctx = stake_ctx(pa.id, 0);
    assert_eq!(p.perform_stake(ctx, 5), Err(StakeError::InvalidAuthority));
}

#[test]
fn stake_with_wrong_pool_wallet_fails() {
    let mut p = ready_protocol();
    let wallet = p.distribute_airdrop(airdrop_ctx(42), 100).unwrap();
    let mut ctx = stake_ctx(42, wallet);
    ctx.pool_wallet_account = wallet;
    assert_eq!(p.perform_stake(ctx, 5), Err(StakeError::InvalidAuthority));
}

#[test]
fn stake_with_unknown_wallet_fails() {
    let mut p = ready_protocol();
    assert_eq!(
        p.perform_stake(stake_ctx(42, 99), 5),
        Err(StakeError::AccountNotFound)
    );
}

#[test]
fn stake_with_foreign_wallet_fails() {
    let mut p = ready_protocol();
    let other_wallet = p.distribute_airdrop(airdrop_ctx(43), 100).unwrap();
    assert_eq!(
        p.perform_stake(stake_ctx(42, other_wallet), 5),
        Err(StakeError::Unauthorized)
    );
    assert_eq!(p.ledger.balance_of(other_wallet), Some(100));
}

#[test]
fn stake_beyond_liquid_balance_fails() {
    let mut p = ready_protocol();
    let wallet = p.distribute_airdrop(airdrop_ctx(42), 100).unwrap();
    assert_eq!(
        p.perform_stake(stake_ctx(42, wallet), 101),
        Err(StakeError::InsufficientFunds)
    );
    assert_eq!(p.ledger.balance_of(wallet), Some(100));
    assert_eq!(p.get_staked(42), 0);
}

#[test]
fn stake_accumulates_across_calls() {
    let mut p = ready_protocol();
    let wallet = p.distribute_airdrop(airdrop_ctx(42), 100).unwrap();
    assert_eq!(p.perform_stake(stake_ctx(42, wallet), 30), Ok(()));
    assert_eq!(p.perform_stake(stake_ctx(42, wallet), 20), Ok(()));
    assert_eq!(p.get_staked(42), 50);
    assert_eq!(p.ledger.balance_of(wallet), Some(50));
    assert_eq!(p.pool_balance(), Some(50));
}

#[test]
fn unstake_without_entry_fails() {
    let mut p = ready_protocol();
    let wallet = p.distribute_airdrop(airdrop_ctx(42), 100).unwrap();
    assert_eq!(
        p.perform_unstake(unstake_ctx(42, wallet), 1),
        Err(StakeError::LedgerNotFound)
    );
}

#[test]
fn unstake_with_wrong_bump_fails() {
    let mut p = ready_protocol();
    let wallet = p.distribute_airdrop(airdrop_ctx(42), 100).unwrap();
    p.perform_stake(stake_ctx(42, wallet), 50).unwrap();
    let mut ctx = unstake_ctx(42, wallet);
    ctx.pool_authority_bump = ctx.pool_authority_bump.wrapping_add(1);
    assert_eq!(p.perform_unstake(ctx, 10), Err(StakeError::InvalidAuthority));
    assert_eq!(p.get_staked(42), 50);
}

#[test]
fn unstake_to_zero_keeps_entry() {
    let mut p = ready_protocol();
    let wallet = p.distribute_airdrop(airdrop_ctx(42), 100).unwrap();
    p.perform_stake(stake_ctx(42, wallet), 50).unwrap();
    assert_eq!(p.perform_unstake(unstake_ctx(42, wallet), 50), Ok(()));
    // A zero balance is a valid resting state, not a deletion: the next
    // unstake finds the entry and fails on the bound, not on existence.
    assert_eq!(
        p.perform_unstake(unstake_ctx(42, wallet), 1),
        Err(StakeError::ExceedsStakedBalance)
    );
    assert_eq!(p.get_staked(42), 0);
}

#[test]
fn stake_then_unstake_restores_state() {
    let mut p = ready_protocol();
    let wallet = p.distribute_airdrop(airdrop_ctx(42), 1_000).unwrap();
    p.perform_stake(stake_ctx(42, wallet), 250).unwrap();
    let accounts_before = p.ledger.accounts.clone();
    let staked_before = p.get_staked(42);
    p.perform_stake(stake_ctx(42, wallet), 600).unwrap();
    assert_eq!(p.perform_unstake(unstake_ctx(42, wallet), 600), Ok(()));
    assert_eq!(p.ledger.accounts, accounts_before);
    assert_eq!(p.get_staked(42), staked_before);
}

#[test]
fn users_have_independent_entries() {
    let mut p = ready_protocol();
    let wa = p.distribute_airdrop(airdrop_ctx(1), 100).unwrap();
    let wb = p.distribute_airdrop(airdrop_ctx(2), 200).unwrap();
    p.perform_stake(stake_ctx(1, wa), 10).unwrap();
    p.perform_stake(stake_ctx(2, wb), 20).unwrap();
    assert_eq!(p.get_staked(1), 10);
    assert_eq!(p.get_staked(2), 20);
    assert_eq!(p.perform_unstake(unstake_ctx(1, wa), 10), Ok(()));
    assert_eq!(p.get_staked(1), 0);
    assert_eq!(p.get_staked(2), 20);
    assert_eq!(p.pool_balance(), Some(20));
}

#[test]
fn conservation_holds_through_operations() {
    let mut p = ready_protocol();
    assert_eq!(sum_of_balances(&p), p.ledger.total_supply());
    let wa = p.distribute_airdrop(airdrop_ctx(1), 500).unwrap();
    let wb = p.distribute_airdrop(airdrop_ctx(2), 700).unwrap();
    assert_eq!(sum_of_balances(&p), p.ledger.total_supply());
    p.perform_stake(stake_ctx(1, wa), 300).unwrap();
    p.perform_stake(stake_ctx(2, wb), 100).unwrap();
    assert_eq!(sum_of_balances(&p), p.ledger.total_supply());
    assert_eq!(p.pool_balance(), Some(p.get_staked(1) + p.get_staked(2)));
    p.perform_unstake(unstake_ctx(1, wa), 150).unwrap();
    assert_eq!(sum_of_balances(&p), p.ledger.total_supply());
    assert_eq!(p.pool_balance(), Some(p.get_staked(1) + p.get_staked(2)));
    assert_eq!(p.ledger.total_supply(), 1200);
}

#[test]
fn airdrop_of_zero_is_allowed() {
    // Deliberate policy gap of the base design: no minimum amount and no
    // allow-list; any caller may request an airdrop for themselves.
    let mut p = ready_protocol();
    let wallet = p.distribute_airdrop(airdrop_ctx(42), 0).unwrap();
    assert_eq!(p.ledger.balance_of(wallet), Some(0));
    assert_eq!(p.ledger.total_supply(), 0);
}
