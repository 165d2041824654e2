use vstd::prelude::*;
use crate::authority::{
    derive_authority, spec_authority_bump, spec_authority_id, AuthorityLabel,
};
use crate::errors::{from_ledger, StakeError};
use crate::ledger::{
    lemma_sum_balances_remove, lemma_two_balances_le_sum, sum_balances, MintRecord,
    MintToAccounts, TokenAccount, TokenLedger, TransferAccounts,
};

verus! {

/// A stake ledger entry: the cumulative amount a user has deposited
/// into the pool and not yet withdrawn.
#[derive(Clone, Copy, Debug, PartialEq, Eq, Structural)]
pub struct UserData {
    pub staked_tokens: u64,
}

/// A stake ledger record, scoped per user.  The entry identifier is
/// derived from the user identity, so users never collide on a shared
/// entry.
#[derive(Clone, Copy, Debug, PartialEq, Eq, Structural)]
pub struct StakeEntry {
    pub user: u64,
    pub data: UserData,
}

/// Sum of all staked amounts in a stake ledger.
pub open spec fn sum_staked(s: Seq<StakeEntry>) -> int
    decreases s.len(),
{
    if s.len() == 0 {
        0
    } else {
        sum_staked(s.drop_last()) + s.last().data.staked_tokens
    }
}

/// Whether the stake ledger holds an entry for `user`.
pub open spec fn has_entry(s: Seq<StakeEntry>, user: u64) -> bool {
    exists|i: int| 0 <= i < s.len() && s[i].user == user
}

/// The staked amount recorded for `user`, zero if no entry exists.
pub open spec fn staked_of(s: Seq<StakeEntry>, user: u64) -> int
    decreases s.len(),
{
    if s.len() == 0 {
        0
    } else if s.last().user == user {
        s.last().data.staked_tokens as int
    } else {
        staked_of(s.drop_last(), user)
    }
}

/// No two stake ledger entries belong to the same user.
pub open spec fn entries_unique(s: Seq<StakeEntry>) -> bool {
    forall|i: int, j: int| 0 <= i < j < s.len() ==> s[i].user != s[j].user
}

pub proof fn lemma_staked_of_nonneg(s: Seq<StakeEntry>, user: u64)
    ensures
        staked_of(s, user) >= 0,
    decreases s.len(),
{
    if s.len() > 0 && s.last().user != user {
        lemma_staked_of_nonneg(s.drop_last(), user);
    }
}

pub proof fn lemma_sum_staked_nonneg(s: Seq<StakeEntry>)
    ensures
        sum_staked(s) >= 0,
    decreases s.len(),
{
    if s.len() > 0 {
        lemma_sum_staked_nonneg(s.drop_last());
    }
}

pub proof fn lemma_sum_staked_push(s: Seq<StakeEntry>, e: StakeEntry)
    ensures
        sum_staked(s.push(e)) == sum_staked(s) + e.data.staked_tokens,
{
    assert(s.push(e).drop_last() =~= s);
}

pub proof fn lemma_sum_staked_update(s: Seq<StakeEntry>, i: int, e: StakeEntry)
    requires
        0 <= i < s.len(),
    ensures
        sum_staked(s.update(i, e)) == sum_staked(s) - s[i].data.staked_tokens
            + e.data.staked_tokens,
    decreases s.len(),
{
    if i == s.len() - 1 {
        assert(s.update(i, e).drop_last() =~= s.drop_last());
    } else {
        assert(s.update(i, e).drop_last() =~= s.drop_last().update(i, e));
        lemma_sum_staked_update(s.drop_last(), i, e);
    }
}

/// A single entry's staked amount is bounded by the sum of all of them.
pub proof fn lemma_entry_le_sum_staked(s: Seq<StakeEntry>, i: int)
    requires
        0 <= i < s.len(),
    ensures
        s[i].data.staked_tokens <= sum_staked(s),
    decreases s.len(),
{
    if i == s.len() - 1 {
        lemma_sum_staked_nonneg(s.drop_last());
    } else {
        lemma_entry_le_sum_staked(s.drop_last(), i);
    }
}

/// Under uniqueness, the entry at index `i` is the one `staked_of` reads.
pub proof fn lemma_staked_of_index(s: Seq<StakeEntry>, i: int)
    requires
        entries_unique(s),
        0 <= i < s.len(),
    ensures
        staked_of(s, s[i].user) == s[i].data.staked_tokens as int,
    decreases s.len(),
{
    if i < s.len() - 1 {
        assert(entries_unique(s.drop_last()));
        lemma_staked_of_index(s.drop_last(), i);
    }
}

/// With no entry for `user`, the recorded staked amount is zero.
pub proof fn lemma_staked_of_absent(s: Seq<StakeEntry>, user: u64)
    requires
        !has_entry(s, user),
    ensures
        staked_of(s, user) == 0,
    decreases s.len(),
{
    if s.len() > 0 {
        assert(s[s.len() - 1].user != user);
        assert(forall|i: int| 0 <= i < s.len() - 1 ==> s.drop_last()[i] == s[i]);
        lemma_staked_of_absent(s.drop_last(), user);
    }
}

/// Replacing the entry at `i` with one for the same user changes only
/// that user's recorded amount.
pub proof fn lemma_staked_of_update(s: Seq<StakeEntry>, i: int, e: StakeEntry, u: u64)
    requires
        0 <= i < s.len(),
        e.user == s[i].user,
        u != e.user,
    ensures
        staked_of(s.update(i, e), u) == staked_of(s, u),
    decreases s.len(),
{
    if i == s.len() - 1 {
        assert(s.update(i, e).drop_last() =~= s.drop_last());
    } else {
        assert(s.update(i, e).drop_last() =~= s.drop_last().update(i, e));
        lemma_staked_of_update(s.drop_last(), i, e, u);
    }
}

/// Appending an entry changes only the appended user's recorded amount.
pub proof fn lemma_staked_of_push(s: Seq<StakeEntry>, e: StakeEntry, u: u64)
    requires
        u != e.user,
    ensures
        staked_of(s.push(e), u) == staked_of(s, u),
{
    assert(s.push(e).drop_last() =~= s);
}

/// Replacing the entry at `i` with one for the same user leaves entry
/// existence unchanged for every user.
pub proof fn lemma_has_entry_update_same_user(s: Seq<StakeEntry>, i: int, e: StakeEntry)
    requires
        0 <= i < s.len(),
        e.user == s[i].user,
    ensures
        forall|u: u64| has_entry(s.update(i, e), u) <==> has_entry(s, u),
{
    let s2 = s.update(i, e);
    assert forall|u: u64| has_entry(s2, u) <==> has_entry(s, u) by {
        if has_entry(s, u) {
            let k = choose|k: int| 0 <= k < s.len() && s[k].user == u;
            assert(s2[k].user == u);
        }
        if has_entry(s2, u) {
            let k = choose|k: int| 0 <= k < s2.len() && s2[k].user == u;
            assert(s[k].user == u);
        }
    }
}

/// Appending an entry adds exactly its user to the set of entries.
pub proof fn lemma_has_entry_push(s: Seq<StakeEntry>, e: StakeEntry)
    ensures
        forall|u: u64| has_entry(s.push(e), u) <==> (has_entry(s, u) || u == e.user),
{
    let s2 = s.push(e);
    assert forall|u: u64| has_entry(s2, u) <==> (has_entry(s, u) || u == e.user) by {
        if has_entry(s, u) {
            let k = choose|k: int| 0 <= k < s.len() && s[k].user == u;
            assert(s2[k].user == u);
        }
        if u == e.user {
            assert(s2[s.len() as int].user == u);
        }
        if has_entry(s2, u) {
            let k = choose|k: int| 0 <= k < s2.len() && s2[k].user == u;
            if k < s.len() {
                assert(s[k].user == u);
            }
        }
    }
}

/// Uniqueness survives replacing an entry with one for the same user.
pub proof fn lemma_unique_update_same_user(s: Seq<StakeEntry>, i: int, e: StakeEntry)
    requires
        entries_unique(s),
        0 <= i < s.len(),
        e.user == s[i].user,
    ensures
        entries_unique(s.update(i, e)),
{
}

/// Uniqueness survives appending an entry for a user with no entry yet.
pub proof fn lemma_unique_push_new(s: Seq<StakeEntry>, e: StakeEntry)
    requires
        entries_unique(s),
        !has_entry(s, e.user),
    ensures
        entries_unique(s.push(e)),
{
    let s2 = s.push(e);
    assert forall|i: int, j: int| 0 <= i < j < s2.len() implies s2[i].user != s2[j].user by {
        if j == s.len() {
            assert(s[i].user != e.user);
        }
    }
}

/// Look up the index of the stake ledger entry for `user`, if any.
pub fn find_entry(entries: &Vec<StakeEntry>, user: u64) -> (r: Option<usize>)
    ensures
        match r {
            Some(i) => i < entries@.len() && entries@[i as int].user == user,
            None => !has_entry(entries@, user),
        },
{
    let mut i: usize = 0;
    while i < entries.len()
        invariant
            i <= entries@.len(),
            forall|j: int| 0 <= j < i ==> entries@[j].user != user,
        decreases entries@.len() - i,
    {
        if entries[i].user == user {
            return Some(i);
        }
        i = i + 1;
    }
    None
}

/// The account set a mint setup touches: the mint authority the caller
/// presents, with its disambiguation value.  The mint record itself is
/// created by the operation.
#[derive(Clone, Copy, Debug, PartialEq, Eq, Structural)]
pub struct SetupMint {
    pub mint_authority: u64,
    pub mint_authority_bump: u8,
}

/// The account set a pool setup touches: the pool authority the caller
/// presents, with its disambiguation value.  The pool token account
/// itself is created by the operation.
#[derive(Clone, Copy, Debug, PartialEq, Eq, Structural)]
pub struct SetupPool {
    pub pool_authority: u64,
    pub pool_authority_bump: u8,
}

/// The account set an airdrop touches: the recipient (the transaction's
/// signer) and the mint authority it presents, with its disambiguation
/// value.
#[derive(Clone, Copy, Debug, PartialEq, Eq, Structural)]
pub struct DistributeAirdrop {
    pub user_authority: u64,
    pub mint_authority: u64,
    pub mint_authority_bump: u8,
}

impl DistributeAirdrop {
    /// Assemble the mint instruction: mint into the recipient's wallet,
    /// authorized by the presented mint authority.
    pub fn mint_context(&self, user_wallet_account: usize) -> (r: MintToAccounts)
        ensures
            r == (MintToAccounts { to: user_wallet_account, authority: self.mint_authority }),
    {
        MintToAccounts { to: user_wallet_account, authority: self.mint_authority }
    }
}

/// The account set a stake operation touches: the user (signer), the
/// user's liquid wallet, the pool token account, and the pool authority
/// the caller presents.
#[derive(Clone, Copy, Debug, PartialEq, Eq, Structural)]
pub struct PerformStake {
    pub user_authority: u64,
    pub user_wallet_account: usize,
    pub pool_wallet_account: usize,
    pub pool_authority: u64,
}

/// The account set an unstake operation touches: as for staking, plus
/// the pool authority's disambiguation value, since the withdrawal is
/// authorized by the derived pool authority rather than by the user.
#[derive(Clone, Copy, Debug, PartialEq, Eq, Structural)]
pub struct PerformUnstake {
    pub user_authority: u64,
    pub user_wallet_account: usize,
    pub pool_wallet_account: usize,
    pub pool_authority: u64,
    pub pool_authority_bump: u8,
}

impl PerformUnstake {
    /// Assemble the withdrawal transfer: pool to user wallet, authorized
    /// by the presented pool authority.
    pub fn unstake_context(&self) -> (r: TransferAccounts)
        ensures
            r == (TransferAccounts {
                from: self.pool_wallet_account,
                to: self.user_wallet_account,
                authority: self.pool_authority,
            }),
    {
        TransferAccounts {
            from: self.pool_wallet_account,
            to: self.user_wallet_account,
            authority: self.pool_authority,
        }
    }
}

/// The staking protocol state: its own identity (from which authorities
/// are derived), the token ledger, the custodial pool account once
/// created, and the per-user stake ledger.
#[derive(Clone, Debug)]
pub struct StakingProtocol {
    pub protocol_id: u64,
    pub ledger: TokenLedger,
    pub pool_token_account: Option<usize>,
    pub stake_entries: Vec<StakeEntry>,
}

impl StakingProtocol {
    /// The pool token account's index, meaningful once the pool exists.
    pub open spec fn pool_idx(self) -> int
        recommends
            self.pool_token_account is Some,
    {
        self.pool_token_account->0 as int
    }

    /// The derived mint authority identifier of this protocol instance.
    pub open spec fn mint_authority_id(self) -> u64 {
        spec_authority_id(AuthorityLabel::MintAuthority, self.protocol_id)
    }

    /// The derived pool authority identifier of this protocol instance.
    pub open spec fn pool_authority_id(self) -> u64 {
        spec_authority_id(AuthorityLabel::PoolAuthority, self.protocol_id)
    }

    /// The balance of the pool token account.
    pub open spec fn spec_pool_balance(self) -> int
        recommends
            self.pool_token_account is Some,
            self.pool_idx() < self.ledger.accounts@.len(),
    {
        self.ledger.accounts@[self.pool_idx()].balance as int
    }

    /// Well-formedness, preserved by every operation:
    /// - the ledger conserves supply (balances sum to the minted total);
    /// - the mint, once created, is controlled by the derived mint
    ///   authority;
    /// - the pool account, once created, exists, is controlled by the
    ///   derived pool authority, and its balance equals the sum of all
    ///   staked amounts;
    /// - the stake ledger has one entry per user, and none before the
    ///   pool exists.
    pub open spec fn wf(self) -> bool {
        &&& self.ledger.wf()
        &&& (self.ledger.mint matches Some(m) ==> m.authority == self.mint_authority_id())
        &&& (self.pool_token_account is Some ==> {
            &&& self.ledger.mint is Some
            &&& 0 <= self.pool_idx() < self.ledger.accounts@.len()
            &&& self.ledger.accounts@[self.pool_idx()].owner == self.pool_authority_id()
            &&& sum_staked(self.stake_entries@) == self.spec_pool_balance()
        })
        &&& (self.pool_token_account is None ==> self.stake_entries@.len() == 0)
        &&& entries_unique(self.stake_entries@)
    }

    /// A fresh protocol instance: empty ledger, no mint, no pool, no
    /// stake entries.
    pub fn new(protocol_id: u64) -> (p: StakingProtocol)
        ensures
            p.wf(),
            p.protocol_id == protocol_id,
            p.ledger.mint is None,
            p.ledger.accounts@.len() == 0,
            p.ledger.supply == 0,
            p.pool_token_account is None,
            p.stake_entries@.len() == 0,
    {
        StakingProtocol {
            protocol_id,
            ledger: TokenLedger::new(),
            pool_token_account: None,
            stake_entries: Vec::new(),
        }
    }

    /// Whether a presented mint authority reproduces the derivation.
    pub open spec fn mint_authority_ok(self, id: u64, bump: u8) -> bool {
        &&& id == self.mint_authority_id()
        &&& bump == spec_authority_bump(AuthorityLabel::MintAuthority, self.protocol_id)
    }

    /// Whether a presented pool authority reproduces the derivation.
    pub open spec fn pool_authority_ok(self, id: u64, bump: u8) -> bool {
        &&& id == self.pool_authority_id()
        &&& bump == spec_authority_bump(AuthorityLabel::PoolAuthority, self.protocol_id)
    }

    /// One-time creation of the mint under the derived mint authority,
    /// which the caller must present together with its disambiguation
    /// value (`InvalidAuthority` on any mismatch).  Re-invocation fails
    /// with `AlreadyInitialized` and leaves the first mint's state —
    /// and everything else — unchanged.
    pub fn setup_mint(&mut self, ctx: SetupMint, token_decimals: u8) -> (r: Result<
        (),
        StakeError,
    >)
        requires
            old(self).wf(),
        ensures
            final(self).wf(),
            final(self).protocol_id == old(self).protocol_id,
            final(self).pool_token_account == old(self).pool_token_account,
            final(self).stake_entries@ == old(self).stake_entries@,
            final(self).ledger.accounts@ == old(self).ledger.accounts@,
            final(self).ledger.supply == old(self).ledger.supply,
            r is Ok <==> (old(self).mint_authority_ok(ctx.mint_authority, ctx.mint_authority_bump)
                && old(self).ledger.mint is None),
            r is Err ==> *final(self) == *old(self),
            !old(self).mint_authority_ok(ctx.mint_authority, ctx.mint_authority_bump) ==> r
                == Result::<(), StakeError>::Err(StakeError::InvalidAuthority),
            old(self).mint_authority_ok(ctx.mint_authority, ctx.mint_authority_bump) && old(
                self,
            ).ledger.mint is Some ==> r == Result::<(), StakeError>::Err(
                StakeError::AlreadyInitialized,
            ),
            r is Ok ==> final(self).ledger.mint == Some(
                MintRecord {
                    authority: old(self).mint_authority_id(),
                    decimals: token_decimals,
                },
            ),
    {
        match crate::authority::verify_authority(
            AuthorityLabel::MintAuthority,
            self.protocol_id,
            ctx.mint_authority,
            ctx.mint_authority_bump,
        ) {
            Ok(()) => (),
            Err(e) => { return Err(e); },
        }
        match self.ledger.create_mint(ctx.mint_authority, token_decimals) {
            Ok(()) => Ok(()),
            Err(e) => Err(from_ledger(e)),
        }
    }

    /// One-time creation of the custodial pool token account, owned by
    /// the derived pool authority, which the caller must present
    /// together with its disambiguation value (`InvalidAuthority` on
    /// any mismatch).  Requires the mint to exist (`MintNotFound`
    /// otherwise); re-invocation fails with `AlreadyInitialized`.
    /// Every failure leaves the state unchanged.
    pub fn setup_pool(&mut self, ctx: SetupPool) -> (r: Result<(), StakeError>)
        requires
            old(self).wf(),
        ensures
            final(self).wf(),
            final(self).protocol_id == old(self).protocol_id,
            final(self).ledger.mint == old(self).ledger.mint,
            final(self).ledger.supply == old(self).ledger.supply,
            final(self).stake_entries@ == old(self).stake_entries@,
            r is Ok <==> (old(self).pool_authority_ok(ctx.pool_authority, ctx.pool_authority_bump)
                && old(self).ledger.mint is Some && old(self).pool_token_account is None),
            r is Err ==> *final(self) == *old(self),
            !old(self).pool_authority_ok(ctx.pool_authority, ctx.pool_authority_bump) ==> r
                == Result::<(), StakeError>::Err(StakeError::InvalidAuthority),
            old(self).pool_authority_ok(ctx.pool_authority, ctx.pool_authority_bump) && old(
                self,
            ).ledger.mint is None ==> r == Result::<(), StakeError>::Err(StakeError::MintNotFound),
            old(self).pool_authority_ok(ctx.pool_authority, ctx.pool_authority_bump) && old(
                self,
            ).ledger.mint is Some && old(self).pool_token_account is Some ==> r == Result::<
                (),
                StakeError,
            >::Err(StakeError::AlreadyInitialized),
            r is Ok ==> {
                &&& final(self).pool_token_account == Some(old(self).ledger.accounts@.len() as usize)
                &&& final(self).ledger.accounts@ == old(self).ledger.accounts@.push(
                    TokenAccount { owner: old(self).pool_authority_id(), balance: 0 },
                )
            },
    {
        match crate::authority::verify_authority(
            AuthorityLabel::PoolAuthority,
            self.protocol_id,
            ctx.pool_authority,
            ctx.pool_authority_bump,
        ) {
            Ok(()) => (),
            Err(e) => { return Err(e); },
        }
        if self.ledger.mint.is_none() {
            return Err(StakeError::MintNotFound);
        }
        if self.pool_token_account.is_some() {
            return Err(StakeError::AlreadyInitialized);
        }
        match self.ledger.create_account(ctx.pool_authority) {
            Ok(id) => {
                self.pool_token_account = Some(id);
                Ok(())
            },
            Err(e) => Err(from_ledger(e)),
        }
    }

    /// Create a fresh token account for the recipient and mint
    /// `token_amount` new tokens into it, authorized by the derived
    /// mint authority, which the caller must present together with its
    /// disambiguation value.  Success is owed exactly when the mint
    /// exists, the presented authority reproduces the derivation, and
    /// the supply does not overflow; on success the returned identifier
    /// names the recipient's new wallet.  Any failure leaves the state
    /// unchanged.
    pub fn distribute_airdrop(&mut self, ctx: DistributeAirdrop, token_amount: u64) -> (r: Result<
        usize,
        StakeError,
    >)
        requires
            old(self).wf(),
        ensures
            final(self).wf(),
            final(self).protocol_id == old(self).protocol_id,
            final(self).pool_token_account == old(self).pool_token_account,
            final(self).stake_entries@ == old(self).stake_entries@,
            final(self).ledger.mint == old(self).ledger.mint,
            r is Ok <==> {
                &&& old(self).ledger.mint is Some
                &&& ctx.mint_authority == old(self).mint_authority_id()
                &&& ctx.mint_authority_bump == spec_authority_bump(
                    AuthorityLabel::MintAuthority,
                    old(self).protocol_id,
                )
                &&& old(self).ledger.supply + token_amount <= u64::MAX
            },
            r is Err ==> *final(self) == *old(self),
            old(self).ledger.mint is None ==> r == Result::<usize, StakeError>::Err(
                StakeError::MintNotFound,
            ),
            old(self).ledger.mint is Some && !(ctx.mint_authority == old(self).mint_authority_id()
                && ctx.mint_authority_bump == spec_authority_bump(
                AuthorityLabel::MintAuthority,
                old(self).protocol_id,
            )) ==> r == Result::<usize, StakeError>::Err(StakeError::InvalidAuthority),
            old(self).ledger.mint is Some && ctx.mint_authority == old(self).mint_authority_id()
                && ctx.mint_authority_bump == spec_authority_bump(
                AuthorityLabel::MintAuthority,
                old(self).protocol_id,
            ) && old(self).ledger.supply + token_amount > u64::MAX ==> r == Result::<
                usize,
                StakeError,
            >::Err(StakeError::Overflow),
            r matches Ok(id) ==> {
                &&& id == old(self).ledger.accounts@.len()
                &&& final(self).ledger.accounts@ == old(self).ledger.accounts@.push(
                    TokenAccount { owner: ctx.user_authority, balance: token_amount },
                )
                &&& final(self).ledger.supply == old(self).ledger.supply + token_amount
            },
    {
        if self.ledger.mint.is_none() {
            return Err(StakeError::MintNotFound);
        }
        match crate::authority::verify_authority(
            AuthorityLabel::MintAuthority,
            self.protocol_id,
            ctx.mint_authority,
            ctx.mint_authority_bump,
        ) {
            Ok(()) => (),
            Err(e) => { return Err(e); },
        }
        if token_amount > u64::MAX - self.ledger.supply {
            return Err(StakeError::Overflow);
        }
        let wallet = match self.ledger.create_account(ctx.user_authority) {
            Ok(id) => id,
            Err(e) => { return Err(from_ledger(e)); },
        };
        let ix = ctx.mint_context(wallet);
        match self.ledger.mint_to(ix, token_amount) {
            Ok(()) => {
                proof {
                    assert(self.ledger.accounts@ =~= old(self).ledger.accounts@.push(
                        TokenAccount { owner: ctx.user_authority, balance: token_amount },
                    ));
                }
                Ok(wallet)
            },
            Err(e) => Err(from_ledger(e)),
        }
    }

    /// All preconditions of a stake: the pool exists, the presented pool
    /// authority is the derived one, the signer does not impersonate it,
    /// the supplied pool wallet is the pool, and the user owns a wallet
    /// whose liquid balance covers the amount.
    pub open spec fn stake_allowed(self, ctx: PerformStake, amount: u64) -> bool {
        &&& self.pool_token_account is Some
        &&& ctx.pool_authority == self.pool_authority_id()
        &&& ctx.user_authority != self.pool_authority_id()
        &&& ctx.pool_wallet_account as int == self.pool_idx()
        &&& ctx.user_wallet_account < self.ledger.accounts@.len()
        &&& self.ledger.accounts@[ctx.user_wallet_account as int].owner == ctx.user_authority
        &&& amount <= self.ledger.accounts@[ctx.user_wallet_account as int].balance
    }

    /// The failure a stake reports: the first check that does not hold.
    pub open spec fn stake_error(self, ctx: PerformStake, amount: u64) -> StakeError {
        if self.pool_token_account is None {
            StakeError::PoolNotFound
        } else if ctx.pool_authority != self.pool_authority_id() {
            StakeError::InvalidAuthority
        } else if ctx.user_authority == self.pool_authority_id() {
            StakeError::InvalidAuthority
        } else if ctx.pool_wallet_account as int != self.pool_idx() {
            StakeError::InvalidAuthority
        } else if ctx.user_wallet_account >= self.ledger.accounts@.len() {
            StakeError::AccountNotFound
        } else if self.ledger.accounts@[ctx.user_wallet_account as int].owner
            != ctx.user_authority {
            StakeError::Unauthorized
        } else {
            StakeError::InsufficientFunds
        }
    }

    /// The effect of a successful stake: `amount` moves from the user's
    /// wallet into the pool, the user's staked amount grows by `amount`,
    /// and nothing else changes — no other account, no other user's
    /// entry, not the supply.
    pub open spec fn stake_applied(
        pre: StakingProtocol,
        post: StakingProtocol,
        ctx: PerformStake,
        amount: u64,
    ) -> bool {
        &&& pre.pool_token_account is Some
        &&& post.protocol_id == pre.protocol_id
        &&& post.pool_token_account == pre.pool_token_account
        &&& post.ledger.mint == pre.ledger.mint
        &&& post.ledger.supply == pre.ledger.supply
        &&& ctx.user_wallet_account < pre.ledger.accounts@.len()
        &&& ctx.user_wallet_account as int != pre.pool_idx()
        &&& amount <= pre.ledger.accounts@[ctx.user_wallet_account as int].balance
        &&& sum_staked(pre.stake_entries@) == pre.spec_pool_balance()
        &&& post.ledger.accounts@ == pre.ledger.accounts@.update(
            ctx.user_wallet_account as int,
            TokenAccount {
                owner: pre.ledger.accounts@[ctx.user_wallet_account as int].owner,
                balance: (pre.ledger.accounts@[ctx.user_wallet_account as int].balance
                    - amount) as u64,
            },
        ).update(
            pre.pool_idx(),
            TokenAccount {
                owner: pre.ledger.accounts@[pre.pool_idx()].owner,
                balance: (pre.ledger.accounts@[pre.pool_idx()].balance + amount) as u64,
            },
        )
        &&& staked_of(post.stake_entries@, ctx.user_authority) == staked_of(
            pre.stake_entries@,
            ctx.user_authority,
        ) + amount
        &&& forall|u: u64|
            u != ctx.user_authority ==> staked_of(post.stake_entries@, u) == staked_of(
                pre.stake_entries@,
                u,
            )
        &&& forall|u: u64|
            has_entry(post.stake_entries@, u) <==> (has_entry(pre.stake_entries@, u) || u
                == ctx.user_authority)
    }

    /// Deposit `stake_amount` from the user's wallet into the pool and
    /// record it in the user's stake ledger entry, creating the entry on
    /// first use.  Success is owed exactly when `stake_allowed` holds;
    /// otherwise the named check's failure is reported and the whole
    /// state is left unchanged — the ledger movement and the stake
    /// record commit together or not at all.
    pub fn perform_stake(&mut self, ctx: PerformStake, stake_amount: u64) -> (r: Result<
        (),
        StakeError,
    >)
        requires
            old(self).wf(),
        ensures
            final(self).wf(),
            r is Ok <==> old(self).stake_allowed(ctx, stake_amount),
            r is Err ==> *final(self) == *old(self) && r == Result::<(), StakeError>::Err(
                old(self).stake_error(ctx, stake_amount),
            ),
            r is Ok ==> StakingProtocol::stake_applied(*old(self), *final(self), ctx, stake_amount),
    {
        let pool = match self.pool_token_account {
            Some(p) => p,
            None => { return Err(StakeError::PoolNotFound); },
        };
        let pool_auth = derive_authority(AuthorityLabel::PoolAuthority, self.protocol_id);
        if ctx.pool_authority != pool_auth.id {
            return Err(StakeError::InvalidAuthority);
        }
        if ctx.user_authority == pool_auth.id {
            return Err(StakeError::InvalidAuthority);
        }
        if ctx.pool_wallet_account != pool {
            return Err(StakeError::InvalidAuthority);
        }
        if ctx.user_wallet_account >= self.ledger.accounts.len() {
            return Err(StakeError::AccountNotFound);
        }
        let wallet_acct = self.ledger.accounts[ctx.user_wallet_account];
        if wallet_acct.owner != ctx.user_authority {
            return Err(StakeError::Unauthorized);
        }
        if wallet_acct.balance < stake_amount {
            return Err(StakeError::InsufficientFunds);
        }
        proof {
            // The wallet cannot be the pool: their owners differ.
            assert(ctx.user_wallet_account as int != self.pool_idx());
            // Wallet and pool balances together fit below the supply.
            lemma_two_balances_le_sum(
                self.ledger.accounts@,
                ctx.user_wallet_account as int,
                self.pool_idx(),
            );
        }
        match find_entry(&self.stake_entries, ctx.user_authority) {
            Some(i) => {
                let e = self.stake_entries[i];
                proof {
                    lemma_entry_le_sum_staked(self.stake_entries@, i as int);
                    lemma_staked_of_index(self.stake_entries@, i as int);
                }
                let updated = StakeEntry {
                    user: e.user,
                    data: UserData { staked_tokens: e.data.staked_tokens + stake_amount },
                };
                self.stake_entries.set(i, updated);
                proof {
                    lemma_sum_staked_update(old(self).stake_entries@, i as int, updated);
                    lemma_unique_update_same_user(old(self).stake_entries@, i as int, updated);
                    lemma_has_entry_update_same_user(old(self).stake_entries@, i as int, updated);
                    lemma_staked_of_index(self.stake_entries@, i as int);
                    assert(has_entry(old(self).stake_entries@, ctx.user_authority));
                    assert forall|u: u64| u != ctx.user_authority implies staked_of(
                        self.stake_entries@,
                        u,
                    ) == staked_of(old(self).stake_entries@, u) by {
                        lemma_staked_of_update(old(self).stake_entries@, i as int, updated, u);
                    }
                }
            },
            None => {
                let e = StakeEntry {
                    user: ctx.user_authority,
                    data: UserData { staked_tokens: stake_amount },
                };
                proof {
                    lemma_staked_of_absent(self.stake_entries@, ctx.user_authority);
                    lemma_sum_staked_push(self.stake_entries@, e);
                    lemma_unique_push_new(self.stake_entries@, e);
                    lemma_has_entry_push(self.stake_entries@, e);
                    assert forall|u: u64| u != ctx.user_authority implies staked_of(
                        self.stake_entries@.push(e),
                        u,
                    ) == staked_of(self.stake_entries@, u) by {
                        lemma_staked_of_push(self.stake_entries@, e, u);
                    }
                }
                self.stake_entries.push(e);
            },
        }
        let ix = TransferAccounts {
            from: ctx.user_wallet_account,
            to: pool,
            authority: ctx.user_authority,
        };
        match self.ledger.transfer(ix, stake_amount) {
            Ok(()) => Ok(()),
            Err(e) => Err(from_ledger(e)),
        }
    }

    /// All preconditions of an unstake: the pool exists, the presented
    /// pool authority and its disambiguation value reproduce the
    /// derivation, the signer does not impersonate it, the supplied
    /// pool wallet is the pool, the user owns the destination wallet,
    /// a stake ledger entry exists, and it covers the amount.
    pub open spec fn unstake_allowed(self, ctx: PerformUnstake, amount: u64) -> bool {
        &&& self.pool_token_account is Some
        &&& ctx.pool_authority == self.pool_authority_id()
        &&& ctx.pool_authority_bump == spec_authority_bump(
            AuthorityLabel::PoolAuthority,
            self.protocol_id,
        )
        &&& ctx.user_authority != self.pool_authority_id()
        &&& ctx.pool_wallet_account as int == self.pool_idx()
        &&& ctx.user_wallet_account < self.ledger.accounts@.len()
        &&& self.ledger.accounts@[ctx.user_wallet_account as int].owner == ctx.user_authority
        &&& has_entry(self.stake_entries@, ctx.user_authority)
        &&& amount <= staked_of(self.stake_entries@, ctx.user_authority)
    }

    /// The failure an unstake reports: the first check that does not
    /// hold.  Over-withdrawal is a failure, not a silent no-op: it
    /// reports `ExceedsStakedBalance`.
    pub open spec fn unstake_error(self, ctx: PerformUnstake, amount: u64) -> StakeError {
        if self.pool_token_account is None {
            StakeError::PoolNotFound
        } else if !(ctx.pool_authority == self.pool_authority_id() && ctx.pool_authority_bump
            == spec_authority_bump(AuthorityLabel::PoolAuthority, self.protocol_id)) {
            StakeError::InvalidAuthority
        } else if ctx.user_authority == self.pool_authority_id() {
            StakeError::InvalidAuthority
        } else if ctx.pool_wallet_account as int != self.pool_idx() {
            StakeError::InvalidAuthority
        } else if ctx.user_wallet_account >= self.ledger.accounts@.len() {
            StakeError::AccountNotFound
        } else if self.ledger.accounts@[ctx.user_wallet_account as int].owner
            != ctx.user_authority {
            StakeError::Unauthorized
        } else if !has_entry(self.stake_entries@, ctx.user_authority) {
            StakeError::LedgerNotFound
        } else {
            StakeError::ExceedsStakedBalance
        }
    }

    /// The effect of a successful unstake: `amount` moves from the pool
    /// back to the user's wallet, the user's staked amount shrinks by
    /// `amount`, and nothing else changes.  The entry stays at zero
    /// after a full withdrawal; it is never deleted.
    pub open spec fn unstake_applied(
        pre: StakingProtocol,
        post: StakingProtocol,
        ctx: PerformUnstake,
        amount: u64,
    ) -> bool {
        &&& pre.pool_token_account is Some
        &&& post.protocol_id == pre.protocol_id
        &&& post.pool_token_account == pre.pool_token_account
        &&& post.ledger.mint == pre.ledger.mint
        &&& post.ledger.supply == pre.ledger.supply
        &&& ctx.user_wallet_account < pre.ledger.accounts@.len()
        &&& ctx.user_wallet_account as int != pre.pool_idx()
        &&& amount <= staked_of(pre.stake_entries@, ctx.user_authority)
        &&& amount <= pre.spec_pool_balance()
        &&& post.ledger.accounts@ == pre.ledger.accounts@.update(
            pre.pool_idx(),
            TokenAccount {
                owner: pre.ledger.accounts@[pre.pool_idx()].owner,
                balance: (pre.ledger.accounts@[pre.pool_idx()].balance - amount) as u64,
            },
        ).update(
            ctx.user_wallet_account as int,
            TokenAccount {
                owner: pre.ledger.accounts@[ctx.user_wallet_account as int].owner,
                balance: (pre.ledger.accounts@[ctx.user_wallet_account as int].balance
                    + amount) as u64,
            },
        )
        &&& staked_of(post.stake_entries@, ctx.user_authority) == staked_of(
            pre.stake_entries@,
            ctx.user_authority,
        ) - amount
        &&& forall|u: u64|
            u != ctx.user_authority ==> staked_of(post.stake_entries@, u) == staked_of(
                pre.stake_entries@,
                u,
            )
        &&& forall|u: u64| has_entry(post.stake_entries@, u) <==> has_entry(pre.stake_entries@, u)
    }

    /// Withdraw `unstake_amount` from the pool back to the user's
    /// wallet, authorized by the re-derived pool authority, and debit
    /// the user's stake ledger entry.  Success is owed exactly when
    /// `unstake_allowed` holds; in particular an amount above the
    /// user's staked balance is rejected with `ExceedsStakedBalance`
    /// and both token balances and the entry are left unchanged.  The
    /// ledger movement and the stake record commit together or not at
    /// all.
    pub fn perform_unstake(&mut self, ctx: PerformUnstake, unstake_amount: u64) -> (r: Result<
        (),
        StakeError,
    >)
        requires
            old(self).wf(),
        ensures
            final(self).wf(),
            r is Ok <==> old(self).unstake_allowed(ctx, unstake_amount),
            r is Err ==> *final(self) == *old(self) && r == Result::<(), StakeError>::Err(
                old(self).unstake_error(ctx, unstake_amount),
            ),
            r is Ok ==> StakingProtocol::unstake_applied(
                *old(self),
                *final(self),
                ctx,
                unstake_amount,
            ),
    {
        let pool = match self.pool_token_account {
            Some(p) => p,
            None => { return Err(StakeError::PoolNotFound); },
        };
        match crate::authority::verify_authority(
            AuthorityLabel::PoolAuthority,
            self.protocol_id,
            ctx.pool_authority,
            ctx.pool_authority_bump,
        ) {
            Ok(()) => (),
            Err(e) => { return Err(e); },
        }
        if ctx.user_authority == ctx.pool_authority {
            return Err(StakeError::InvalidAuthority);
        }
        if ctx.pool_wallet_account != pool {
            return Err(StakeError::InvalidAuthority);
        }
        if ctx.user_wallet_account >= self.ledger.accounts.len() {
            return Err(StakeError::AccountNotFound);
        }
        let wallet_acct = self.ledger.accounts[ctx.user_wallet_account];
        if wallet_acct.owner != ctx.user_authority {
            return Err(StakeError::Unauthorized);
        }
        let i = match find_entry(&self.stake_entries, ctx.user_authority) {
            Some(i) => i,
            None => { return Err(StakeError::LedgerNotFound); },
        };
        let e = self.stake_entries[i];
        proof {
            lemma_staked_of_index(self.stake_entries@, i as int);
        }
        if unstake_amount > e.data.staked_tokens {
            return Err(StakeError::ExceedsStakedBalance);
        }
        proof {
            // The entry is covered by the pool balance.
            lemma_entry_le_sum_staked(self.stake_entries@, i as int);
            // The wallet cannot be the pool: their owners differ.
            assert(ctx.user_wallet_account as int != self.pool_idx());
        }
        let updated = StakeEntry {
            user: e.user,
            data: UserData { staked_tokens: e.data.staked_tokens - unstake_amount },
        };
        self.stake_entries.set(i, updated);
        proof {
            lemma_sum_staked_update(old(self).stake_entries@, i as int, updated);
            lemma_unique_update_same_user(old(self).stake_entries@, i as int, updated);
            lemma_has_entry_update_same_user(old(self).stake_entries@, i as int, updated);
            lemma_staked_of_index(self.stake_entries@, i as int);
            assert forall|u: u64| u != ctx.user_authority implies staked_of(
                self.stake_entries@,
                u,
            ) == staked_of(old(self).stake_entries@, u) by {
                lemma_staked_of_update(old(self).stake_entries@, i as int, updated, u);
            }
        }
        let ix = ctx.unstake_context();
        match self.ledger.transfer(ix, unstake_amount) {
            Ok(()) => Ok(()),
            Err(err) => Err(from_ledger(err)),
        }
    }

    /// Balance query: the user's recorded staked amount, zero if the
    /// user has no stake ledger entry.
    pub fn get_staked(&self, user: u64) -> (r: u64)
        requires
            self.wf(),
        ensures
            r as int == staked_of(self.stake_entries@, user),
    {
        match find_entry(&self.stake_entries, user) {
            Some(i) => {
                proof {
                    lemma_staked_of_index(self.stake_entries@, i as int);
                }
                self.stake_entries[i].data.staked_tokens
            },
            None => {
                proof {
                    lemma_staked_of_absent(self.stake_entries@, user);
                }
                0
            },
        }
    }

    /// Balance query: the pool token account's balance, once the pool
    /// exists.
    pub fn pool_balance(&self) -> (r: Option<u64>)
        requires
            self.wf(),
        ensures
            self.pool_token_account is Some ==> r == Some(
                self.ledger.accounts@[self.pool_idx()].balance,
            ),
            self.pool_token_account is None ==> r is None,
    {
        match self.pool_token_account {
            Some(p) => Some(self.ledger.accounts[p].balance),
            None => None,
        }
    }
}

/// Conservation law.  In every well-formed state — and every operation
/// of this library carries well-formedness from its inputs to its
/// outputs, starting from `StakingProtocol::new` — the token account
/// balances sum to the total minted supply; once the pool exists, the
/// pool balance equals the sum of all staked amounts, so the remaining
/// (user) balances plus the pool balance equal the supply.
pub proof fn lemma_conservation(p: StakingProtocol)
    requires
        p.wf(),
    ensures
        sum_balances(p.ledger.accounts@) == p.ledger.supply as int,
        p.pool_token_account is Some ==> sum_staked(p.stake_entries@) == p.spec_pool_balance(),
        p.pool_token_account is Some ==> sum_balances(p.ledger.accounts@.remove(p.pool_idx()))
            + p.spec_pool_balance() == p.ledger.supply as int,
{
    if p.pool_token_account is Some {
        lemma_sum_balances_remove(p.ledger.accounts@, p.pool_idx());
    }
}

/// Non-negative stake law.  Every recorded staked amount is
/// non-negative in every state; the operations prevent underflow
/// rather than relying on wraparound — `perform_unstake` rejects any
/// amount above the recorded balance (`ExceedsStakedBalance`) before
/// touching it.
pub proof fn lemma_nonnegative_stake(p: StakingProtocol)
    ensures
        forall|u: u64| staked_of(p.stake_entries@, u) >= 0,
        sum_staked(p.stake_entries@) >= 0,
{
    assert forall|u: u64| staked_of(p.stake_entries@, u) >= 0 by {
        lemma_staked_of_nonneg(p.stake_entries@, u);
    }
    lemma_sum_staked_nonneg(p.stake_entries@);
}

/// Round-trip law.  Staking `n` and then immediately unstaking `n` for
/// the same user and wallet restores the pre-stake state exactly:
/// every token account balance (the user's liquid balance and the pool
/// balance included), every user's staked amount, and the supply.
pub proof fn lemma_stake_unstake_inverse(
    p0: StakingProtocol,
    p1: StakingProtocol,
    p2: StakingProtocol,
    ctx_s: PerformStake,
    ctx_u: PerformUnstake,
    n: u64,
)
    requires
        p0.wf(),
        StakingProtocol::stake_applied(p0, p1, ctx_s, n),
        StakingProtocol::unstake_applied(p1, p2, ctx_u, n),
        ctx_u.user_authority == ctx_s.user_authority,
        ctx_u.user_wallet_account == ctx_s.user_wallet_account,
    ensures
        p2.ledger.accounts@ == p0.ledger.accounts@,
        p2.ledger.supply == p0.ledger.supply,
        forall|u: u64| staked_of(p2.stake_entries@, u) == staked_of(p0.stake_entries@, u),
{
    let w = ctx_s.user_wallet_account as int;
    let pidx = p0.pool_idx();
    lemma_two_balances_le_sum(p0.ledger.accounts@, w, pidx);
    assert(p2.ledger.accounts@ =~= p0.ledger.accounts@);
    assert forall|u: u64| staked_of(p2.stake_entries@, u) == staked_of(
        p0.stake_entries@,
        u,
    ) by {
        if u != ctx_s.user_authority {
            assert(staked_of(p1.stake_entries@, u) == staked_of(p0.stake_entries@, u));
            assert(staked_of(p2.stake_entries@, u) == staked_of(p1.stake_entries@, u));
        }
    }
}

} // verus!
