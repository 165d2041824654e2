use vstd::prelude::*;
use crate::errors::LedgerError;

verus! {

/// The token-type record: decimal precision and the identifier that
/// holds the exclusive right to mint further supply.
#[derive(Clone, Copy, Debug, PartialEq, Eq, Structural)]
pub struct MintRecord {
    pub authority: u64,
    pub decimals: u8,
}

/// A balance record for the mint, controlled by its owner authority.
#[derive(Clone, Copy, Debug, PartialEq, Eq, Structural)]
pub struct TokenAccount {
    pub owner: u64,
    pub balance: u64,
}

/// The account set named by a transfer: source, destination, and the
/// authority presented as controlling the source funds.
#[derive(Clone, Copy, Debug, PartialEq, Eq, Structural)]
pub struct TransferAccounts {
    pub from: usize,
    pub to: usize,
    pub authority: u64,
}

/// The account set named by a mint-to: destination and the authority
/// presented as the mint authority.
#[derive(Clone, Copy, Debug, PartialEq, Eq, Structural)]
pub struct MintToAccounts {
    pub to: usize,
    pub authority: u64,
}

/// Sum of the balances of a sequence of token accounts.
pub open spec fn sum_balances(s: Seq<TokenAccount>) -> int
    decreases s.len(),
{
    if s.len() == 0 {
        0
    } else {
        sum_balances(s.drop_last()) + s.last().balance
    }
}

pub proof fn lemma_sum_balances_push(s: Seq<TokenAccount>, a: TokenAccount)
    ensures
        sum_balances(s.push(a)) == sum_balances(s) + a.balance,
{
    assert(s.push(a).drop_last() =~= s);
}

pub proof fn lemma_sum_balances_update(s: Seq<TokenAccount>, i: int, a: TokenAccount)
    requires
        0 <= i < s.len(),
    ensures
        sum_balances(s.update(i, a)) == sum_balances(s) - s[i].balance + a.balance,
    decreases s.len(),
{
    if i == s.len() - 1 {
        assert(s.update(i, a).drop_last() =~= s.drop_last());
    } else {
        assert(s.update(i, a).drop_last() =~= s.drop_last().update(i, a));
        lemma_sum_balances_update(s.drop_last(), i, a);
    }
}

pub proof fn lemma_sum_balances_nonneg(s: Seq<TokenAccount>)
    ensures
        sum_balances(s) >= 0,
    decreases s.len(),
{
    if s.len() > 0 {
        lemma_sum_balances_nonneg(s.drop_last());
    }
}

/// Each single balance is bounded by the sum of all balances.
pub proof fn lemma_balance_le_sum(s: Seq<TokenAccount>, i: int)
    requires
        0 <= i < s.len(),
    ensures
        s[i].balance <= sum_balances(s),
    decreases s.len(),
{
    if i == s.len() - 1 {
        lemma_sum_balances_nonneg(s.drop_last());
    } else {
        lemma_balance_le_sum(s.drop_last(), i);
    }
}

/// Two distinct balances together are bounded by the sum of all balances.
pub proof fn lemma_two_balances_le_sum(s: Seq<TokenAccount>, i: int, j: int)
    requires
        0 <= i < s.len(),
        0 <= j < s.len(),
        i != j,
    ensures
        s[i].balance + s[j].balance <= sum_balances(s),
    decreases s.len(),
{
    if j == s.len() - 1 {
        lemma_balance_le_sum(s.drop_last(), i);
    } else if i == s.len() - 1 {
        lemma_balance_le_sum(s.drop_last(), j);
    } else {
        lemma_two_balances_le_sum(s.drop_last(), i, j);
    }
}

/// Removing one account splits the sum into that balance and the rest.
pub proof fn lemma_sum_balances_remove(s: Seq<TokenAccount>, i: int)
    requires
        0 <= i < s.len(),
    ensures
        sum_balances(s) == s[i].balance + sum_balances(s.remove(i)),
    decreases s.len(),
{
    if i == s.len() - 1 {
        assert(s.remove(i) =~= s.drop_last());
    } else {
        assert(s.remove(i).drop_last() =~= s.drop_last().remove(i));
        lemma_sum_balances_remove(s.drop_last(), i);
    }
}

/// The token ledger: the mint record, the token accounts (identified by
/// index of creation), and the total minted supply.  Its invariant is
/// conservation: the balances always sum to the supply.
#[derive(Clone, Debug)]
pub struct TokenLedger {
    pub mint: Option<MintRecord>,
    pub accounts: Vec<TokenAccount>,
    pub supply: u64,
}

impl TokenLedger {
    /// Conservation: all balances together equal the minted supply.
    pub open spec fn wf(self) -> bool {
        sum_balances(self.accounts@) == self.supply as int
    }

    /// An empty ledger: no mint, no accounts, no supply.
    pub fn new() -> (l: TokenLedger)
        ensures
            l.wf(),
            l.mint is None,
            l.accounts@.len() == 0,
            l.supply == 0,
    {
        TokenLedger { mint: None, accounts: Vec::new(), supply: 0 }
    }

    /// One-time creation of the mint record.  Fails with `AlreadyExists`
    /// if and only if the mint was created before; nothing else changes
    /// in either case.
    pub fn create_mint(&mut self, authority: u64, decimals: u8) -> (r: Result<(), LedgerError>)
        ensures
            final(self).accounts == old(self).accounts,
            final(self).supply == old(self).supply,
            r is Ok <==> old(self).mint is None,
            r is Err ==> r == Result::<(), LedgerError>::Err(LedgerError::AlreadyExists)
                && final(self).mint == old(self).mint,
            r is Ok ==> final(self).mint == Some(MintRecord { authority, decimals }),
    {
        if self.mint.is_some() {
            Err(LedgerError::AlreadyExists)
        } else {
            self.mint = Some(MintRecord { authority, decimals });
            Ok(())
        }
    }

    /// Create a fresh, empty token account owned by `owner`; its
    /// identifier is the next unused index.  Requires the mint to exist.
    pub fn create_account(&mut self, owner: u64) -> (r: Result<usize, LedgerError>)
        requires
            old(self).wf(),
        ensures
            final(self).wf(),
            final(self).mint == old(self).mint,
            final(self).supply == old(self).supply,
            r is Ok <==> old(self).mint is Some,
            r is Err ==> r == Result::<usize, LedgerError>::Err(LedgerError::MintNotFound)
                && final(self).accounts == old(self).accounts,
            r matches Ok(id) ==> id == old(self).accounts@.len()
                && final(self).accounts@ == old(self).accounts@.push(
                    TokenAccount { owner, balance: 0 },
                ),
    {
        if self.mint.is_none() {
            return Err(LedgerError::MintNotFound);
        }
        let id = self.accounts.len();
        self.accounts.push(TokenAccount { owner, balance: 0 });
        proof {
            lemma_sum_balances_push(
                old(self).accounts@,
                TokenAccount { owner, balance: 0 },
            );
        }
        Ok(id)
    }

    /// Mint `amount` new tokens into the destination account, authorized
    /// by the mint authority.  Success is owed exactly when the mint
    /// exists, the destination exists, the presented authority is the
    /// mint authority, and the supply does not overflow; each failure
    /// names its cause and leaves the ledger unchanged.
    pub fn mint_to(&mut self, ix: MintToAccounts, amount: u64) -> (r: Result<(), LedgerError>)
        requires
            old(self).wf(),
        ensures
            final(self).wf(),
            final(self).mint == old(self).mint,
            r is Ok <==> {
                &&& old(self).mint is Some
                &&& ix.to < old(self).accounts@.len()
                &&& ix.authority == old(self).mint->0.authority
                &&& old(self).supply + amount <= u64::MAX
            },
            r is Err ==> *final(self) == *old(self),
            old(self).mint is None ==> r == Result::<(), LedgerError>::Err(
                LedgerError::MintNotFound,
            ),
            old(self).mint is Some && ix.to >= old(self).accounts@.len() ==> r
                == Result::<(), LedgerError>::Err(LedgerError::AccountNotFound),
            old(self).mint is Some && ix.to < old(self).accounts@.len() && ix.authority
                != old(self).mint->0.authority ==> r == Result::<(), LedgerError>::Err(
                LedgerError::Unauthorized,
            ),
            old(self).mint is Some && ix.to < old(self).accounts@.len() && ix.authority
                == old(self).mint->0.authority && old(self).supply + amount > u64::MAX ==> r
                == Result::<(), LedgerError>::Err(LedgerError::Overflow),
            r is Ok ==> {
                &&& final(self).supply == old(self).supply + amount
                &&& final(self).accounts@ == old(self).accounts@.update(
                    ix.to as int,
                    TokenAccount {
                        owner: old(self).accounts@[ix.to as int].owner,
                        balance: (old(self).accounts@[ix.to as int].balance + amount) as u64,
                    },
                )
            },
    {
        let mint = match &self.mint {
            Some(m) => *m,
            None => { return Err(LedgerError::MintNotFound); },
        };
        if ix.to >= self.accounts.len() {
            return Err(LedgerError::AccountNotFound);
        }
        if ix.authority != mint.authority {
            return Err(LedgerError::Unauthorized);
        }
        if amount > u64::MAX - self.supply {
            return Err(LedgerError::Overflow);
        }
        proof {
            lemma_balance_le_sum(self.accounts@, ix.to as int);
        }
        let dest = self.accounts[ix.to];
        let updated = TokenAccount { owner: dest.owner, balance: dest.balance + amount };
        self.accounts.set(ix.to, updated);
        self.supply = self.supply + amount;
        proof {
            lemma_sum_balances_update(old(self).accounts@, ix.to as int, updated);
        }
        Ok(())
    }

    /// Transfer `amount` from the source to the destination account,
    /// authorized by the source account's owner.  Success is owed
    /// exactly when both accounts exist, the presented authority owns
    /// the source, and the source balance covers the amount; each
    /// failure names its cause and leaves the ledger unchanged.
    pub fn transfer(&mut self, ix: TransferAccounts, amount: u64) -> (r: Result<(), LedgerError>)
        requires
            old(self).wf(),
        ensures
            final(self).wf(),
            final(self).mint == old(self).mint,
            final(self).supply == old(self).supply,
            r is Ok <==> {
                &&& ix.from < old(self).accounts@.len()
                &&& ix.to < old(self).accounts@.len()
                &&& ix.authority == old(self).accounts@[ix.from as int].owner
                &&& amount <= old(self).accounts@[ix.from as int].balance
            },
            r is Err ==> *final(self) == *old(self),
            ix.from >= old(self).accounts@.len() || ix.to >= old(self).accounts@.len() ==> r
                == Result::<(), LedgerError>::Err(LedgerError::AccountNotFound),
            ix.from < old(self).accounts@.len() && ix.to < old(self).accounts@.len()
                && ix.authority != old(self).accounts@[ix.from as int].owner ==> r
                == Result::<(), LedgerError>::Err(LedgerError::Unauthorized),
            ix.from < old(self).accounts@.len() && ix.to < old(self).accounts@.len()
                && ix.authority == old(self).accounts@[ix.from as int].owner && amount
                > old(self).accounts@[ix.from as int].balance ==> r == Result::<
                (),
                LedgerError,
            >::Err(LedgerError::InsufficientFunds),
            r is Ok && ix.from == ix.to ==> final(self).accounts == old(self).accounts,
            r is Ok && ix.from != ix.to ==> final(self).accounts@ == old(self).accounts@.update(
                ix.from as int,
                TokenAccount {
                    owner: old(self).accounts@[ix.from as int].owner,
                    balance: (old(self).accounts@[ix.from as int].balance - amount) as u64,
                },
            ).update(
                ix.to as int,
                TokenAccount {
                    owner: old(self).accounts@[ix.to as int].owner,
                    balance: (old(self).accounts@[ix.to as int].balance + amount) as u64,
                },
            ),
    {
        if ix.from >= self.accounts.len() || ix.to >= self.accounts.len() {
            return Err(LedgerError::AccountNotFound);
        }
        let src = self.accounts[ix.from];
        if ix.authority != src.owner {
            return Err(LedgerError::Unauthorized);
        }
        if amount > src.balance {
            return Err(LedgerError::InsufficientFunds);
        }
        if ix.from == ix.to {
            return Ok(());
        }
        proof {
            lemma_two_balances_le_sum(self.accounts@, ix.from as int, ix.to as int);
        }
        let debited = TokenAccount { owner: src.owner, balance: src.balance - amount };
        self.accounts.set(ix.from, debited);
        let dst = self.accounts[ix.to];
        let credited = TokenAccount { owner: dst.owner, balance: dst.balance + amount };
        self.accounts.set(ix.to, credited);
        proof {
            lemma_sum_balances_update(old(self).accounts@, ix.from as int, debited);
            lemma_sum_balances_update(
                old(self).accounts@.update(ix.from as int, debited),
                ix.to as int,
                credited,
            );
        }
        Ok(())
    }

    /// Balance query: the balance of an account, if it exists.
    pub fn balance_of(&self, id: usize) -> (r: Option<u64>)
        ensures
            id < self.accounts@.len() ==> r == Some(self.accounts@[id as int].balance),
            id >= self.accounts@.len() ==> r is None,
    {
        if id < self.accounts.len() {
            Some(self.accounts[id].balance)
        } else {
            None
        }
    }

    /// The total minted supply.
    pub fn total_supply(&self) -> (r: u64)
        ensures
            r == self.supply,
    {
        self.supply
    }
}

} // verus!
