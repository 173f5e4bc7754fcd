//! Account state storage: balances and lock status per client.
//!
//! An account holds its balances as integer counts of 1/10000 of the
//! currency unit (four fixed decimal places). `available` may go negative
//! after a chargeback follows a withdrawal made while funds were held; that
//! is a valid state, not an error.

use vstd::prelude::*;
use vstd::hash_map::HashMapWithView;

use crate::error::Error;

verus! {

/// The mathematical value of an account: balances as unbounded integers.
pub ghost struct AccountV {
    pub id: u16,
    pub available: int,
    pub held: int,
    pub locked: bool,
}

/// Account state: balances in units of 1/10000, and the lock status.
/// `total` is derived as `available + held`, never stored.
#[derive(Clone, Copy, Debug, PartialEq, Eq, Structural)]
pub struct Account {
    pub id: u16,
    pub available: i128,
    pub held: i128,
    pub locked: bool,
}

impl View for Account {
    type V = AccountV;

    open spec fn view(&self) -> AccountV {
        AccountV {
            id: self.id,
            available: self.available as int,
            held: self.held as int,
            locked: self.locked,
        }
    }
}

/// The freshly created account of a client: empty balances, unlocked.
pub open spec fn new_account_v(client: u16) -> AccountV {
    AccountV { id: client, available: 0, held: 0, locked: false }
}

/// The accounts with client id below `n`, in ascending id order.
pub open spec fn accounts_in_order_below(m: Map<u16, AccountV>, n: int) -> Seq<AccountV>
    decreases n,
{
    if n <= 0 {
        Seq::<AccountV>::empty()
    } else if m.contains_key((n - 1) as u16) {
        accounts_in_order_below(m, n - 1).push(m[(n - 1) as u16])
    } else {
        accounts_in_order_below(m, n - 1)
    }
}

/// All accounts of the ledger, in ascending client id order.
pub open spec fn accounts_in_order(m: Map<u16, AccountV>) -> Seq<AccountV> {
    accounts_in_order_below(m, 0x10000)
}

/// A property that holds of every account in the map holds of every element
/// of the ordered snapshot.
pub proof fn lemma_accounts_in_order_elems(
    m: Map<u16, AccountV>,
    n: int,
    p: spec_fn(AccountV) -> bool,
)
    requires
        forall|c: u16| #[trigger] m.contains_key(c) ==> p(m[c]),
    ensures
        forall|i: int|
            0 <= i < accounts_in_order_below(m, n).len() ==> p(
                #[trigger] accounts_in_order_below(m, n)[i],
            ),
    decreases n,
{
    if n > 0 {
        lemma_accounts_in_order_elems(m, n - 1, p);
        let prev = accounts_in_order_below(m, n - 1);
        let cur = accounts_in_order_below(m, n);
        assert forall|i: int| 0 <= i < cur.len() implies p(cur[i]) by {
            if i < prev.len() {
                assert(cur[i] == prev[i]);
            } else {
                assert(cur[i] == m[(n - 1) as u16]);
            }
        }
    }
}

/// The ordered snapshot is strictly ascending by client id, so the output
/// rows built from it are sorted and deterministic.
pub proof fn lemma_accounts_in_order_sorted(m: Map<u16, AccountV>, n: int)
    requires
        forall|c: u16| #[trigger] m.contains_key(c) ==> m[c].id == c,
        n <= 0x10000,
    ensures
        forall|i: int|
            0 <= i < accounts_in_order_below(m, n).len() ==> (
            #[trigger] accounts_in_order_below(m, n)[i]).id < n,
        forall|i: int, j: int|
            0 <= i < j < accounts_in_order_below(m, n).len() ==> accounts_in_order_below(m, n)[i].id
                < accounts_in_order_below(m, n)[j].id,
    decreases n,
{
    if n > 0 {
        lemma_accounts_in_order_sorted(m, n - 1);
        let prev = accounts_in_order_below(m, n - 1);
        let cur = accounts_in_order_below(m, n);
        assert forall|i: int| 0 <= i < cur.len() implies cur[i].id < n by {
            if i < prev.len() {
                assert(cur[i] == prev[i]);
            } else {
                assert(cur[i] == m[(n - 1) as u16]);
            }
        }
        assert forall|i: int, j: int| 0 <= i < j < cur.len() implies cur[i].id < cur[j].id by {
            if j < prev.len() {
                assert(cur[i] == prev[i] && cur[j] == prev[j]);
            } else {
                assert(cur[i] == prev[i] && cur[j] == m[(n - 1) as u16]);
            }
        }
    }
}

impl Account {
    /// The total balance, derived from the two stored balances.
    pub fn total(&self) -> (t: i128)
        requires
            i128::MIN <= self@.available + self@.held <= i128::MAX,
        ensures
            t == self@.available + self@.held,
    {
        self.available + self.held
    }
}

/// The account ledger store: one account per client id, created lazily.
/// Accounts are small copyable values: the getters hand out copies, and
/// `put` writes a modified account back under its own id.
pub struct AccountsStore {
    m: HashMapWithView<u16, Account>,
}

impl View for AccountsStore {
    type V = Map<u16, AccountV>;

    closed spec fn view(&self) -> Map<u16, AccountV> {
        self.m@.map_values(|a: Account| a@)
    }
}

impl AccountsStore {
    /// Creates an empty store.
    pub fn new() -> (s: Self)
        ensures
            s@ == Map::<u16, AccountV>::empty(),
    {
        let s = AccountsStore { m: HashMapWithView::new() };
        proof {
            assert(s@ =~= Map::<u16, AccountV>::empty());
        }
        s
    }

    /// Checks that the client's account is not locked. An absent client is
    /// treated as unlocked, so that a first deposit can still create it.
    pub fn check_account_lock(&self, client: u16) -> (r: Result<(), Error>)
        ensures
            r == (if self@.contains_key(client) && self@[client].locked {
                Err::<(), Error>(Error::AccountLocked)
            } else {
                Ok::<(), Error>(())
            }),
    {
        match self.m.get(&client) {
            Some(account) => {
                if account.locked {
                    Err(Error::AccountLocked)
                } else {
                    Ok(())
                }
            },
            None => Ok(()),
        }
    }

    /// Returns the client's account, creating an empty one in the store if
    /// none exists yet.
    pub fn get_or_create_mut(&mut self, client: u16) -> (a: Account)
        ensures
            a@ == (if old(self)@.contains_key(client) {
                old(self)@[client]
            } else {
                new_account_v(client)
            }),
            final(self)@ == old(self)@.insert(client, a@),
    {
        let found = self.m.get(&client);
        match found {
            Some(account) => {
                let a = *account;
                proof {
                    assert(self@ =~= old(self)@.insert(client, a@));
                }
                a
            },
            None => {
                let a = Account { id: client, available: 0, held: 0, locked: false };
                self.m.insert(client, a);
                proof {
                    assert(self@ =~= old(self)@.insert(client, a@));
                }
                a
            },
        }
    }

    /// Returns the client's account, or `AccountNotFound` if none exists.
    pub fn get_mut(&self, client: u16) -> (r: Result<Account, Error>)
        ensures
            match r {
                Ok(a) => self@.contains_key(client) && a@ == self@[client],
                Err(e) => !self@.contains_key(client) && e == Error::AccountNotFound,
            },
    {
        match self.m.get(&client) {
            Some(account) => Ok(*account),
            None => Err(Error::AccountNotFound),
        }
    }

    /// Writes an account back into the store under its own client id.
    pub fn put(&mut self, a: Account)
        ensures
            final(self)@ == old(self)@.insert(a.id, a@),
    {
        self.m.insert(a.id, a);
        proof {
            assert(self@ =~= old(self)@.insert(a.id, a@));
        }
    }

    /// Takes a snapshot of every account, in ascending client id order.
    pub fn iter(&self) -> (v: Vec<Account>)
        ensures
            v@.map_values(|a: Account| a@) == accounts_in_order(self@),
    {
        let mut v: Vec<Account> = Vec::new();
        let mut c: usize = 0;
        while c < 0x10000
            invariant
                c <= 0x10000,
                v@.map_values(|a: Account| a@) == accounts_in_order_below(self@, c as int),
            decreases 0x10000 - c,
        {
            let ghost prev = v@;
            match self.m.get(&(c as u16)) {
                Some(account) => {
                    v.push(*account);
                    proof {
                        assert(v@.map_values(|a: Account| a@) =~= prev.map_values(
                            |a: Account| a@,
                        ).push(self@[(c as u16)]));
                    }
                },
                None => {},
            }
            c += 1;
        }
        v
    }
}

} // verus!
