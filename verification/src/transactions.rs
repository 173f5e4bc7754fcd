//! Transaction history storage: deposits kept for dispute handling, and the
//! set of processed transaction ids kept for duplicate rejection.
//!
//! Deposits and withdrawals share one id namespace: a withdrawal with the
//! same numeric id as an earlier deposit collides as a duplicate. Only
//! deposits are recorded as disputable; withdrawals are final, so only their
//! id enters the processed set.

use vstd::prelude::*;
use vstd::hash_map::HashMapWithView;
use vstd::hash_set::HashSetWithView;

use crate::error::Error;

verus! {

/// The mathematical value of a stored deposit.
pub ghost struct DepositV {
    pub client: u16,
    pub amount: int,
    pub disputed: bool,
}

/// A successful deposit, kept so that it can later be disputed. The amount
/// is in units of 1/10000.
#[derive(Clone, Copy, Debug, PartialEq, Eq, Structural)]
pub struct StoredDeposit {
    pub client: u16,
    pub amount: i64,
    pub disputed: bool,
}

impl View for StoredDeposit {
    type V = DepositV;

    open spec fn view(&self) -> DepositV {
        DepositV {
            client: self.client,
            amount: self.amount as int,
            disputed: self.disputed,
        }
    }
}

/// The mathematical value of the transaction history store.
#[verifier::ext_equal]
pub ghost struct TxHistoryV {
    pub deposits: Map<u32, DepositV>,
    pub processed: Set<u32>,
}

/// The transaction history store: disputable deposits by transaction id, and
/// the shared set of processed deposit/withdrawal ids.
pub struct TransactionsStore {
    deposits: HashMapWithView<u32, StoredDeposit>,
    processed: HashSetWithView<u32>,
}

impl View for TransactionsStore {
    type V = TxHistoryV;

    closed spec fn view(&self) -> TxHistoryV {
        TxHistoryV {
            deposits: self.deposits@.map_values(|d: StoredDeposit| d@),
            processed: self.processed@,
        }
    }
}

impl TransactionsStore {
    /// Creates an empty store.
    pub fn new() -> (s: Self)
        ensures
            s@.deposits == Map::<u32, DepositV>::empty(),
            s@.processed == Set::<u32>::empty(),
    {
        let s = TransactionsStore {
            deposits: HashMapWithView::new(),
            processed: HashSetWithView::new(),
        };
        proof {
            assert(s@.deposits =~= Map::<u32, DepositV>::empty());
        }
        s
    }

    /// Says whether a transaction id was already used by a successful
    /// deposit or withdrawal. Processed transactions cannot be repeated.
    pub fn is_processed(&self, tx: u32) -> (b: bool)
        ensures
            b == self@.processed.contains(tx),
    {
        self.processed.contains(&tx)
    }

    /// Marks a transaction id as used. Processed transactions cannot be
    /// repeated.
    pub fn mark_processed(&mut self, tx: u32)
        ensures
            final(self)@.deposits == old(self)@.deposits,
            final(self)@.processed == old(self)@.processed.insert(tx),
    {
        self.processed.insert(tx);
    }

    /// Records a new deposit so that its dispute status can be tracked.
    /// Fails with `DuplicateTransaction`, leaving the store unchanged, if a
    /// deposit with the same transaction id already exists.
    pub fn store_new_deposit(&mut self, tx: u32, client: u16, amount: i64) -> (r: Result<
        (),
        Error,
    >)
        ensures
            match r {
                Ok(()) => !old(self)@.deposits.contains_key(tx) && final(self)@.deposits == old(
                    self,
                )@.deposits.insert(
                    tx,
                    DepositV { client, amount: amount as int, disputed: false },
                ),
                Err(e) => e == Error::DuplicateTransaction && old(self)@.deposits.contains_key(tx)
                    && final(self)@.deposits == old(self)@.deposits,
            },
            final(self)@.processed == old(self)@.processed,
    {
        if self.deposits.contains_key(&tx) {
            return Err(Error::DuplicateTransaction);
        }
        let d = StoredDeposit { client, amount, disputed: false };
        self.deposits.insert(tx, d);
        proof {
            assert(self@.deposits =~= old(self)@.deposits.insert(tx, d@));
        }
        Ok(())
    }

    /// Looks a stored deposit up by transaction id and checks that it
    /// belongs to the given client. Fails with `TransactionNotFound` if no
    /// such deposit exists, and with `TransactionClientMismatch` if it
    /// belongs to a different client.
    pub fn get_deposit_mut(&self, client: u16, tx: u32) -> (r: Result<StoredDeposit, Error>)
        ensures
            match r {
                Ok(d) => self@.deposits.contains_key(tx) && d@ == self@.deposits[tx] && d.client
                    == client,
                Err(e) => if !self@.deposits.contains_key(tx) {
                    e == Error::TransactionNotFound
                } else {
                    self@.deposits[tx].client != client && e == Error::TransactionClientMismatch
                },
            },
    {
        match self.deposits.get(&tx) {
            Some(deposit) => {
                if deposit.client != client {
                    Err(Error::TransactionClientMismatch)
                } else {
                    Ok(*deposit)
                }
            },
            None => Err(Error::TransactionNotFound),
        }
    }

    /// Sets the dispute flag of a stored deposit, keeping its client and
    /// amount. Leaves the store unchanged if the deposit does not exist.
    pub fn set_disputed(&mut self, tx: u32, disputed: bool)
        ensures
            final(self)@.processed == old(self)@.processed,
            final(self)@.deposits == (if old(self)@.deposits.contains_key(tx) {
                old(self)@.deposits.insert(
                    tx,
                    DepositV {
                        client: old(self)@.deposits[tx].client,
                        amount: old(self)@.deposits[tx].amount,
                        disputed,
                    },
                )
            } else {
                old(self)@.deposits
            }),
    {
        match self.deposits.get(&tx) {
            Some(deposit) => {
                let d = StoredDeposit { client: deposit.client, amount: deposit.amount, disputed };
                self.deposits.insert(tx, d);
                proof {
                    assert(self@.deposits =~= old(self)@.deposits.insert(tx, d@));
                }
            },
            None => {},
        }
    }
}

} // verus!
