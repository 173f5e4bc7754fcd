//! The transaction engine: validates and applies each incoming transaction
//! against the two stores.
//!
//! Every public and private handler is proved to follow the
//! specification-level state machine of [`crate::ledger`] step for step: the
//! returned result and the new state are exactly those of `spec_step`. A
//! rejected transaction leaves the ledger unchanged, and the stream goes on
//! regardless of the outcome.

use vstd::prelude::*;

use crate::accounts::Account;
use crate::accounts::AccountsStore;
use crate::accounts::accounts_in_order;
use crate::error::Error;
use crate::ledger::LedgerV;
use crate::ledger::init_ledger;
use crate::ledger::ledger_wf;
use crate::ledger::lemma_deposit_total_bounds;
use crate::ledger::lemma_disputed_sum_le;
use crate::ledger::lemma_wf_chargeback;
use crate::ledger::lemma_wf_deposit;
use crate::ledger::lemma_wf_dispute;
use crate::ledger::lemma_wf_resolve;
use crate::ledger::lemma_wf_withdrawal;
use crate::ledger::spec_chargeback;
use crate::ledger::spec_deposit;
use crate::ledger::spec_dispute;
use crate::ledger::spec_resolve;
use crate::ledger::spec_step;
use crate::ledger::spec_withdrawal;
use crate::record::Transaction;
use crate::record::TransactionType;
use crate::transactions::TransactionsStore;

verus! {

/// The engine: the account ledger and the transaction history, mutated by
/// one transaction at a time.
pub struct Engine {
    accounts: AccountsStore,
    transactions: TransactionsStore,
}

impl View for Engine {
    type V = LedgerV;

    closed spec fn view(&self) -> LedgerV {
        LedgerV {
            accounts: self.accounts@,
            deposits: self.transactions@.deposits,
            processed: self.transactions@.processed,
        }
    }
}

impl Engine {
    /// The engine's state satisfies every ledger invariant. `new`
    /// establishes this and `process_transaction` preserves it.
    pub open spec fn wf(&self) -> bool {
        ledger_wf(self@)
    }

    /// Creates an engine with no accounts and no history.
    pub fn new() -> (e: Self)
        ensures
            e@ == init_ledger(),
            e.wf(),
    {
        let e = Engine { accounts: AccountsStore::new(), transactions: TransactionsStore::new() };
        proof {
            assert(e@ =~= init_ledger());
        }
        e
    }

    /// Applies one transaction. The result and the state change are exactly
    /// those of the specification step: a locked account rejects everything
    /// up front, a deposit or withdrawal without an amount is invalid, and
    /// each handler validates fully before it mutates, so a rejected
    /// transaction leaves the ledger unchanged.
    pub fn process_transaction(&mut self, transaction: Transaction) -> (r: Result<(), Error>)
        requires
            old(self).wf(),
        ensures
            final(self).wf(),
            final(self)@ == spec_step(old(self)@, transaction).0,
            r == spec_step(old(self)@, transaction).1,
    {
        if let Err(e) = self.accounts.check_account_lock(transaction.client) {
            return Err(e);
        }
        match transaction.tx_type {
            TransactionType::Deposit => match transaction.amount {
                Some(amount) => self.process_deposit(transaction.client, transaction.tx, amount),
                None => Err(Error::InvalidTransaction),
            },
            TransactionType::Withdrawal => match transaction.amount {
                Some(amount) => self.process_withdrawal(
                    transaction.client,
                    transaction.tx,
                    amount,
                ),
                None => Err(Error::InvalidTransaction),
            },
            TransactionType::Dispute => self.process_dispute(transaction.client, transaction.tx),
            TransactionType::Resolve => self.process_resolve(transaction.client, transaction.tx),
            TransactionType::Chargeback => self.process_chargeback(
                transaction.client,
                transaction.tx,
            ),
        }
    }

    /// Credits a deposit: the amount must be positive and the transaction id
    /// unused; the account is created on first use, the deposit recorded for
    /// later dispute, and the id marked processed.
    fn process_deposit(&mut self, client: u16, tx: u32, amount: i64) -> (r: Result<(), Error>)
        requires
            old(self).wf(),
        ensures
            final(self).wf(),
            final(self)@ == spec_deposit(old(self)@, client, tx, amount as int).0,
            r == spec_deposit(old(self)@, client, tx, amount as int).1,
    {
        if amount <= 0 {
            return Err(Error::AmountMustBePositive);
        }
        if self.transactions.is_processed(tx) {
            return Err(Error::DuplicateTransaction);
        }
        match self.transactions.store_new_deposit(tx, client, amount) {
            Err(e) => {
                proof {
                    // a recorded deposit id is always in the processed set
                    assert(false);
                }
                Err(e)
            },
            Ok(()) => {
                let mut account = self.accounts.get_or_create_mut(client);
                proof {
                    lemma_deposit_total_bounds(old(self)@.deposits);
                    lemma_disputed_sum_le(old(self)@.deposits, client, 0x1_0000_0000);
                }
                account.available = account.available + amount as i128;
                self.accounts.put(account);
                self.transactions.mark_processed(tx);
                proof {
                    lemma_wf_deposit(old(self)@, client, tx, amount as int);
                    assert(self@ =~= spec_deposit(old(self)@, client, tx, amount as int).0);
                }
                Ok(())
            },
        }
    }

    /// Debits a withdrawal: the amount must be positive, the transaction id
    /// unused, the account known and its available balance sufficient. The
    /// withdrawal is final, so only its id is recorded.
    fn process_withdrawal(&mut self, client: u16, tx: u32, amount: i64) -> (r: Result<(), Error>)
        requires
            old(self).wf(),
        ensures
            final(self).wf(),
            final(self)@ == spec_withdrawal(old(self)@, client, tx, amount as int).0,
            r == spec_withdrawal(old(self)@, client, tx, amount as int).1,
    {
        if amount <= 0 {
            return Err(Error::AmountMustBePositive);
        }
        if self.transactions.is_processed(tx) {
            return Err(Error::DuplicateTransaction);
        }
        let mut account = match self.accounts.get_mut(client) {
            Ok(account) => account,
            Err(e) => {
                return Err(e);
            },
        };
        if account.available < amount as i128 {
            return Err(Error::InsufficientFunds);
        }
        account.available = account.available - amount as i128;
        self.accounts.put(account);
        self.transactions.mark_processed(tx);
        proof {
            lemma_wf_withdrawal(old(self)@, client, tx, amount as int);
            assert(self@ =~= spec_withdrawal(old(self)@, client, tx, amount as int).0);
        }
        Ok(())
    }

    /// Opens a dispute: the referenced deposit must exist, belong to the
    /// client and not be disputed already. Its amount moves from available
    /// to held; available may go negative.
    fn process_dispute(&mut self, client: u16, tx: u32) -> (r: Result<(), Error>)
        requires
            old(self).wf(),
            old(self)@.accounts.contains_key(client) ==> !old(self)@.accounts[client].locked,
        ensures
            final(self).wf(),
            final(self)@ == spec_dispute(old(self)@, client, tx).0,
            r == spec_dispute(old(self)@, client, tx).1,
    {
        let deposit = match self.transactions.get_deposit_mut(client, tx) {
            Ok(deposit) => deposit,
            Err(e) => {
                return Err(e);
            },
        };
        if deposit.disputed {
            return Err(Error::TransactionAlreadyDisputed);
        }
        self.transactions.set_disputed(tx, true);
        let mut account = self.accounts.get_or_create_mut(client);
        proof {
            lemma_deposit_total_bounds(old(self)@.deposits);
            lemma_disputed_sum_le(old(self)@.deposits, client, 0x1_0000_0000);
        }
        account.held = account.held + deposit.amount as i128;
        account.available = account.available - deposit.amount as i128;
        self.accounts.put(account);
        proof {
            lemma_wf_dispute(old(self)@, client, tx);
            assert(self@ =~= spec_dispute(old(self)@, client, tx).0);
        }
        Ok(())
    }

    /// Resolves a dispute: the referenced deposit must exist, belong to the
    /// client and be under dispute. Its amount moves back from held to
    /// available; the deposit may be disputed again later.
    fn process_resolve(&mut self, client: u16, tx: u32) -> (r: Result<(), Error>)
        requires
            old(self).wf(),
            old(self)@.accounts.contains_key(client) ==> !old(self)@.accounts[client].locked,
        ensures
            final(self).wf(),
            final(self)@ == spec_resolve(old(self)@, client, tx).0,
            r == spec_resolve(old(self)@, client, tx).1,
    {
        let deposit = match self.transactions.get_deposit_mut(client, tx) {
            Ok(deposit) => deposit,
            Err(e) => {
                return Err(e);
            },
        };
        if !deposit.disputed {
            return Err(Error::TransactionNotDisputed);
        }
        self.transactions.set_disputed(tx, false);
        let mut account = self.accounts.get_or_create_mut(client);
        proof {
            lemma_deposit_total_bounds(old(self)@.deposits);
            lemma_disputed_sum_le(old(self)@.deposits, client, 0x1_0000_0000);
        }
        account.held = account.held - deposit.amount as i128;
        account.available = account.available + deposit.amount as i128;
        self.accounts.put(account);
        proof {
            lemma_wf_resolve(old(self)@, client, tx);
            assert(self@ =~= spec_resolve(old(self)@, client, tx).0);
        }
        Ok(())
    }

    /// Finalizes a dispute adversarially: the held amount is forfeited —
    /// available is not restored — and the account is locked for good.
    fn process_chargeback(&mut self, client: u16, tx: u32) -> (r: Result<(), Error>)
        requires
            old(self).wf(),
            old(self)@.accounts.contains_key(client) ==> !old(self)@.accounts[client].locked,
        ensures
            final(self).wf(),
            final(self)@ == spec_chargeback(old(self)@, client, tx).0,
            r == spec_chargeback(old(self)@, client, tx).1,
    {
        let deposit = match self.transactions.get_deposit_mut(client, tx) {
            Ok(deposit) => deposit,
            Err(e) => {
                return Err(e);
            },
        };
        if !deposit.disputed {
            return Err(Error::TransactionNotDisputed);
        }
        self.transactions.set_disputed(tx, false);
        let mut account = self.accounts.get_or_create_mut(client);
        proof {
            lemma_deposit_total_bounds(old(self)@.deposits);
            lemma_disputed_sum_le(old(self)@.deposits, client, 0x1_0000_0000);
        }
        account.held = account.held - deposit.amount as i128;
        account.locked = true;
        self.accounts.put(account);
        proof {
            lemma_wf_chargeback(old(self)@, client, tx);
            assert(self@ =~= spec_chargeback(old(self)@, client, tx).0);
        }
        Ok(())
    }

    /// Takes a snapshot of every account, in ascending client id order.
    pub fn accounts(&self) -> (v: Vec<Account>)
        ensures
            v@.map_values(|a: Account| a@) == accounts_in_order(self@.accounts),
    {
        self.accounts.iter()
    }
}

} // verus!


