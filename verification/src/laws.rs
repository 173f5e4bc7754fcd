//! The ledger's global laws, stated and proved over the specification-level
//! state machine. Together with the engine's step-for-step contract they
//! hold of the executable engine as well.

use vstd::prelude::*;

use crate::accounts::AccountV;
use crate::error::Error;
use crate::ledger::LedgerV;
use crate::ledger::acct_or_new;
use crate::ledger::apply_all;
use crate::ledger::avail_of;
use crate::ledger::avail_total;
use crate::ledger::init_ledger;
use crate::ledger::lemma_avail_sum_empty;
use crate::ledger::lemma_avail_sum_insert;
use crate::ledger::run_ledger;
use crate::ledger::spec_step;
use crate::record::Transaction;
use crate::record::TransactionType;

verus! {

/// Duplicate idempotence: after a deposit or withdrawal has been applied
/// successfully, applying the very same transaction again is rejected as
/// `DuplicateTransaction`, and the ledger stays exactly as it was after the
/// single application.
pub proof fn lemma_duplicate_idempotent(s: LedgerV, t: Transaction)
    requires
        t.tx_type == TransactionType::Deposit || t.tx_type == TransactionType::Withdrawal,
        spec_step(s, t).1 == Ok::<(), Error>(()),
    ensures
        spec_step(spec_step(s, t).0, t) == (
            spec_step(s, t).0,
            Err::<(), Error>(Error::DuplicateTransaction),
        ),
{
}

/// The amount actually moved by one transaction: the amount of a successful
/// deposit, the negated amount of a successful withdrawal, nothing for a
/// rejected transaction or any other kind.
pub open spec fn step_delta(s: LedgerV, t: Transaction) -> int {
    if spec_step(s, t).1 == Ok::<(), Error>(()) {
        match t.tx_type {
            TransactionType::Deposit => match t.amount {
                Some(a) => a as int,
                None => 0,
            },
            TransactionType::Withdrawal => match t.amount {
                Some(a) => -(a as int),
                None => 0,
            },
            _ => 0,
        }
    } else {
        0
    }
}

/// The net amount moved by a sequence of transactions applied from the
/// initial ledger: the sum of the applied deposit amounts minus the sum of
/// the applied withdrawal amounts.
pub open spec fn net_applied(ts: Seq<Transaction>) -> int
    decreases ts.len(),
{
    if ts.len() == 0 {
        0
    } else {
        net_applied(ts.drop_last()) + step_delta(run_ledger(ts.drop_last()), ts.last())
    }
}

/// One deposit or withdrawal changes the sum of all available balances by
/// exactly the amount it moves.
pub proof fn lemma_step_avail_delta(s: LedgerV, t: Transaction)
    requires
        t.tx_type == TransactionType::Deposit || t.tx_type == TransactionType::Withdrawal,
    ensures
        avail_total(spec_step(s, t).0.accounts) == avail_total(s.accounts) + step_delta(s, t),
{
    let s2 = spec_step(s, t).0;
    if spec_step(s, t).1 == Ok::<(), Error>(()) {
        let a = t.amount->Some_0;
        let acct = acct_or_new(s.accounts, t.client);
        if t.tx_type == TransactionType::Deposit {
            let acct2 = AccountV {
                id: acct.id,
                available: acct.available + a,
                held: acct.held,
                locked: acct.locked,
            };
            lemma_avail_sum_insert(s.accounts, t.client, acct2, 0x10000);
            assert(acct2.available - avail_of(s.accounts, t.client) == a);
        } else {
            let acct2 = AccountV {
                id: acct.id,
                available: acct.available - a,
                held: acct.held,
                locked: acct.locked,
            };
            lemma_avail_sum_insert(s.accounts, t.client, acct2, 0x10000);
            assert(acct2.available - avail_of(s.accounts, t.client) == -a);
        }
    }
}

/// Conservation: over any sequence of deposits and withdrawals, the sum of
/// the available balances across all accounts equals the sum of the applied
/// deposit amounts minus the sum of the applied withdrawal amounts, with no
/// drift. (Fixed-point arithmetic is exact.)
pub proof fn lemma_conservation(ts: Seq<Transaction>)
    requires
        forall|i: int|
            0 <= i < ts.len() ==> ((#[trigger] ts[i]).tx_type == TransactionType::Deposit
                || ts[i].tx_type == TransactionType::Withdrawal),
    ensures
        avail_total(run_ledger(ts).accounts) == net_applied(ts),
    decreases ts.len(),
{
    if ts.len() == 0 {
        lemma_avail_sum_empty(init_ledger().accounts, 0x10000);
    } else {
        assert forall|i: int| 0 <= i < ts.drop_last().len() implies ((#[trigger] ts.drop_last()[
        i]).tx_type == TransactionType::Deposit || ts.drop_last()[i].tx_type
            == TransactionType::Withdrawal) by {
            assert(ts.drop_last()[i] == ts[i]);
        }
        lemma_conservation(ts.drop_last());
        lemma_step_avail_delta(run_ledger(ts.drop_last()), ts.last());
    }
}

/// Dispute reversibility: after a successful dispute, the matching resolve
/// succeeds and returns the account's available and held balances to their
/// exact pre-dispute values.
pub proof fn lemma_dispute_resolve_roundtrip(s: LedgerV, client: u16, tx: u32)
    requires
        spec_step(
            s,
            Transaction { tx_type: TransactionType::Dispute, client, tx, amount: None },
        ).1 == Ok::<(), Error>(()),
    ensures
        ({
            let s1 = spec_step(
                s,
                Transaction { tx_type: TransactionType::Dispute, client, tx, amount: None },
            ).0;
            let step2 = spec_step(
                s1,
                Transaction { tx_type: TransactionType::Resolve, client, tx, amount: None },
            );
            &&& step2.1 == Ok::<(), Error>(())
            &&& step2.0.accounts[client].available == acct_or_new(s.accounts, client).available
            &&& step2.0.accounts[client].held == acct_or_new(s.accounts, client).held
        }),
{
}

/// A successful chargeback leaves the account locked, with the charged
/// amount gone from held and the available balance not restored.
pub proof fn lemma_chargeback_locks(s: LedgerV, client: u16, tx: u32)
    requires
        spec_step(
            s,
            Transaction { tx_type: TransactionType::Chargeback, client, tx, amount: None },
        ).1 == Ok::<(), Error>(()),
    ensures
        ({
            let s1 = spec_step(
                s,
                Transaction { tx_type: TransactionType::Chargeback, client, tx, amount: None },
            ).0;
            &&& s1.accounts[client].locked
            &&& s1.accounts[client].available == acct_or_new(s.accounts, client).available
            &&& s1.accounts[client].held == acct_or_new(s.accounts, client).held
                - s.deposits[tx].amount
        }),
{
}

/// Chargeback terminal lock: once an account is locked, every transaction
/// of every kind that names its client is rejected with `AccountLocked`,
/// and the whole ledger — not just that account — stays untouched.
pub proof fn lemma_locked_account_rejects(s: LedgerV, t: Transaction)
    requires
        s.accounts.contains_key(t.client),
        s.accounts[t.client].locked,
    ensures
        spec_step(s, t) == (s, Err::<(), Error>(Error::AccountLocked)),
{
}

/// A lock is permanent: no transaction, for this client or any other,
/// unlocks an account.
pub proof fn lemma_lock_permanent(s: LedgerV, t: Transaction, client: u16)
    requires
        s.accounts.contains_key(client),
        s.accounts[client].locked,
    ensures
        spec_step(s, t).0.accounts.contains_key(client),
        spec_step(s, t).0.accounts[client].locked,
{
}

/// A lock is terminal over any continuation of the stream: however many
/// transactions follow, the account is still there and still locked.
pub proof fn lemma_lock_terminal(s: LedgerV, ts: Seq<Transaction>, client: u16)
    requires
        s.accounts.contains_key(client),
        s.accounts[client].locked,
    ensures
        apply_all(s, ts).accounts.contains_key(client),
        apply_all(s, ts).accounts[client].locked,
    decreases ts.len(),
{
    if ts.len() > 0 {
        lemma_lock_terminal(s, ts.drop_last(), client);
        lemma_lock_permanent(apply_all(s, ts.drop_last()), ts.last(), client);
    }
}

/// Cross-client isolation: a dispute that names a transaction owned by a
/// different client fails with `TransactionClientMismatch` and mutates
/// nothing.
pub proof fn lemma_cross_client_dispute_rejected(s: LedgerV, client: u16, tx: u32)
    requires
        !(s.accounts.contains_key(client) && s.accounts[client].locked),
        s.deposits.contains_key(tx),
        s.deposits[tx].client != client,
    ensures
        spec_step(s, Transaction { tx_type: TransactionType::Dispute, client, tx, amount: None })
            == (s, Err::<(), Error>(Error::TransactionClientMismatch)),
{
}

} // verus!
