//! The specification-level ledger: a mathematical state machine that the
//! executable engine is proved to follow step for step.
//!
//! The state holds the account map, the deposit history and the set of
//! processed transaction ids. `spec_step` gives the exact outcome of one
//! transaction: either the unchanged state with a business-rule error, or
//! the mutated state with `Ok`. The well-formedness predicate `ledger_wf`
//! collects the invariants that every reachable state satisfies; they also
//! bound the balances, which is what keeps the executable fixed-point
//! arithmetic free of overflow.

use vstd::prelude::*;

use crate::accounts::AccountV;
use crate::accounts::new_account_v;
use crate::error::Error;
use crate::record::Transaction;
use crate::record::TransactionType;
use crate::transactions::DepositV;

verus! {

/// The whole ledger state, at specification level.
#[verifier::ext_equal]
pub ghost struct LedgerV {
    pub accounts: Map<u16, AccountV>,
    pub deposits: Map<u32, DepositV>,
    pub processed: Set<u32>,
}

/// The state before any transaction: no accounts, no history.
pub open spec fn init_ledger() -> LedgerV {
    LedgerV {
        accounts: Map::<u16, AccountV>::empty(),
        deposits: Map::<u32, DepositV>::empty(),
        processed: Set::<u32>::empty(),
    }
}

/// The `available` balance of a client, taking an absent account as 0.
pub open spec fn avail_of(m: Map<u16, AccountV>, c: u16) -> int {
    if m.contains_key(c) {
        m[c].available
    } else {
        0
    }
}

/// Sum of the `available` balances over the clients with id below `n`.
pub open spec fn avail_sum_below(m: Map<u16, AccountV>, n: int) -> int
    decreases n,
{
    if n <= 0 {
        0
    } else {
        avail_sum_below(m, n - 1) + avail_of(m, (n - 1) as u16)
    }
}

/// Sum of the `available` balances over all clients.
pub open spec fn avail_total(m: Map<u16, AccountV>) -> int {
    avail_sum_below(m, 0x10000)
}

/// The amount of the deposit with id `t`, taking an absent deposit as 0.
pub open spec fn dep_amt_of(m: Map<u32, DepositV>, t: u32) -> int {
    if m.contains_key(t) {
        m[t].amount
    } else {
        0
    }
}

/// Sum of the amounts of the deposits with id below `n`.
pub open spec fn deposit_sum_below(m: Map<u32, DepositV>, n: int) -> int
    decreases n,
{
    if n <= 0 {
        0
    } else {
        deposit_sum_below(m, n - 1) + dep_amt_of(m, (n - 1) as u32)
    }
}

/// Sum of the amounts of all deposits ever recorded.
pub open spec fn deposit_total(m: Map<u32, DepositV>) -> int {
    deposit_sum_below(m, 0x1_0000_0000)
}

/// The amount that the deposit with id `t` contributes to the held balance
/// of `client`: its amount if it belongs to that client and is currently
/// disputed, 0 otherwise.
pub open spec fn disputed_amt_of(m: Map<u32, DepositV>, client: u16, t: u32) -> int {
    if m.contains_key(t) && m[t].client == client && m[t].disputed {
        m[t].amount
    } else {
        0
    }
}

/// Sum of the disputed amounts of `client` over the deposits with id below
/// `n`.
pub open spec fn disputed_sum_below(m: Map<u32, DepositV>, client: u16, n: int) -> int
    decreases n,
{
    if n <= 0 {
        0
    } else {
        disputed_sum_below(m, client, n - 1) + disputed_amt_of(m, client, (n - 1) as u32)
    }
}

/// The total amount currently under dispute for `client`; the account's
/// held balance equals exactly this sum.
pub open spec fn disputed_total(m: Map<u32, DepositV>, client: u16) -> int {
    disputed_sum_below(m, client, 0x1_0000_0000)
}

/// The account of `client`, or a fresh empty account if none exists yet.
pub open spec fn acct_or_new(m: Map<u16, AccountV>, client: u16) -> AccountV {
    if m.contains_key(client) {
        m[client]
    } else {
        new_account_v(client)
    }
}

/// The invariants of every reachable ledger state.
///
/// - every recorded deposit has a positive amount that fits an `i64`;
/// - every recorded deposit id is in the processed set;
/// - every recorded deposit belongs to a client with an account;
/// - every account is stored under its own client id;
/// - the held balance of every account is exactly the sum of its disputed
///   deposit amounts;
/// - an unlocked account's available balance is at least the negation of
///   its held balance (it can only have gone negative through disputes);
/// - every available balance is bounded below by the negated total of all
///   deposits, and `available + held` is bounded above by that total.
pub open spec fn ledger_wf(s: LedgerV) -> bool {
    &&& forall|t: u32| #[trigger]
        s.deposits.contains_key(t) ==> 0 < s.deposits[t].amount <= i64::MAX as int
    &&& forall|t: u32| #[trigger] s.deposits.contains_key(t) ==> s.processed.contains(t)
    &&& forall|t: u32| #[trigger]
        s.deposits.contains_key(t) ==> s.accounts.contains_key(s.deposits[t].client)
    &&& forall|c: u16| #[trigger] s.accounts.contains_key(c) ==> s.accounts[c].id == c
    &&& forall|c: u16| #[trigger]
        s.accounts.contains_key(c) ==> s.accounts[c].held == disputed_total(s.deposits, c)
    &&& forall|c: u16| #[trigger]
        s.accounts.contains_key(c) && !s.accounts[c].locked ==> s.accounts[c].available
            >= -s.accounts[c].held
    &&& forall|c: u16| #[trigger]
        s.accounts.contains_key(c) ==> s.accounts[c].available >= -deposit_total(s.deposits)
    &&& forall|c: u16| #[trigger]
        s.accounts.contains_key(c) ==> s.accounts[c].available + s.accounts[c].held
            <= deposit_total(s.deposits)
}

/// The outcome of a deposit, after the lock check and the amount check of
/// the dispatcher.
pub open spec fn spec_deposit(s: LedgerV, client: u16, tx: u32, a: int) -> (LedgerV, Result<
    (),
    Error,
>) {
    if a <= 0 {
        (s, Err(Error::AmountMustBePositive))
    } else if s.processed.contains(tx) {
        (s, Err(Error::DuplicateTransaction))
    } else {
        let acct = acct_or_new(s.accounts, client);
        let acct2 = AccountV {
            id: acct.id,
            available: acct.available + a,
            held: acct.held,
            locked: acct.locked,
        };
        (
            LedgerV {
                accounts: s.accounts.insert(client, acct2),
                deposits: s.deposits.insert(
                    tx,
                    DepositV { client, amount: a, disputed: false },
                ),
                processed: s.processed.insert(tx),
            },
            Ok(()),
        )
    }
}

/// The outcome of a withdrawal, after the lock check and the amount check.
/// Withdrawals are not recorded for later dispute; only their id enters the
/// processed set.
pub open spec fn spec_withdrawal(s: LedgerV, client: u16, tx: u32, a: int) -> (LedgerV, Result<
    (),
    Error,
>) {
    if a <= 0 {
        (s, Err(Error::AmountMustBePositive))
    } else if s.processed.contains(tx) {
        (s, Err(Error::DuplicateTransaction))
    } else if !s.accounts.contains_key(client) {
        (s, Err(Error::AccountNotFound))
    } else if s.accounts[client].available < a {
        (s, Err(Error::InsufficientFunds))
    } else {
        let acct = s.accounts[client];
        let acct2 = AccountV {
            id: acct.id,
            available: acct.available - a,
            held: acct.held,
            locked: acct.locked,
        };
        (
            LedgerV {
                accounts: s.accounts.insert(client, acct2),
                deposits: s.deposits,
                processed: s.processed.insert(tx),
            },
            Ok(()),
        )
    }
}

/// The outcome of a dispute: the referenced deposit must exist, belong to
/// the referencing client, and not be under dispute already. The disputed
/// amount moves from available to held; available may go negative.
pub open spec fn spec_dispute(s: LedgerV, client: u16, tx: u32) -> (LedgerV, Result<(), Error>) {
    if !s.deposits.contains_key(tx) {
        (s, Err(Error::TransactionNotFound))
    } else if s.deposits[tx].client != client {
        (s, Err(Error::TransactionClientMismatch))
    } else if s.deposits[tx].disputed {
        (s, Err(Error::TransactionAlreadyDisputed))
    } else {
        let d = s.deposits[tx];
        let acct = acct_or_new(s.accounts, client);
        let acct2 = AccountV {
            id: acct.id,
            available: acct.available - d.amount,
            held: acct.held + d.amount,
            locked: acct.locked,
        };
        (
            LedgerV {
                accounts: s.accounts.insert(client, acct2),
                deposits: s.deposits.insert(
                    tx,
                    DepositV { client: d.client, amount: d.amount, disputed: true },
                ),
                processed: s.processed,
            },
            Ok(()),
        )
    }
}

/// The outcome of a resolve: the referenced deposit must exist, belong to
/// the client, and be under dispute. The disputed amount moves back from
/// held to available; the deposit may be disputed again later.
pub open spec fn spec_resolve(s: LedgerV, client: u16, tx: u32) -> (LedgerV, Result<(), Error>) {
    if !s.deposits.contains_key(tx) {
        (s, Err(Error::TransactionNotFound))
    } else if s.deposits[tx].client != client {
        (s, Err(Error::TransactionClientMismatch))
    } else if !s.deposits[tx].disputed {
        (s, Err(Error::TransactionNotDisputed))
    } else {
        let d = s.deposits[tx];
        let acct = acct_or_new(s.accounts, client);
        let acct2 = AccountV {
            id: acct.id,
            available: acct.available + d.amount,
            held: acct.held - d.amount,
            locked: acct.locked,
        };
        (
            LedgerV {
                accounts: s.accounts.insert(client, acct2),
                deposits: s.deposits.insert(
                    tx,
                    DepositV { client: d.client, amount: d.amount, disputed: false },
                ),
                processed: s.processed,
            },
            Ok(()),
        )
    }
}

/// The outcome of a chargeback: the referenced deposit must exist, belong
/// to the client, and be under dispute. The held amount is forfeited —
/// `available` is not restored — and the account is locked for good.
pub open spec fn spec_chargeback(s: LedgerV, client: u16, tx: u32) -> (LedgerV, Result<(), Error>) {
    if !s.deposits.contains_key(tx) {
        (s, Err(Error::TransactionNotFound))
    } else if s.deposits[tx].client != client {
        (s, Err(Error::TransactionClientMismatch))
    } else if !s.deposits[tx].disputed {
        (s, Err(Error::TransactionNotDisputed))
    } else {
        let d = s.deposits[tx];
        let acct = acct_or_new(s.accounts, client);
        let acct2 = AccountV {
            id: acct.id,
            available: acct.available,
            held: acct.held - d.amount,
            locked: true,
        };
        (
            LedgerV {
                accounts: s.accounts.insert(client, acct2),
                deposits: s.deposits.insert(
                    tx,
                    DepositV { client: d.client, amount: d.amount, disputed: false },
                ),
                processed: s.processed,
            },
            Ok(()),
        )
    }
}

/// The outcome of one transaction against the ledger. A locked account
/// rejects every kind of transaction before any type-specific logic; a
/// deposit or withdrawal without an amount is invalid; everything else is
/// dispatched by kind. On every error the state is returned unchanged.
pub open spec fn spec_step(s: LedgerV, t: Transaction) -> (LedgerV, Result<(), Error>) {
    if s.accounts.contains_key(t.client) && s.accounts[t.client].locked {
        (s, Err(Error::AccountLocked))
    } else {
        match t.tx_type {
            TransactionType::Deposit => match t.amount {
                Some(a) => spec_deposit(s, t.client, t.tx, a as int),
                None => (s, Err(Error::InvalidTransaction)),
            },
            TransactionType::Withdrawal => match t.amount {
                Some(a) => spec_withdrawal(s, t.client, t.tx, a as int),
                None => (s, Err(Error::InvalidTransaction)),
            },
            TransactionType::Dispute => spec_dispute(s, t.client, t.tx),
            TransactionType::Resolve => spec_resolve(s, t.client, t.tx),
            TransactionType::Chargeback => spec_chargeback(s, t.client, t.tx),
        }
    }
}

/// The ledger reached by folding a sequence of transactions onto a state,
/// business-rule rejections skipped over.
pub open spec fn apply_all(s: LedgerV, ts: Seq<Transaction>) -> LedgerV
    decreases ts.len(),
{
    if ts.len() == 0 {
        s
    } else {
        spec_step(apply_all(s, ts.drop_last()), ts.last()).0
    }
}

/// The ledger reached by a sequence of transactions from the initial state.
pub open spec fn run_ledger(ts: Seq<Transaction>) -> LedgerV {
    apply_all(init_ledger(), ts)
}

/// Bounds on every recorded deposit amount: positive, and within `i64`.
pub open spec fn deposits_bounded(m: Map<u32, DepositV>) -> bool {
    forall|t: u32| #[trigger] m.contains_key(t) ==> 0 < m[t].amount <= i64::MAX as int
}

/// Replacing (or adding) one account changes a partial available-sum by
/// exactly that account's contribution.
pub proof fn lemma_avail_sum_insert(m: Map<u16, AccountV>, k: u16, v: AccountV, n: int)
    requires
        0 <= n <= 0x10000,
    ensures
        avail_sum_below(m.insert(k, v), n) == avail_sum_below(m, n) + if (k as int) < n {
            v.available - avail_of(m, k)
        } else {
            0
        },
    decreases n,
{
    if n > 0 {
        lemma_avail_sum_insert(m, k, v, n - 1);
    }
}

/// A map without any account sums to zero.
pub proof fn lemma_avail_sum_empty(m: Map<u16, AccountV>, n: int)
    requires
        forall|c: u16| !m.contains_key(c),
    ensures
        avail_sum_below(m, n) == 0,
    decreases n,
{
    if n > 0 {
        lemma_avail_sum_empty(m, n - 1);
    }
}

/// Replacing (or adding) one deposit changes a partial deposit-sum by
/// exactly that deposit's contribution.
pub proof fn lemma_deposit_sum_insert(m: Map<u32, DepositV>, k: u32, v: DepositV, n: int)
    requires
        0 <= n <= 0x1_0000_0000,
    ensures
        deposit_sum_below(m.insert(k, v), n) == deposit_sum_below(m, n) + if (k as int) < n {
            v.amount - dep_amt_of(m, k)
        } else {
            0
        },
    decreases n,
{
    if n > 0 {
        lemma_deposit_sum_insert(m, k, v, n - 1);
    }
}

/// Replacing (or adding) one deposit changes a partial disputed-sum by
/// exactly the change of that deposit's contribution.
pub proof fn lemma_disputed_sum_insert(
    m: Map<u32, DepositV>,
    client: u16,
    k: u32,
    v: DepositV,
    n: int,
)
    requires
        0 <= n <= 0x1_0000_0000,
    ensures
        disputed_sum_below(m.insert(k, v), client, n) == disputed_sum_below(m, client, n) + if (
        k as int) < n {
            disputed_amt_of(m.insert(k, v), client, k) - disputed_amt_of(m, client, k)
        } else {
            0
        },
    decreases n,
{
    if n > 0 {
        lemma_disputed_sum_insert(m, client, k, v, n - 1);
    }
}

/// A partial deposit-sum of bounded deposits lies between 0 and the number
/// of candidate ids times the largest amount.
pub proof fn lemma_deposit_sum_bounds(m: Map<u32, DepositV>, n: int)
    requires
        0 <= n,
        deposits_bounded(m),
    ensures
        0 <= deposit_sum_below(m, n) <= n * (i64::MAX as int),
    decreases n,
{
    if n > 0 {
        lemma_deposit_sum_bounds(m, n - 1);
    }
}

/// The total of all deposit amounts is nonnegative and comfortably inside
/// the range of an `i128`.
pub proof fn lemma_deposit_total_bounds(m: Map<u32, DepositV>)
    requires
        deposits_bounded(m),
    ensures
        0 <= deposit_total(m) <= 0x1_0000_0000 * (i64::MAX as int),
{
    lemma_deposit_sum_bounds(m, 0x1_0000_0000);
}

/// A partial disputed-sum is nonnegative and no more than the deposit-sum
/// over the same ids.
pub proof fn lemma_disputed_sum_le(m: Map<u32, DepositV>, client: u16, n: int)
    requires
        0 <= n,
        deposits_bounded(m),
    ensures
        0 <= disputed_sum_below(m, client, n) <= deposit_sum_below(m, n),
    decreases n,
{
    if n > 0 {
        lemma_disputed_sum_le(m, client, n - 1);
    }
}

/// A deposit of the client that is not currently disputed still fits over
/// its client's disputed-sum within the deposit-sum: disputing it cannot
/// push the held balance past the total of all deposits.
pub proof fn lemma_disputed_sum_plus_undisputed(m: Map<u32, DepositV>, client: u16, tx: u32, n: int)
    requires
        0 <= n <= 0x1_0000_0000,
        (tx as int) < n,
        deposits_bounded(m),
        m.contains_key(tx),
        m[tx].client == client,
        !m[tx].disputed,
    ensures
        disputed_sum_below(m, client, n) + m[tx].amount <= deposit_sum_below(m, n),
    decreases n,
{
    if (tx as int) == n - 1 {
        lemma_disputed_sum_le(m, client, n - 1);
    } else {
        lemma_disputed_sum_plus_undisputed(m, client, tx, n - 1);
    }
}

/// A client without any recorded deposit has a disputed-sum of zero.
pub proof fn lemma_disputed_sum_zero(m: Map<u32, DepositV>, client: u16, n: int)
    requires
        forall|t: u32| #[trigger] m.contains_key(t) ==> m[t].client != client,
    ensures
        disputed_sum_below(m, client, n) == 0,
    decreases n,
{
    if n > 0 {
        lemma_disputed_sum_zero(m, client, n - 1);
    }
}

/// The amount of one currently disputed deposit is at most its client's
/// disputed-sum.
pub proof fn lemma_disputed_elem_le(m: Map<u32, DepositV>, client: u16, tx: u32, n: int)
    requires
        0 <= n <= 0x1_0000_0000,
        (tx as int) < n,
        deposits_bounded(m),
        m.contains_key(tx),
        m[tx].client == client,
        m[tx].disputed,
    ensures
        m[tx].amount <= disputed_sum_below(m, client, n),
    decreases n,
{
    if (tx as int) == n - 1 {
        lemma_disputed_sum_le(m, client, n - 1);
    } else {
        lemma_disputed_elem_le(m, client, tx, n - 1);
        if m.contains_key((n - 1) as u32) {
            assert(m[(n - 1) as u32].amount > 0);
        }
    }
}

/// A deposit preserves every ledger invariant.
pub proof fn lemma_wf_deposit(s: LedgerV, client: u16, tx: u32, a: int)
    requires
        ledger_wf(s),
        a <= i64::MAX as int,
    ensures
        ledger_wf(spec_deposit(s, client, tx, a).0),
{
    if 0 < a && !s.processed.contains(tx) {
        let s2 = spec_deposit(s, client, tx, a).0;
        let dnew = DepositV { client, amount: a, disputed: false };
        let m2 = s.deposits.insert(tx, dnew);
        assert(!s.deposits.contains_key(tx));
        lemma_deposit_total_bounds(s.deposits);
        lemma_deposit_sum_insert(s.deposits, tx, dnew, 0x1_0000_0000);
        assert(deposit_total(m2) == deposit_total(s.deposits) + a);
        assert forall|c: u16| disputed_total(m2, c) == disputed_total(s.deposits, c) by {
            lemma_disputed_sum_insert(s.deposits, c, tx, dnew, 0x1_0000_0000);
        }
        if !s.accounts.contains_key(client) {
            assert forall|t: u32| #[trigger]
                s.deposits.contains_key(t) implies s.deposits[t].client != client by {}
            lemma_disputed_sum_zero(s.deposits, client, 0x1_0000_0000);
        }
        assert(ledger_wf(s2));
    }
}

/// A withdrawal preserves every ledger invariant.
pub proof fn lemma_wf_withdrawal(s: LedgerV, client: u16, tx: u32, a: int)
    requires
        ledger_wf(s),
    ensures
        ledger_wf(spec_withdrawal(s, client, tx, a).0),
{
    if 0 < a && !s.processed.contains(tx) && s.accounts.contains_key(client) && s.accounts[client].available >= a {
        let s2 = spec_withdrawal(s, client, tx, a).0;
        lemma_deposit_total_bounds(s.deposits);
        lemma_disputed_sum_le(s.deposits, client, 0x1_0000_0000);
        assert(ledger_wf(s2));
    }
}

/// A dispute against an unlocked account preserves every ledger invariant.
/// The dispatcher checks the lock before anything else, so no other state
/// reaches this operation.
pub proof fn lemma_wf_dispute(s: LedgerV, client: u16, tx: u32)
    requires
        ledger_wf(s),
        s.accounts.contains_key(client) ==> !s.accounts[client].locked,
    ensures
        ledger_wf(spec_dispute(s, client, tx).0),
{
    if s.deposits.contains_key(tx) && s.deposits[tx].client == client && !s.deposits[tx].disputed {
        let s2 = spec_dispute(s, client, tx).0;
        let d = s.deposits[tx];
        let d2 = DepositV { client: d.client, amount: d.amount, disputed: true };
        let m2 = s.deposits.insert(tx, d2);
        lemma_deposit_sum_insert(s.deposits, tx, d2, 0x1_0000_0000);
        assert(deposit_total(m2) == deposit_total(s.deposits));
        assert forall|c: u16| c != client implies disputed_total(m2, c) == disputed_total(
            s.deposits,
            c,
        ) by {
            lemma_disputed_sum_insert(s.deposits, c, tx, d2, 0x1_0000_0000);
        }
        lemma_disputed_sum_insert(s.deposits, client, tx, d2, 0x1_0000_0000);
        assert(disputed_total(m2, client) == disputed_total(s.deposits, client) + d.amount);
        lemma_disputed_sum_plus_undisputed(s.deposits, client, tx, 0x1_0000_0000);
        assert(ledger_wf(s2));
    }
}

/// A resolve against an unlocked account preserves every ledger invariant.
pub proof fn lemma_wf_resolve(s: LedgerV, client: u16, tx: u32)
    requires
        ledger_wf(s),
        s.accounts.contains_key(client) ==> !s.accounts[client].locked,
    ensures
        ledger_wf(spec_resolve(s, client, tx).0),
{
    if s.deposits.contains_key(tx) && s.deposits[tx].client == client && s.deposits[tx].disputed {
        let s2 = spec_resolve(s, client, tx).0;
        let d = s.deposits[tx];
        let d2 = DepositV { client: d.client, amount: d.amount, disputed: false };
        let m2 = s.deposits.insert(tx, d2);
        lemma_deposit_sum_insert(s.deposits, tx, d2, 0x1_0000_0000);
        assert(deposit_total(m2) == deposit_total(s.deposits));
        assert forall|c: u16| c != client implies disputed_total(m2, c) == disputed_total(
            s.deposits,
            c,
        ) by {
            lemma_disputed_sum_insert(s.deposits, c, tx, d2, 0x1_0000_0000);
        }
        lemma_disputed_sum_insert(s.deposits, client, tx, d2, 0x1_0000_0000);
        assert(disputed_total(m2, client) == disputed_total(s.deposits, client) - d.amount);
        lemma_disputed_elem_le(s.deposits, client, tx, 0x1_0000_0000);
        assert(ledger_wf(s2));
    }
}

/// A chargeback against an unlocked account preserves every ledger
/// invariant; the account comes out locked.
pub proof fn lemma_wf_chargeback(s: LedgerV, client: u16, tx: u32)
    requires
        ledger_wf(s),
        s.accounts.contains_key(client) ==> !s.accounts[client].locked,
    ensures
        ledger_wf(spec_chargeback(s, client, tx).0),
{
    if s.deposits.contains_key(tx) && s.deposits[tx].client == client && s.deposits[tx].disputed {
        let s2 = spec_chargeback(s, client, tx).0;
        let d = s.deposits[tx];
        let d2 = DepositV { client: d.client, amount: d.amount, disputed: false };
        let m2 = s.deposits.insert(tx, d2);
        lemma_deposit_sum_insert(s.deposits, tx, d2, 0x1_0000_0000);
        assert(deposit_total(m2) == deposit_total(s.deposits));
        assert forall|c: u16| c != client implies disputed_total(m2, c) == disputed_total(
            s.deposits,
            c,
        ) by {
            lemma_disputed_sum_insert(s.deposits, c, tx, d2, 0x1_0000_0000);
        }
        lemma_disputed_sum_insert(s.deposits, client, tx, d2, 0x1_0000_0000);
        assert(disputed_total(m2, client) == disputed_total(s.deposits, client) - d.amount);
        lemma_disputed_elem_le(s.deposits, client, tx, 0x1_0000_0000);
        assert(ledger_wf(s2));
    }
}

/// One step of the ledger state machine preserves every invariant.
pub proof fn lemma_wf_step(s: LedgerV, t: Transaction)
    requires
        ledger_wf(s),
    ensures
        ledger_wf(spec_step(s, t).0),
{
    if !(s.accounts.contains_key(t.client) && s.accounts[t.client].locked) {
        match t.tx_type {
            TransactionType::Deposit => match t.amount {
                Some(a) => lemma_wf_deposit(s, t.client, t.tx, a as int),
                None => {},
            },
            TransactionType::Withdrawal => match t.amount {
                Some(a) => lemma_wf_withdrawal(s, t.client, t.tx, a as int),
                None => {},
            },
            TransactionType::Dispute => lemma_wf_dispute(s, t.client, t.tx),
            TransactionType::Resolve => lemma_wf_resolve(s, t.client, t.tx),
            TransactionType::Chargeback => lemma_wf_chargeback(s, t.client, t.tx),
        }
    }
}

/// Every ledger reached from the initial state by a sequence of
/// transactions satisfies the invariants.
pub proof fn lemma_run_ledger_wf(ts: Seq<Transaction>)
    ensures
        ledger_wf(run_ledger(ts)),
    decreases ts.len(),
{
    if ts.len() == 0 {
        assert(ledger_wf(init_ledger()));
    } else {
        lemma_run_ledger_wf(ts.drop_last());
        lemma_wf_step(run_ledger(ts.drop_last()), ts.last());
    }
}

} // verus!
