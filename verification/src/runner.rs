//! Runs the whole pipeline on parsed records: feeds an ordered sequence of
//! transactions into a fresh engine and drains the final account rows.
//!
//! Business-rule rejections are local: the failing transaction leaves the
//! ledger unchanged and the run continues. Producing the transactions —
//! reading a file, parsing rows — and writing the rows out is the caller's
//! business; an unparsable row must abort the run before output is emitted.

use vstd::prelude::*;

use crate::accounts::Account;
use crate::accounts::AccountV;
use crate::accounts::accounts_in_order;
use crate::accounts::lemma_accounts_in_order_elems;
use crate::engine::Engine;
use crate::ledger::lemma_deposit_total_bounds;
use crate::ledger::lemma_disputed_sum_le;
use crate::ledger::run_ledger;
use crate::record::AccountRow;
use crate::record::AccountRowV;
use crate::record::Transaction;
use crate::record::row_of;

verus! {

/// Applies the transactions in order against a fresh engine, skipping over
/// business-rule rejections, and returns one row per known client, sorted
/// ascending by client id, with `total` derived as `available + held`.
pub fn run(transactions: &Vec<Transaction>) -> (rows: Vec<AccountRow>)
    ensures
        rows@.map_values(|r: AccountRow| r@) == accounts_in_order(
            run_ledger(transactions@).accounts,
        ).map_values(|a: AccountV| row_of(a)),
{
    let mut engine = Engine::new();
    proof {
        assert(transactions@.take(0) =~= Seq::<Transaction>::empty());
    }
    let mut i: usize = 0;
    while i < transactions.len()
        invariant
            i <= transactions@.len(),
            engine.wf(),
            engine@ == run_ledger(transactions@.take(i as int)),
        decreases transactions@.len() - i,
    {
        let transaction = transactions[i];
        let _ = engine.process_transaction(transaction);
        proof {
            assert(transactions@.take(i + 1).drop_last() =~= transactions@.take(i as int));
            assert(transactions@.take(i + 1).last() == transaction);
        }
        i += 1;
    }
    proof {
        assert(transactions@.take(transactions@.len() as int) =~= transactions@);
    }
    let ghost s = run_ledger(transactions@);
    let accounts = engine.accounts();
    proof {
        lemma_deposit_total_bounds(s.deposits);
        let bounded = (|a: AccountV| i128::MIN <= a.available + a.held <= i128::MAX);
        assert forall|c: u16| #[trigger] s.accounts.contains_key(c) implies bounded(
            s.accounts[c],
        ) by {
            lemma_disputed_sum_le(s.deposits, c, 0x1_0000_0000);
        }
        lemma_accounts_in_order_elems(s.accounts, 0x10000, bounded);
        assert forall|k: int| 0 <= k < accounts_in_order(s.accounts).len() implies i128::MIN <= (
        #[trigger] accounts_in_order(s.accounts)[k]).available + accounts_in_order(
            s.accounts,
        )[k].held <= i128::MAX by {
            assert(bounded(accounts_in_order(s.accounts)[k]));
        }
    }
    let mut rows: Vec<AccountRow> = Vec::new();
    let mut j: usize = 0;
    proof {
        assert(rows@.map_values(|r: AccountRow| r@) =~= accounts_in_order(s.accounts).map_values(
            |a: AccountV| row_of(a),
        ).take(0));
    }
    while j < accounts.len()
        invariant
            j <= accounts@.len(),
            accounts@.map_values(|a: Account| a@) == accounts_in_order(s.accounts),
            forall|k: int|
                0 <= k < accounts_in_order(s.accounts).len() ==> i128::MIN <= (
                #[trigger] accounts_in_order(s.accounts)[k]).available + accounts_in_order(
                    s.accounts,
                )[k].held <= i128::MAX,
            rows@.map_values(|r: AccountRow| r@) == accounts_in_order(s.accounts).map_values(
                |a: AccountV| row_of(a),
            ).take(j as int),
        decreases accounts@.len() - j,
    {
        let account = accounts[j];
        proof {
            assert(account@ == accounts_in_order(s.accounts)[j as int]);
        }
        let ghost prev_rows = rows@;
        let row = AccountRow::from(&account);
        rows.push(row);
        proof {
            let mapped = accounts_in_order(s.accounts).map_values(|a: AccountV| row_of(a));
            assert(rows@ == prev_rows.push(row));
            assert(mapped[j as int] == row_of(accounts_in_order(s.accounts)[j as int]));
            assert(row@ == mapped[j as int]);
            assert(mapped.take(j + 1) =~= mapped.take(j as int).push(mapped[j as int]));
            assert(rows@.map_values(|r: AccountRow| r@) =~= mapped.take(j + 1));
        }
        j += 1;
    }
    proof {
        let mapped = accounts_in_order(s.accounts).map_values(|a: AccountV| row_of(a));
        assert(mapped.take(accounts@.len() as int) =~= mapped);
    }
    rows
}

} // verus!
