//! Transaction records as the engine consumes them, and account rows as the
//! run emits them.

use vstd::prelude::*;

use crate::accounts::Account;
use crate::accounts::AccountV;
use crate::amount::dec_digits;
use crate::amount::format_units;
use crate::amount::parse_amount;
use crate::amount::parse_uint;
use crate::amount::push_dec_digits;
use crate::amount::spec_format_units;
use crate::amount::spec_parse_amount;
use crate::amount::spec_parse_uint;
use crate::error::ParseError;

verus! {

/// The five kinds of transaction. The set is closed; the engine dispatches
/// by exhaustive matching.
#[derive(Clone, Copy, Debug, PartialEq, Eq, Structural)]
pub enum TransactionType {
    Deposit,
    Withdrawal,
    Dispute,
    Resolve,
    Chargeback,
}

/// One well-typed transaction record. The amount is in units of 1/10000 and
/// is only present for deposits and withdrawals; a deposit or withdrawal
/// without an amount is rejected as `InvalidTransaction`.
#[derive(Clone, Copy, Debug, PartialEq, Eq)]
pub struct Transaction {
    pub tx_type: TransactionType,
    pub client: u16,
    pub tx: u32,
    pub amount: Option<i64>,
}

/// The mathematical value of an output row.
pub ghost struct AccountRowV {
    pub client: u16,
    pub available: int,
    pub held: int,
    pub total: int,
    pub locked: bool,
}

/// One output row: the final state of one account, with the derived total.
#[derive(Clone, Copy, Debug, PartialEq, Eq)]
pub struct AccountRow {
    pub client: u16,
    pub available: i128,
    pub held: i128,
    pub total: i128,
    pub locked: bool,
}

impl View for AccountRow {
    type V = AccountRowV;

    open spec fn view(&self) -> AccountRowV {
        AccountRowV {
            client: self.client,
            available: self.available as int,
            held: self.held as int,
            total: self.total as int,
            locked: self.locked,
        }
    }
}

/// The output row that belongs to an account: same balances, derived total.
pub open spec fn row_of(a: AccountV) -> AccountRowV {
    AccountRowV {
        client: a.id,
        available: a.available,
        held: a.held,
        total: a.available + a.held,
        locked: a.locked,
    }
}

impl AccountRow {
    /// Builds the output row of an account; `total` is derived as
    /// `available + held`.
    pub fn from(account: &Account) -> (r: AccountRow)
        requires
            i128::MIN <= account@.available + account@.held <= i128::MAX,
        ensures
            r.client == account.id,
            r.available == account.available,
            r.held == account.held,
            r.total == account@.available + account@.held,
            r.locked == account.locked,
            r@ == row_of(account@),
    {
        AccountRow {
            client: account.id,
            available: account.available,
            held: account.held,
            total: account.total(),
            locked: account.locked,
        }
    }
}

/// The type tag grammar: exactly one of the five lowercase tag words.
pub open spec fn spec_parse_type(s: Seq<u8>) -> Option<TransactionType> {
    if s == seq![100u8, 101, 112, 111, 115, 105, 116] {
        Some(TransactionType::Deposit)
    } else if s == seq![119u8, 105, 116, 104, 100, 114, 97, 119, 97, 108] {
        Some(TransactionType::Withdrawal)
    } else if s == seq![100u8, 105, 115, 112, 117, 116, 101] {
        Some(TransactionType::Dispute)
    } else if s == seq![114u8, 101, 115, 111, 108, 118, 101] {
        Some(TransactionType::Resolve)
    } else if s == seq![99u8, 104, 97, 114, 103, 101, 98, 97, 99, 107] {
        Some(TransactionType::Chargeback)
    } else {
        None
    }
}

/// Reads the type tag of a row: `deposit`, `withdrawal`, `dispute`,
/// `resolve` or `chargeback`, nothing else.
pub fn parse_type(s: &Vec<u8>) -> (r: Option<TransactionType>)
    ensures
        r == spec_parse_type(s@),
{
    if s.len() == 7 && s[0] == 100 && s[1] == 101 && s[2] == 112 && s[3] == 111 && s[4] == 115
        && s[5] == 105 && s[6] == 116 {
        proof {
            assert(s@ =~= seq![100u8, 101, 112, 111, 115, 105, 116]);
        }
        return Some(TransactionType::Deposit);
    }
    if s.len() == 10 && s[0] == 119 && s[1] == 105 && s[2] == 116 && s[3] == 104 && s[4] == 100
        && s[5] == 114 && s[6] == 97 && s[7] == 119 && s[8] == 97 && s[9] == 108 {
        proof {
            assert(s@ =~= seq![119u8, 105, 116, 104, 100, 114, 97, 119, 97, 108]);
        }
        return Some(TransactionType::Withdrawal);
    }
    if s.len() == 7 && s[0] == 100 && s[1] == 105 && s[2] == 115 && s[3] == 112 && s[4] == 117
        && s[5] == 116 && s[6] == 101 {
        proof {
            assert(s@ =~= seq![100u8, 105, 115, 112, 117, 116, 101]);
        }
        return Some(TransactionType::Dispute);
    }
    if s.len() == 7 && s[0] == 114 && s[1] == 101 && s[2] == 115 && s[3] == 111 && s[4] == 108
        && s[5] == 118 && s[6] == 101 {
        proof {
            assert(s@ =~= seq![114u8, 101, 115, 111, 108, 118, 101]);
        }
        return Some(TransactionType::Resolve);
    }
    if s.len() == 10 && s[0] == 99 && s[1] == 104 && s[2] == 97 && s[3] == 114 && s[4] == 103
        && s[5] == 101 && s[6] == 98 && s[7] == 97 && s[8] == 99 && s[9] == 107 {
        proof {
            assert(s@ =~= seq![99u8, 104, 97, 114, 103, 101, 98, 97, 99, 107]);
        }
        return Some(TransactionType::Chargeback);
    }
    None
}

/// The row grammar: exactly four fields — type tag, client id, transaction
/// id, amount — each failing with its own ingress error.
pub open spec fn spec_parse_record(fields: Seq<Seq<u8>>) -> Result<Transaction, ParseError> {
    if fields.len() != 4 {
        Err(ParseError::WrongFieldCount)
    } else {
        match spec_parse_type(fields[0]) {
            None => Err(ParseError::BadTransactionType),
            Some(tx_type) => match spec_parse_uint(fields[1], 0xffff) {
                None => Err(ParseError::BadClientId),
                Some(client) => match spec_parse_uint(fields[2], 0xffff_ffff) {
                    None => Err(ParseError::BadTransactionId),
                    Some(tx) => match spec_parse_amount(fields[3]) {
                        None => Err(ParseError::BadAmount),
                        Some(amount) => Ok(
                            Transaction {
                                tx_type,
                                client: client as u16,
                                tx: tx as u32,
                                amount,
                            },
                        ),
                    },
                },
            },
        }
    }
}

/// Turns one row of raw fields into a transaction record. Any failure here
/// is an ingress error: unlike a business-rule rejection it is fatal to the
/// run, since the input stream can no longer be trusted.
pub fn parse_record(fields: &Vec<Vec<u8>>) -> (r: Result<Transaction, ParseError>)
    ensures
        r == spec_parse_record(fields@.map_values(|f: Vec<u8>| f@)),
{
    if fields.len() != 4 {
        return Err(ParseError::WrongFieldCount);
    }
    let tx_type = match parse_type(&fields[0]) {
        Some(tx_type) => tx_type,
        None => {
            return Err(ParseError::BadTransactionType);
        },
    };
    let client = match parse_uint(&fields[1], 0xffff) {
        Some(client) => client,
        None => {
            return Err(ParseError::BadClientId);
        },
    };
    let tx = match parse_uint(&fields[2], 0xffff_ffff) {
        Some(tx) => tx,
        None => {
            return Err(ParseError::BadTransactionId);
        },
    };
    let amount = match parse_amount(&fields[3]) {
        Some(amount) => amount,
        None => {
            return Err(ParseError::BadAmount);
        },
    };
    Ok(Transaction { tx_type, client: client as u16, tx: tx as u32, amount })
}

/// The serialized form of the lock flag.
pub open spec fn spec_bool_bytes(b: bool) -> Seq<u8> {
    if b {
        seq![116u8, 114, 117, 101]
    } else {
        seq![102u8, 97, 108, 115, 101]
    }
}

/// One output line without its newline: client, available, held, total and
/// the lock flag, comma-separated, the balances in canonical decimal form.
pub open spec fn spec_row_bytes(r: AccountRowV) -> Seq<u8> {
    dec_digits(r.client as nat) + seq![44u8] + spec_format_units(r.available) + seq![44u8]
        + spec_format_units(r.held) + seq![44u8] + spec_format_units(r.total) + seq![44u8]
        + spec_bool_bytes(r.locked)
}

/// Serializes one output row.
pub fn row_bytes(row: &AccountRow) -> (out: Vec<u8>)
    ensures
        out@ == spec_row_bytes(row@),
{
    let mut out: Vec<u8> = Vec::new();
    push_dec_digits(&mut out, row.client as u128);
    out.push(44);
    let mut available = format_units(row.available);
    out.append(&mut available);
    out.push(44);
    let mut held = format_units(row.held);
    out.append(&mut held);
    out.push(44);
    let mut total = format_units(row.total);
    out.append(&mut total);
    out.push(44);
    if row.locked {
        out.push(116);
        out.push(114);
        out.push(117);
        out.push(101);
    } else {
        out.push(102);
        out.push(97);
        out.push(108);
        out.push(115);
        out.push(101);
    }
    proof {
        assert(out@ =~= spec_row_bytes(row@));
    }
    out
}

/// The output header line.
pub open spec fn spec_header() -> Seq<u8> {
    seq![
        99u8,
        108,
        105,
        101,
        110,
        116,
        44,
        97,
        118,
        97,
        105,
        108,
        97,
        98,
        108,
        101,
        44,
        104,
        101,
        108,
        100,
        44,
        116,
        111,
        116,
        97,
        108,
        44,
        108,
        111,
        99,
        107,
        101,
        100,
        10,
    ]
}

/// The serialized rows, one line each, in the given order.
pub open spec fn spec_render_rows(rs: Seq<AccountRowV>) -> Seq<u8>
    decreases rs.len(),
{
    if rs.len() == 0 {
        Seq::<u8>::empty()
    } else {
        spec_render_rows(rs.drop_last()) + spec_row_bytes(rs.last()) + seq![10u8]
    }
}

/// The whole output: the header line, then one line per row.
pub open spec fn spec_render(rs: Seq<AccountRowV>) -> Seq<u8> {
    spec_header() + spec_render_rows(rs)
}

/// Serializes the whole output: the header line, then one line per row, in
/// the given order.
#[verifier::loop_isolation(false)]
pub fn render_output(rows: &Vec<AccountRow>) -> (out: Vec<u8>)
    ensures
        out@ == spec_render(rows@.map_values(|r: AccountRow| r@)),
{
    let mut out: Vec<u8> = Vec::new();
    out.push(99);
    out.push(108);
    out.push(105);
    out.push(101);
    out.push(110);
    out.push(116);
    out.push(44);
    out.push(97);
    out.push(118);
    out.push(97);
    out.push(105);
    out.push(108);
    out.push(97);
    out.push(98);
    out.push(108);
    out.push(101);
    out.push(44);
    out.push(104);
    out.push(101);
    out.push(108);
    out.push(100);
    out.push(44);
    out.push(116);
    out.push(111);
    out.push(116);
    out.push(97);
    out.push(108);
    out.push(44);
    out.push(108);
    out.push(111);
    out.push(99);
    out.push(107);
    out.push(101);
    out.push(100);
    out.push(10);
    proof {
        assert(out@ =~= spec_header());
    }
    let ghost rs = rows@.map_values(|r: AccountRow| r@);
    let mut i: usize = 0;
    proof {
        assert(rs.take(0) =~= Seq::<AccountRowV>::empty());
        assert(out@ =~= spec_header() + spec_render_rows(rs.take(0)));
    }
    while i < rows.len()
        invariant
            i <= rows@.len(),
            out@ == spec_header() + spec_render_rows(rs.take(i as int)),
        decreases rows@.len() - i,
    {
        let mut line = row_bytes(&rows[i]);
        out.append(&mut line);
        out.push(10);
        proof {
            assert(rs.take(i + 1).drop_last() =~= rs.take(i as int));
            assert(rs.take(i + 1).last() == rs[i as int]);
            assert(out@ =~= spec_header() + spec_render_rows(rs.take(i + 1)));
        }
        i += 1;
    }
    proof {
        assert(rs.take(rows@.len() as int) =~= rs);
    }
    out
}

} // verus!
