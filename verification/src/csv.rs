//! The CSV face of the ledger: parsing transaction rows from bytes and
//! rendering the final account report to bytes.
//!
//! The input format is `type,client,tx,amount` with a header row, flexible
//! column counts (the amount may be missing or empty), blanks tolerated
//! around every cell, and one record per nonempty line. The output format is
//! `client,available,held,total,locked`, one row per account, amounts capped
//! at four fractional digits.

use vstd::prelude::*;
use crate::account::{spec_rescaled_to_max_precision, Account};
use crate::amount::Amount;
use crate::common::ClientId;
use crate::text::{
    amount_bytes, dec_digits, parse_amount, parse_amount_spec, parse_u16, parse_u16_spec,
    parse_u32, parse_u32_spec, push_amount_bytes, push_dec_digits, split_bytes, split_on, trim,
    trimmed,
};
use crate::transaction::{Transaction as EngineTransaction, TransactionId, TransactionInfo};

verus! {

/// The different transaction kinds a CSV row can carry.
#[derive(Debug, Clone, Copy, PartialEq, Eq, Structural)]
pub enum TransactionKind {
    /// Credit to the client's asset account.
    Deposit,
    /// Debit to the client's asset account.
    Withdrawal,
    /// Represents a client's claim that a transaction was erroneous and
    /// should be reversed.
    Dispute,
    /// Represents a resolution to a dispute, releasing the associated held
    /// funds.
    Resolve,
    /// Represents the client reversing a transaction after a dispute.
    ChargeBack,
}

/// Represents a client's account transaction, as a CSV row carries it.
#[derive(Debug, Clone, Copy, PartialEq)]
pub struct Transaction {
    /// The transaction kind (the `type` column).
    pub kind: TransactionKind,
    /// The client id (the `client` column).
    pub client_id: ClientId,
    /// The transaction id (the `tx` column).
    pub id: TransactionId,
    /// The amount, informed only for deposits and withdrawals (the `amount`
    /// column).
    pub amount: Option<Amount>,
}

/// Why a CSV row could not be turned into a transaction.
#[derive(Debug, Clone, Copy, PartialEq, Eq, Structural)]
pub enum CsvError {
    /// The `type` cell is not one of the five known kinds.
    UnknownKind,
    /// A required cell is missing from the row.
    MissingColumn,
    /// The `client` cell is not a 16-bit unsigned integer.
    BadClient,
    /// The `tx` cell is not a 32-bit unsigned integer.
    BadTransactionId,
    /// The `amount` cell is not a representable decimal.
    BadAmount,
}

/// The bytes of `deposit`.
pub open spec fn deposit_name() -> Seq<u8> {
    seq![100u8, 101u8, 112u8, 111u8, 115u8, 105u8, 116u8]
}

/// The bytes of `withdrawal`.
pub open spec fn withdrawal_name() -> Seq<u8> {
    seq![119u8, 105u8, 116u8, 104u8, 100u8, 114u8, 97u8, 119u8, 97u8, 108u8]
}

/// The bytes of `dispute`.
pub open spec fn dispute_name() -> Seq<u8> {
    seq![100u8, 105u8, 115u8, 112u8, 117u8, 116u8, 101u8]
}

/// The bytes of `resolve`.
pub open spec fn resolve_name() -> Seq<u8> {
    seq![114u8, 101u8, 115u8, 111u8, 108u8, 118u8, 101u8]
}

/// The bytes of `chargeback`.
pub open spec fn chargeback_name() -> Seq<u8> {
    seq![99u8, 104u8, 97u8, 114u8, 103u8, 101u8, 98u8, 97u8, 99u8, 107u8]
}

/// The kind a `type` cell names: an exact, lowercase match of one of the
/// five kind names.
pub open spec fn kind_of(f: Seq<u8>) -> Option<TransactionKind> {
    if f == deposit_name() {
        Some(TransactionKind::Deposit)
    } else if f == withdrawal_name() {
        Some(TransactionKind::Withdrawal)
    } else if f == dispute_name() {
        Some(TransactionKind::Dispute)
    } else if f == resolve_name() {
        Some(TransactionKind::Resolve)
    } else if f == chargeback_name() {
        Some(TransactionKind::ChargeBack)
    } else {
        None
    }
}

/// `a` holds exactly the bytes of `pat`.
fn bytes_eq(a: &Vec<u8>, pat: &[u8]) -> (r: bool)
    ensures
        r == (a@ == pat@),
{
    if a.len() != pat.len() {
        proof {
            if a@ == pat@ {
                assert(a@.len() == pat@.len());
            }
        }
        return false;
    }
    let mut i: usize = 0;
    while i < a.len()
        invariant
            0 <= i <= a@.len(),
            a@.len() == pat@.len(),
            forall|k: int| 0 <= k < i ==> a@[k] == pat@[k],
        decreases a@.len() - i,
    {
        if a[i] != pat[i] {
            return false;
        }
        i = i + 1;
    }
    proof {
        assert(a@ =~= pat@);
    }
    true
}

/// Parses a `type` cell.
fn parse_kind(f: &Vec<u8>) -> (r: Option<TransactionKind>)
    ensures
        r == kind_of(f@),
{
    let deposit: [u8; 7] = [100u8, 101u8, 112u8, 111u8, 115u8, 105u8, 116u8];
    let withdrawal: [u8; 10] = [119u8, 105u8, 116u8, 104u8, 100u8, 114u8, 97u8, 119u8, 97u8, 108u8];
    let dispute: [u8; 7] = [100u8, 105u8, 115u8, 112u8, 117u8, 116u8, 101u8];
    let resolve: [u8; 7] = [114u8, 101u8, 115u8, 111u8, 108u8, 118u8, 101u8];
    let chargeback: [u8; 10] = [99u8, 104u8, 97u8, 114u8, 103u8, 101u8, 98u8, 97u8, 99u8, 107u8];
    proof {
        assert(deposit@ =~= deposit_name());
        assert(withdrawal@ =~= withdrawal_name());
        assert(dispute@ =~= dispute_name());
        assert(resolve@ =~= resolve_name());
        assert(chargeback@ =~= chargeback_name());
    }
    if bytes_eq(f, deposit.as_slice()) {
        Some(TransactionKind::Deposit)
    } else if bytes_eq(f, withdrawal.as_slice()) {
        Some(TransactionKind::Withdrawal)
    } else if bytes_eq(f, dispute.as_slice()) {
        Some(TransactionKind::Dispute)
    } else if bytes_eq(f, resolve.as_slice()) {
        Some(TransactionKind::Resolve)
    } else if bytes_eq(f, chargeback.as_slice()) {
        Some(TransactionKind::ChargeBack)
    } else {
        None
    }
}

/// The transaction a CSV record denotes, or why it denotes none: the cells
/// are trimmed, the kind must match exactly, `client` and `tx` must be
/// in-range unsigned integers, and the amount cell, when present and
/// nonempty, must be a representable decimal.
pub open spec fn parse_row_spec(line: Seq<u8>) -> Result<Transaction, CsvError> {
    let fs = split_on(line, 44u8).map_values(|f: Seq<u8>| trimmed(f));
    match kind_of(fs[0]) {
        None => Err(CsvError::UnknownKind),
        Some(kind) => if fs.len() < 2 {
            Err(CsvError::MissingColumn)
        } else {
            match parse_u16_spec(fs[1]) {
                None => Err(CsvError::BadClient),
                Some(client_id) => if fs.len() < 3 {
                    Err(CsvError::MissingColumn)
                } else {
                    match parse_u32_spec(fs[2]) {
                        None => Err(CsvError::BadTransactionId),
                        Some(id) => if fs.len() >= 4 && fs[3].len() > 0 {
                            match parse_amount_spec(fs[3]) {
                                None => Err(CsvError::BadAmount),
                                Some(amount) => Ok(
                                    Transaction { kind, client_id, id, amount: Some(amount) },
                                ),
                            }
                        } else {
                            Ok(Transaction { kind, client_id, id, amount: None })
                        },
                    }
                },
            }
        },
    }
}

/// Parses one CSV record into a row transaction.
pub fn parse_row(line: &Vec<u8>) -> (r: Result<Transaction, CsvError>)
    ensures
        r == parse_row_spec(line@),
        r matches Ok(tx) ==> (tx.amount matches Some(a) ==> a.wf()),
{
    let raw = split_bytes(line.as_slice(), 44u8);
    let ghost fs = split_on(line@, 44u8).map_values(|f: Seq<u8>| trimmed(f));
    proof {
        crate::text::lemma_split_on_nonempty(line@, 44u8);
        assert(raw@.map_values(|f: Vec<u8>| f@)[0] == raw@[0]@);
    }
    let f0 = trim(raw[0].as_slice());
    let kind = match parse_kind(&f0) {
        Some(k) => k,
        None => {
            return Err(CsvError::UnknownKind);
        },
    };
    if raw.len() < 2 {
        return Err(CsvError::MissingColumn);
    }
    proof {
        assert(raw@.map_values(|f: Vec<u8>| f@)[1] == raw@[1]@);
    }
    let f1 = trim(raw[1].as_slice());
    let client_id = match parse_u16(f1.as_slice()) {
        Some(c) => c,
        None => {
            return Err(CsvError::BadClient);
        },
    };
    if raw.len() < 3 {
        return Err(CsvError::MissingColumn);
    }
    proof {
        assert(raw@.map_values(|f: Vec<u8>| f@)[2] == raw@[2]@);
    }
    let f2 = trim(raw[2].as_slice());
    let id = match parse_u32(f2.as_slice()) {
        Some(t) => t,
        None => {
            return Err(CsvError::BadTransactionId);
        },
    };
    if raw.len() >= 4 {
        proof {
            assert(raw@.map_values(|f: Vec<u8>| f@)[3] == raw@[3]@);
        }
        let f3 = trim(raw[3].as_slice());
        if f3.len() > 0 {
            let amount = match parse_amount(f3.as_slice()) {
                Some(a) => a,
                None => {
                    return Err(CsvError::BadAmount);
                },
            };
            return Ok(Transaction { kind, client_id, id, amount: Some(amount) });
        }
    }
    Ok(Transaction { kind, client_id, id, amount: None })
}

/// The engine transaction a CSV row denotes; a missing amount is a zero
/// amount, and a parsed deposit is never under dispute.
pub open spec fn spec_engine_transaction(tx: Transaction) -> EngineTransaction {
    let info = TransactionInfo { id: tx.id, client_id: tx.client_id };
    let amount = match tx.amount {
        Some(a) => a,
        None => Amount { mantissa: 0, scale: 0 },
    };
    match tx.kind {
        TransactionKind::Deposit => EngineTransaction::Deposit {
            info,
            amount,
            under_dispute: false,
        },
        TransactionKind::Withdrawal => EngineTransaction::Withdrawal { info, amount },
        TransactionKind::Dispute => EngineTransaction::Dispute { info },
        TransactionKind::Resolve => EngineTransaction::Resolve { info },
        TransactionKind::ChargeBack => EngineTransaction::ChargeBack { info },
    }
}

impl From<Transaction> for EngineTransaction {
    /// The engine transaction the row denotes.
    fn from(tx: Transaction) -> (r: EngineTransaction) {
        let info = TransactionInfo::new(tx.id, tx.client_id);
        match tx.kind {
            TransactionKind::Deposit => EngineTransaction::Deposit {
                info,
                amount: match tx.amount {
                    Some(a) => a,
                    None => Amount::zero(),
                },
                under_dispute: false,
            },
            TransactionKind::Withdrawal => EngineTransaction::Withdrawal {
                info,
                amount: match tx.amount {
                    Some(a) => a,
                    None => Amount::zero(),
                },
            },
            TransactionKind::Dispute => EngineTransaction::Dispute { info },
            TransactionKind::Resolve => EngineTransaction::Resolve { info },
            TransactionKind::ChargeBack => EngineTransaction::ChargeBack { info },
        }
    }
}

impl vstd::std_specs::convert::FromSpecImpl<Transaction> for EngineTransaction {
    open spec fn obeys_from_spec() -> bool {
        true
    }

    open spec fn from_spec(v: Transaction) -> EngineTransaction {
        spec_engine_transaction(v)
    }
}

/// `l` without one trailing carriage return, as a line of a file with
/// `\r\n` endings has one.
pub open spec fn strip_cr(l: Seq<u8>) -> Seq<u8> {
    if l.len() > 0 && l.last() == 13 {
        l.drop_last()
    } else {
        l
    }
}

/// The records among `lines`: each without its trailing carriage return,
/// the empty ones skipped.
pub open spec fn spec_records(lines: Seq<Seq<u8>>) -> Seq<Seq<u8>>
    decreases lines.len(),
{
    if lines.len() == 0 {
        Seq::empty()
    } else {
        let rest = spec_records(lines.drop_last());
        let r = strip_cr(lines.last());
        if r.len() > 0 {
            rest.push(r)
        } else {
            rest
        }
    }
}

/// The records of a CSV input: its nonempty lines.
pub open spec fn csv_records(input: Seq<u8>) -> Seq<Seq<u8>> {
    spec_records(split_on(input, 10u8))
}

/// The engine transaction a CSV record denotes, or the error it meets.
pub open spec fn record_transaction(line: Seq<u8>) -> Result<EngineTransaction, CsvError> {
    match parse_row_spec(line) {
        Ok(row) => Ok(spec_engine_transaction(row)),
        Err(e) => Err(e),
    }
}

/// The parses of a sequence of records, in order.
pub open spec fn parsed_rows(rows: Seq<Seq<u8>>) -> Seq<Result<EngineTransaction, CsvError>>
    decreases rows.len(),
{
    if rows.len() == 0 {
        Seq::empty()
    } else {
        parsed_rows(rows.drop_last()).push(record_transaction(rows.last()))
    }
}

/// What a whole CSV input denotes: the first record is the header and is
/// skipped; every further record denotes a transaction or a parse error.
pub open spec fn parse_all_spec(input: Seq<u8>) -> Seq<Result<EngineTransaction, CsvError>> {
    let rs = csv_records(input);
    if rs.len() == 0 {
        Seq::empty()
    } else {
        parsed_rows(rs.drop_first())
    }
}

/// The first `hi` bytes of `v`, copied.
fn copy_bytes(v: &Vec<u8>, hi: usize) -> (r: Vec<u8>)
    requires
        hi <= v@.len(),
    ensures
        r@ == v@.subrange(0, hi as int),
{
    let mut r: Vec<u8> = Vec::new();
    let mut k: usize = 0;
    while k < hi
        invariant
            0 <= k <= hi <= v@.len(),
            r@ == v@.subrange(0, k as int),
        decreases hi - k,
    {
        r.push(v[k]);
        proof {
            assert(v@.subrange(0, k + 1).drop_last() =~= v@.subrange(0, k as int));
            assert(r@ =~= v@.subrange(0, k + 1));
        }
        k = k + 1;
    }
    r
}

/// Parses a whole CSV input: one transaction or error per record after the
/// header, exactly as [`parse_all_spec`] describes.
pub fn parse_transactions(input: &[u8]) -> (r: Vec<Result<EngineTransaction, CsvError>>)
    ensures
        r@ == parse_all_spec(input@),
        forall|k: int|
            0 <= k < r@.len() ==> (#[trigger] r@[k] matches Ok(tx) ==> tx.amount_wf()),
{
    let lines = split_bytes(input, 10);
    let ghost lseq = lines@.map_values(|f: Vec<u8>| f@);
    let mut records: Vec<Vec<u8>> = Vec::new();
    proof {
        assert(lseq.subrange(0, 0) =~= Seq::<Seq<u8>>::empty());
        assert(records@.map_values(|f: Vec<u8>| f@) =~= spec_records(lseq.subrange(0, 0)));
    }
    let mut i: usize = 0;
    while i < lines.len()
        invariant
            0 <= i <= lines@.len(),
            lseq == lines@.map_values(|f: Vec<u8>| f@),
            records@.map_values(|f: Vec<u8>| f@) == spec_records(lseq.subrange(0, i as int)),
        decreases lines@.len() - i,
    {
        let l = &lines[i];
        proof {
            assert(lseq[i as int] == l@);
        }
        let rec = if l.len() > 0 && l[l.len() - 1] == 13 {
            copy_bytes(l, l.len() - 1)
        } else {
            copy_bytes(l, l.len())
        };
        proof {
            assert(l@.drop_last() =~= l@.subrange(0, l@.len() - 1));
            assert(l@.subrange(0, l@.len() as int) =~= l@);
            assert(rec@ == strip_cr(l@));
        }
        let ghost prev = records@;
        if rec.len() > 0 {
            records.push(rec);
            proof {
                assert(records@.map_values(|f: Vec<u8>| f@) =~= prev.map_values(|f: Vec<u8>| f@)
                    + seq![strip_cr(l@)]);
            }
        }
        proof {
            assert(lseq.subrange(0, i + 1).drop_last() =~= lseq.subrange(0, i as int));
            assert(lseq.subrange(0, i + 1).last() == l@);
            if strip_cr(l@).len() > 0 {
                assert(prev.map_values(|f: Vec<u8>| f@) + seq![strip_cr(l@)] =~= spec_records(
                    lseq.subrange(0, i as int),
                ).push(strip_cr(l@)));
            }
        }
        i = i + 1;
    }
    proof {
        assert(lseq.subrange(0, lines@.len() as int) =~= lseq);
    }
    let ghost rs = csv_records(input@);
    proof {
        assert(records@.map_values(|f: Vec<u8>| f@) == rs);
    }
    let mut out: Vec<Result<EngineTransaction, CsvError>> = Vec::new();
    if records.len() == 0 {
        return out;
    }
    let mut j: usize = 1;
    proof {
        assert(rs.drop_first().subrange(0, 0) =~= Seq::<Seq<u8>>::empty());
    }
    while j < records.len()
        invariant
            1 <= j <= records@.len(),
            records@.len() == rs.len(),
            records@.map_values(|f: Vec<u8>| f@) == rs,
            out@ == parsed_rows(rs.drop_first().subrange(0, j - 1)),
            forall|k: int|
                0 <= k < out@.len() ==> (#[trigger] out@[k] matches Ok(tx) ==> tx.amount_wf()),
        decreases records@.len() - j,
    {
        proof {
            assert(records@.map_values(|f: Vec<u8>| f@)[j as int] == records@[j as int]@);
        }
        let parsed = match parse_row(&records[j]) {
            Ok(row) => Ok(EngineTransaction::from(row)),
            Err(e) => Err(e),
        };
        proof {
            assert(parsed == record_transaction(records@[j as int]@));
            let sub1 = rs.drop_first().subrange(0, j - 1);
            let sub2 = rs.drop_first().subrange(0, j as int);
            assert(sub2.drop_last() =~= sub1);
            assert(sub2.last() == rs[j as int]);
        }
        out.push(parsed);
        j = j + 1;
    }
    proof {
        assert(rs.drop_first().subrange(0, rs.len() - 1) =~= rs.drop_first());
    }
    out
}

/// The account as it is displayed: every balance capped at four fractional
/// digits.
pub open spec fn display_account(a: Account) -> Account {
    Account {
        available: spec_rescaled_to_max_precision(a.available),
        held: spec_rescaled_to_max_precision(a.held),
        total: spec_rescaled_to_max_precision(a.total),
        ..a
    }
}

/// The bytes of the report header: `client,available,held,total,locked`
/// and a newline.
pub open spec fn header_bytes() -> Seq<u8> {
    seq![
        99u8,
        108u8,
        105u8,
        101u8,
        110u8,
        116u8,
        44u8,
        97u8,
        118u8,
        97u8,
        105u8,
        108u8,
        97u8,
        98u8,
        108u8,
        101u8,
        44u8,
        104u8,
        101u8,
        108u8,
        100u8,
        44u8,
        116u8,
        111u8,
        116u8,
        97u8,
        108u8,
        44u8,
        108u8,
        111u8,
        99u8,
        107u8,
        101u8,
        100u8,
        10u8,
    ]
}

/// `true` or `false`, as bytes.
pub open spec fn bool_bytes(b: bool) -> Seq<u8> {
    if b {
        seq![116u8, 114u8, 117u8, 101u8]
    } else {
        seq![102u8, 97u8, 108u8, 115u8, 101u8]
    }
}

/// One report row: the client id and the three displayed balances, comma
/// separated, then the locked flag and a newline.
pub open spec fn account_row_bytes(a: Account) -> Seq<u8> {
    let d = display_account(a);
    dec_digits(a.client as nat) + seq![44u8] + amount_bytes(d.available) + seq![44u8]
        + amount_bytes(d.held) + seq![44u8] + amount_bytes(d.total) + seq![44u8] + bool_bytes(
        a.locked,
    ) + seq![10u8]
}

/// The rows of a report, in the accounts' order.
pub open spec fn rows_bytes(accounts: Seq<Account>) -> Seq<u8>
    decreases accounts.len(),
{
    if accounts.len() == 0 {
        Seq::empty()
    } else {
        rows_bytes(accounts.drop_last()) + account_row_bytes(accounts.last())
    }
}

/// The whole report: the header, then one row per account.
pub open spec fn report_bytes(accounts: Seq<Account>) -> Seq<u8> {
    header_bytes() + rows_bytes(accounts)
}

/// Appends the report header.
fn push_header(out: &mut Vec<u8>)
    ensures
        final(out)@ == old(out)@ + header_bytes(),
{
    let header: [u8; 35] = [
        99u8,
        108u8,
        105u8,
        101u8,
        110u8,
        116u8,
        44u8,
        97u8,
        118u8,
        97u8,
        105u8,
        108u8,
        97u8,
        98u8,
        108u8,
        101u8,
        44u8,
        104u8,
        101u8,
        108u8,
        100u8,
        44u8,
        116u8,
        111u8,
        116u8,
        97u8,
        108u8,
        44u8,
        108u8,
        111u8,
        99u8,
        107u8,
        101u8,
        100u8,
        10u8,
    ];
    let ghost entry = out@;
    let mut k: usize = 0;
    while k < 35
        invariant
            0 <= k <= 35,
            header@ =~= header_bytes(),
            out@ == entry + header_bytes().subrange(0, k as int),
        decreases 35 - k,
    {
        out.push(header[k]);
        proof {
            assert(header_bytes().subrange(0, k + 1).drop_last() =~= header_bytes().subrange(
                0,
                k as int,
            ));
            assert(out@ =~= entry + header_bytes().subrange(0, k + 1));
        }
        k = k + 1;
    }
    proof {
        assert(header_bytes().subrange(0, 35) =~= header_bytes());
    }
}

/// Appends `true` or `false`.
fn push_bool_bytes(b: bool, out: &mut Vec<u8>)
    ensures
        final(out)@ == old(out)@ + bool_bytes(b),
{
    if b {
        out.push(116);
        out.push(114);
        out.push(117);
        out.push(101);
    } else {
        out.push(102);
        out.push(97);
        out.push(108);
        out.push(115);
        out.push(101);
    }
    proof {
        assert(final(out)@ =~= old(out)@ + bool_bytes(b));
    }
}

/// Appends one report row for `a`.
#[verifier::rlimit(50)]
fn push_account_row(account: &Account, out: &mut Vec<u8>)
    requires
        account.wf(),
    ensures
        final(out)@ == old(out)@ + account_row_bytes(*account),
{
    let ghost entry = out@;
    let mut a = *account;
    a.to_max_display_precision();
    proof {
        assert(a == display_account(*account));
    }
    push_dec_digits(a.client as u128, out);
    out.push(44);
    push_amount_bytes(&a.available, out);
    out.push(44);
    push_amount_bytes(&a.held, out);
    out.push(44);
    push_amount_bytes(&a.total, out);
    out.push(44);
    push_bool_bytes(a.locked, out);
    out.push(10);
    proof {
        assert(out@ =~= entry + account_row_bytes(*account));
    }
}

/// Renders the account report: the header, then one row per account in the
/// given order, every balance capped at four fractional digits exactly as
/// [`report_bytes`] describes.
pub fn render_accounts(accounts: &Vec<Account>) -> (r: Vec<u8>)
    requires
        forall|i: int| 0 <= i < accounts@.len() ==> (#[trigger] accounts@[i]).wf(),
    ensures
        r@ == report_bytes(accounts@),
{
    let mut out: Vec<u8> = Vec::new();
    push_header(&mut out);
    let mut i: usize = 0;
    proof {
        assert(accounts@.subrange(0, 0) =~= Seq::<Account>::empty());
        assert(out@ =~= header_bytes() + rows_bytes(accounts@.subrange(0, 0)));
    }
    while i < accounts.len()
        invariant
            0 <= i <= accounts@.len(),
            forall|k: int| 0 <= k < accounts@.len() ==> (#[trigger] accounts@[k]).wf(),
            out@ == header_bytes() + rows_bytes(accounts@.subrange(0, i as int)),
        decreases accounts@.len() - i,
    {
        push_account_row(&accounts[i], &mut out);
        proof {
            assert(accounts@.subrange(0, i + 1).drop_last() =~= accounts@.subrange(0, i as int));
            assert(accounts@.subrange(0, i + 1).last() == accounts@[i as int]);
            assert(out@ =~= header_bytes() + rows_bytes(accounts@.subrange(0, i + 1)));
        }
        i = i + 1;
    }
    proof {
        assert(accounts@.subrange(0, accounts@.len() as int) =~= accounts@);
    }
    out
}

} // verus!
