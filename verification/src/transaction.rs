//! Transaction rows read from CSV records, and the records kept of deposits.
use vstd::prelude::*;

use crate::amount::{
    all_digits, digits_value, from_bytes_model, is_digit, numeric_value, parse_numeric_bytes, Amount,
};
use crate::error::{result_model, ErrorModel, TransactionError};
use crate::text::{ascii_bytes, string_from_utf8_lossy, utf8_lossy};

verus! {

/// `csv::ByteRecord`, a record of byte fields.
#[verifier::external_type_specification]
#[verifier::external_body]
pub struct ExByteRecord(csv::ByteRecord);

/// The fields a `csv::ByteRecord` holds, in order.
pub uninterp spec fn record_fields(record: csv::ByteRecord) -> Seq<Seq<u8>>;

/// `csv::ByteRecord::get`: the field at index `i`, if the record has one.
#[verifier::external_body]
fn record_field(record: &csv::ByteRecord, i: usize) -> (r: Option<&[u8]>)
    ensures
        match r {
            Some(f) => i < record_fields(*record).len() && f@ == record_fields(*record)[i as int],
            None => i >= record_fields(*record).len(),
        },
{
    record.get(i)
}

/// Represents the type of transaction that can be processed.
#[derive(Debug, Clone, Copy, PartialEq, Eq, Structural)]
pub enum TransactionType {
    /// Adds funds to a client account
    Deposit,
    /// Removes funds from a client account
    Withdrawal,
    /// Places a transaction under dispute, moving funds to held status
    Dispute,
    /// Resolves a disputed transaction, releasing held funds
    Resolve,
    /// Charges back a disputed transaction, removing funds and locking account
    Chargeback,
}

/// Represents the current state of a transaction in the system.
#[derive(Debug, Clone, Copy, PartialEq, Eq, Structural)]
pub enum TransactionState {
    /// Transaction is in normal state, funds are available
    Normal,
    /// Transaction is under dispute, funds are held
    Disputed,
    /// Transaction has been charged back, funds removed and account locked
    ChargedBack,
}

/// The transaction type a word names, or `UnknownTransactionType` with the
/// word decoded leniently.
pub open spec fn type_model(b: Seq<u8>) -> Result<TransactionType, ErrorModel> {
    if b == ascii_bytes("deposit"@) {
        Ok(TransactionType::Deposit)
    } else if b == ascii_bytes("withdrawal"@) {
        Ok(TransactionType::Withdrawal)
    } else if b == ascii_bytes("dispute"@) {
        Ok(TransactionType::Dispute)
    } else if b == ascii_bytes("resolve"@) {
        Ok(TransactionType::Resolve)
    } else if b == ascii_bytes("chargeback"@) {
        Ok(TransactionType::Chargeback)
    } else {
        Err(ErrorModel::UnknownTransactionType(utf8_lossy(b)))
    }
}

/// Whether two byte slices hold the same bytes.
fn bytes_eq(a: &[u8], b: &[u8]) -> (r: bool)
    ensures
        r == (a@ == b@),
{
    if a.len() != b.len() {
        return false;
    }
    let mut i: usize = 0;
    while i < a.len()
        invariant
            i <= a.len(),
            a.len() == b.len(),
            forall|j: int| 0 <= j < i ==> a@[j] == b@[j],
        decreases a.len() - i,
    {
        if a[i] != b[i] {
            return false;
        }
        i += 1;
    }
    assert(a@ =~= b@);
    true
}

impl TransactionType {
    /// Parses transaction type from byte slice for CSV processing.
    pub fn from_bytes(bytes_array: &[u8]) -> (r: Result<Self, TransactionError>)
        ensures
            result_model(r) == type_model(bytes_array@),
    {
        let deposit: [u8; 7] = [100, 101, 112, 111, 115, 105, 116];
        let withdrawal: [u8; 10] = [119, 105, 116, 104, 100, 114, 97, 119, 97, 108];
        let dispute: [u8; 7] = [100, 105, 115, 112, 117, 116, 101];
        let resolve: [u8; 7] = [114, 101, 115, 111, 108, 118, 101];
        let chargeback: [u8; 10] = [99, 104, 97, 114, 103, 101, 98, 97, 99, 107];
        proof {
            reveal_strlit("deposit");
            reveal_strlit("withdrawal");
            reveal_strlit("dispute");
            reveal_strlit("resolve");
            reveal_strlit("chargeback");
            assert(deposit@ =~= ascii_bytes("deposit"@));
            assert(withdrawal@ =~= ascii_bytes("withdrawal"@));
            assert(dispute@ =~= ascii_bytes("dispute"@));
            assert(resolve@ =~= ascii_bytes("resolve"@));
            assert(chargeback@ =~= ascii_bytes("chargeback"@));
        }
        if bytes_eq(bytes_array, &deposit) {
            Ok(TransactionType::Deposit)
        } else if bytes_eq(bytes_array, &withdrawal) {
            Ok(TransactionType::Withdrawal)
        } else if bytes_eq(bytes_array, &dispute) {
            Ok(TransactionType::Dispute)
        } else if bytes_eq(bytes_array, &resolve) {
            Ok(TransactionType::Resolve)
        } else if bytes_eq(bytes_array, &chargeback) {
            Ok(TransactionType::Chargeback)
        } else {
            Err(TransactionError::UnknownTransactionType(string_from_utf8_lossy(bytes_array)))
        }
    }
}

/// ASCII white space as `u8::is_ascii_whitespace` knows it: space, tab, line
/// feed, form feed and carriage return.
pub open spec fn is_ascii_space(b: u8) -> bool {
    b == 32 || b == 9 || b == 10 || b == 12 || b == 13
}

/// Bytes without their leading ASCII white space.
pub open spec fn trim_ascii_start(b: Seq<u8>) -> Seq<u8>
    decreases b.len(),
{
    if b.len() > 0 && is_ascii_space(b[0]) {
        trim_ascii_start(b.drop_first())
    } else {
        b
    }
}

/// Bytes without their trailing ASCII white space.
pub open spec fn trim_ascii_end(b: Seq<u8>) -> Seq<u8>
    decreases b.len(),
{
    if b.len() > 0 && is_ascii_space(b.last()) {
        trim_ascii_end(b.drop_last())
    } else {
        b
    }
}

/// Bytes without their leading and trailing ASCII white space.
pub open spec fn trim_ascii(b: Seq<u8>) -> Seq<u8> {
    trim_ascii_end(trim_ascii_start(b))
}

proof fn lemma_trim_ascii_start_shape(b: Seq<u8>)
    ensures
        trim_ascii_start(b).len() == 0 || !is_ascii_space(trim_ascii_start(b)[0]),
    decreases b.len(),
{
    if b.len() > 0 && is_ascii_space(b[0]) {
        lemma_trim_ascii_start_shape(b.drop_first());
    }
}

proof fn lemma_trim_ascii_end_shape(b: Seq<u8>)
    ensures
        trim_ascii_end(b).len() == 0 || !is_ascii_space(trim_ascii_end(b).last()),
        trim_ascii_end(b).len() <= b.len(),
        trim_ascii_end(b) == b.take(trim_ascii_end(b).len() as int),
    decreases b.len(),
{
    if b.len() > 0 && is_ascii_space(b.last()) {
        lemma_trim_ascii_end_shape(b.drop_last());
        let t = trim_ascii_end(b.drop_last());
        assert(b.drop_last().take(t.len() as int) =~= b.take(t.len() as int));
    } else {
        assert(b.take(b.len() as int) =~= b);
    }
}

/// Law: trimming twice trims no more than trimming once.
pub proof fn lemma_trim_ascii_idempotent(b: Seq<u8>)
    ensures
        trim_ascii(trim_ascii(b)) == trim_ascii(b),
{
    let s = trim_ascii_start(b);
    let t = trim_ascii(b);
    lemma_trim_ascii_start_shape(b);
    lemma_trim_ascii_end_shape(s);
    if t.len() > 0 {
        assert(t[0] == s[0]);
        assert(trim_ascii_start(t) == t);
        assert(trim_ascii_end(t) == t);
    } else {
        assert(trim_ascii_start(t) == t);
        assert(trim_ascii_end(t) == t);
    }
}

/// Law: trimming keeps a contiguous part of the bytes, drops only spaces,
/// tabs, line feeds, form feeds and carriage returns around it, and leaves
/// none of those at either end of what it keeps.
pub proof fn lemma_trim_ascii_drops_only_space(b: Seq<u8>)
    ensures
        exists|lo: int, hi: int|
            {
                &&& 0 <= lo <= hi <= b.len()
                &&& trim_ascii(b) == b.subrange(lo, hi)
                &&& forall|i: int|
                    0 <= i < b.len() && !(lo <= i < hi) ==> (b[i] == 32 || b[i] == 9 || b[i] == 10
                        || b[i] == 12 || b[i] == 13)
            },
        trim_ascii(b).len() > 0 ==> {
            let t = trim_ascii(b);
            &&& !(t[0] == 32 || t[0] == 9 || t[0] == 10 || t[0] == 12 || t[0] == 13)
            &&& !(t.last() == 32 || t.last() == 9 || t.last() == 10 || t.last() == 12 || t.last()
                == 13)
        },
{
    lemma_trim_ascii_start_shape(b);
    let s = trim_ascii_start(b);
    lemma_trim_ascii_end_shape(s);
    lemma_trim_ascii_start_suffix(b);
    let lo = b.len() - s.len();
    let hi = lo + trim_ascii(b).len();
    assert(trim_ascii(b) =~= b.subrange(lo, hi));
    lemma_trim_ascii_end_dropped(s);
    assert forall|i: int| 0 <= i < b.len() && !(lo <= i < hi) implies (b[i] == 32 || b[i] == 9
        || b[i] == 10 || b[i] == 12 || b[i] == 13) by {
        if i >= hi {
            assert(b[i] == s[i - lo]);
        }
    }
    if trim_ascii(b).len() > 0 {
        assert(trim_ascii(b)[0] == s[0]);
    }
}

proof fn lemma_trim_ascii_start_suffix(b: Seq<u8>)
    ensures
        trim_ascii_start(b).len() <= b.len(),
        trim_ascii_start(b) == b.skip(b.len() - trim_ascii_start(b).len()),
        forall|i: int| 0 <= i < b.len() - trim_ascii_start(b).len() ==> is_ascii_space(b[i]),
    decreases b.len(),
{
    if b.len() > 0 && is_ascii_space(b[0]) {
        lemma_trim_ascii_start_suffix(b.drop_first());
        let t = trim_ascii_start(b.drop_first());
        assert(b.drop_first().skip(b.len() - 1 - t.len()) =~= b.skip(b.len() - t.len()));
        assert forall|i: int| 0 <= i < b.len() - t.len() implies is_ascii_space(b[i]) by {
            if i > 0 {
                assert(b[i] == b.drop_first()[i - 1]);
            }
        }
    } else {
        assert(b.skip(0) =~= b);
    }
}

proof fn lemma_trim_ascii_end_dropped(b: Seq<u8>)
    ensures
        forall|i: int| trim_ascii_end(b).len() <= i < b.len() ==> is_ascii_space(b[i]),
    decreases b.len(),
{
    if b.len() > 0 && is_ascii_space(b.last()) {
        lemma_trim_ascii_end_dropped(b.drop_last());
        lemma_trim_ascii_end_shape(b.drop_last());
        assert forall|i: int| trim_ascii_end(b).len() <= i < b.len() implies is_ascii_space(b[i]) by {
            if i < b.len() - 1 {
                assert(b[i] == b.drop_last()[i]);
            }
        }
    }
}

/// Law: the five words name five different transaction types.
pub proof fn lemma_type_words()
    ensures
        type_model(seq![100u8, 101, 112, 111, 115, 105, 116]) == Ok::<TransactionType, ErrorModel>(
            TransactionType::Deposit,
        ),
        type_model(seq![119u8, 105, 116, 104, 100, 114, 97, 119, 97, 108]) == Ok::<
            TransactionType,
            ErrorModel,
        >(TransactionType::Withdrawal),
        type_model(seq![100u8, 105, 115, 112, 117, 116, 101]) == Ok::<TransactionType, ErrorModel>(
            TransactionType::Dispute,
        ),
        type_model(seq![114u8, 101, 115, 111, 108, 118, 101]) == Ok::<TransactionType, ErrorModel>(
            TransactionType::Resolve,
        ),
        type_model(seq![99u8, 104, 97, 114, 103, 101, 98, 97, 99, 107]) == Ok::<
            TransactionType,
            ErrorModel,
        >(TransactionType::Chargeback),
{
    reveal_strlit("deposit");
    reveal_strlit("withdrawal");
    reveal_strlit("dispute");
    reveal_strlit("resolve");
    reveal_strlit("chargeback");
    assert(seq![100u8, 101, 112, 111, 115, 105, 116] =~= ascii_bytes("deposit"@));
    assert(seq![119u8, 105, 116, 104, 100, 114, 97, 119, 97, 108] =~= ascii_bytes("withdrawal"@));
    assert(seq![100u8, 105, 115, 112, 117, 116, 101] =~= ascii_bytes("dispute"@));
    assert(seq![114u8, 101, 115, 111, 108, 118, 101] =~= ascii_bytes("resolve"@));
    assert(seq![99u8, 104, 97, 114, 103, 101, 98, 97, 99, 107] =~= ascii_bytes("chargeback"@));
}

/// Trims whitespace from both ends of a byte slice.
pub fn trim(bytes: &[u8]) -> (r: &[u8])
    ensures
        r@ == trim_ascii(bytes@),
{
    let ghost s = bytes@;
    let len = bytes.len();
    let mut lo: usize = 0;
    assert(s.skip(0) =~= s);
    while lo < len && (bytes[lo] == 32 || bytes[lo] == 9 || bytes[lo] == 10 || bytes[lo] == 12
        || bytes[lo] == 13)
        invariant
            s == bytes@,
            len == s.len(),
            lo <= len,
            trim_ascii_start(s) == trim_ascii_start(s.skip(lo as int)),
        decreases len - lo,
    {
        assert(s.skip(lo as int).drop_first() =~= s.skip(lo + 1));
        lo += 1;
    }
    assert(trim_ascii_start(s) == s.skip(lo as int));
    if lo == len {
        assert(s.skip(lo as int) =~= Seq::<u8>::empty());
        return &bytes[len..len];
    }
    let mut hi: usize = len;
    while hi > lo && (bytes[hi - 1] == 32 || bytes[hi - 1] == 9 || bytes[hi - 1] == 10 || bytes[hi
        - 1] == 12 || bytes[hi - 1] == 13)
        invariant
            s == bytes@,
            len == s.len(),
            lo < len,
            lo <= hi <= len,
            trim_ascii_end(s.skip(lo as int)) == trim_ascii_end(s.subrange(lo as int, hi as int)),
        decreases hi,
    {
        assert(s.subrange(lo as int, hi as int).drop_last() =~= s.subrange(lo as int, hi - 1));
        hi -= 1;
    }
    assert(s.skip(lo as int) =~= s.subrange(lo as int, len as int));
    &bytes[lo..hi]
}

/// An unsigned decimal as `str::parse` reads it for an unsigned type: an
/// optional `+`, then one or more digits, of value at most `max`.
pub open spec fn unsigned_value(b: Seq<u8>, max: nat) -> Option<nat> {
    let d = if b.len() > 0 && b[0] == 43 {
        b.drop_first()
    } else {
        b
    };
    if d.len() > 0 && all_digits(d) && digits_value(d) <= max {
        Some(digits_value(d))
    } else {
        None
    }
}

/// Reads an unsigned decimal of value at most `max`.
fn parse_unsigned(bytes_num: &[u8], max: u64) -> (r: Option<u64>)
    requires
        max <= u32::MAX,
    ensures
        match r {
            Some(v) => unsigned_value(bytes_num@, max as nat) == Some(v as nat),
            None => unsigned_value(bytes_num@, max as nat) is None,
        },
{
    let digits: &[u8] = if bytes_num.len() > 0 && bytes_num[0] == 43 {
        &bytes_num[1..bytes_num.len()]
    } else {
        bytes_num
    };
    proof {
        if bytes_num@.len() > 0 && bytes_num@[0] == 43 {
            assert(digits@ =~= bytes_num@.drop_first());
        }
    }
    match parse_numeric_bytes(digits) {
        None => None,
        Some(v) => if v as u64 <= max {
            Some(v as u64)
        } else {
            None
        },
    }
}

/// Parses byte slice into u16 for client ID field.
pub fn parse_u16(bytes_num: &[u8]) -> (r: Result<u16, TransactionError>)
    ensures
        match r {
            Ok(v) => unsigned_value(bytes_num@, u16::MAX as nat) == Some(v as nat),
            Err(e) => unsigned_value(bytes_num@, u16::MAX as nat) is None && e@
                == ErrorModel::MalformedRecord,
        },
{
    match parse_unsigned(bytes_num, 65535) {
        Some(v) => Ok(v as u16),
        None => Err(TransactionError::MalformedRecord),
    }
}

/// Parses byte slice into u32 for transaction ID field.
pub fn parse_u32(bytes_num: &[u8]) -> (r: Result<u32, TransactionError>)
    ensures
        match r {
            Ok(v) => unsigned_value(bytes_num@, u32::MAX as nat) == Some(v as nat),
            Err(e) => unsigned_value(bytes_num@, u32::MAX as nat) is None && e@
                == ErrorModel::MalformedRecord,
        },
{
    match parse_unsigned(bytes_num, 4294967295) {
        Some(v) => Ok(v as u32),
        None => Err(TransactionError::MalformedRecord),
    }
}

/// Represents a single transaction row from CSV input.
///
/// Contains the transaction type, client ID, transaction ID, and optional amount.
/// Used for parsing raw CSV data before processing.
#[derive(Debug)]
pub struct TransactionRow {
    pub tx_type: TransactionType,
    pub client: u16,
    pub tx: u32,
    pub amount: Option<Amount>,
}

/// What a record's fields make: the type, client and transaction id from the
/// first three fields (each trimmed of ASCII white space), and the amount from
/// the fourth when it is there and not blank. The first failing step decides
/// the error: a missing field is `MalformedRecord`, so is a client or
/// transaction id that does not parse; an unknown type and a bad amount carry
/// their own errors.
pub open spec fn row_model(fields: Seq<Seq<u8>>) -> Result<TransactionRow, ErrorModel> {
    if fields.len() < 1 {
        Err(ErrorModel::MalformedRecord)
    } else {
        match type_model(trim_ascii(fields[0])) {
            Err(e) => Err(e),
            Ok(tx_type) => if fields.len() < 2 {
                Err(ErrorModel::MalformedRecord)
            } else {
                match unsigned_value(trim_ascii(fields[1]), u16::MAX as nat) {
                    None => Err(ErrorModel::MalformedRecord),
                    Some(client) => if fields.len() < 3 {
                        Err(ErrorModel::MalformedRecord)
                    } else {
                        match unsigned_value(trim_ascii(fields[2]), u32::MAX as nat) {
                            None => Err(ErrorModel::MalformedRecord),
                            Some(tx) => if fields.len() < 4 || trim_ascii(fields[3]).len() == 0 {
                                Ok(
                                    TransactionRow {
                                        tx_type,
                                        client: client as u16,
                                        tx: tx as u32,
                                        amount: None,
                                    },
                                )
                            } else {
                                match from_bytes_model(trim_ascii(fields[3])) {
                                    Err(e) => Err(e),
                                    Ok(a) => Ok(
                                        TransactionRow {
                                            tx_type,
                                            client: client as u16,
                                            tx: tx as u32,
                                            amount: Some(a),
                                        },
                                    ),
                                }
                            },
                        }
                    },
                }
            },
        }
    }
}

/// Law: a run of digits reads as the number it denotes exactly when that
/// number is at most the bound.
pub proof fn lemma_unsigned_value_of_digits(b: Seq<u8>, max: nat)
    requires
        b.len() > 0,
        all_digits(b),
    ensures
        unsigned_value(b, max) == (if digits_value(b) <= max {
            Some(digits_value(b))
        } else {
            None::<nat>
        }),
{
    assert(is_digit(b[0]));
}

/// Law: a record of a known type, a client id of digits up to 65535 and a
/// transaction id of digits up to 4294967295 (each possibly surrounded by
/// ASCII white space), and no amount (no fourth field, or a blank one), reads
/// as a row of that type with exactly those ids and no amount.
pub proof fn lemma_row_reads_ids(fields: Seq<Seq<u8>>, t: TransactionType)
    requires
        3 <= fields.len() <= 4,
        fields.len() == 4 ==> trim_ascii(fields[3]).len() == 0,
        type_model(trim_ascii(fields[0])) == Ok::<TransactionType, ErrorModel>(t),
        trim_ascii(fields[1]).len() > 0,
        all_digits(trim_ascii(fields[1])),
        digits_value(trim_ascii(fields[1])) <= 65535,
        trim_ascii(fields[2]).len() > 0,
        all_digits(trim_ascii(fields[2])),
        digits_value(trim_ascii(fields[2])) <= 4294967295,
    ensures
        row_model(fields) matches Ok(row) && row.tx_type == t && row.client == digits_value(
            trim_ascii(fields[1]),
        ) && row.tx == digits_value(trim_ascii(fields[2])) && row.amount is None,
{
    lemma_unsigned_value_of_digits(trim_ascii(fields[1]), u16::MAX as nat);
    lemma_unsigned_value_of_digits(trim_ascii(fields[2]), u32::MAX as nat);
}

/// Law: a record of a known type and valid ids whose fourth field, trimmed,
/// is a valid amount reads as a row carrying that amount; one whose fourth
/// field is an invalid amount is refused with the amount's error.
pub proof fn lemma_row_reads_amount(fields: Seq<Seq<u8>>, t: TransactionType)
    requires
        fields.len() >= 4,
        trim_ascii(fields[3]).len() > 0,
        type_model(trim_ascii(fields[0])) == Ok::<TransactionType, ErrorModel>(t),
        trim_ascii(fields[1]).len() > 0,
        all_digits(trim_ascii(fields[1])),
        digits_value(trim_ascii(fields[1])) <= 65535,
        trim_ascii(fields[2]).len() > 0,
        all_digits(trim_ascii(fields[2])),
        digits_value(trim_ascii(fields[2])) <= 4294967295,
    ensures
        from_bytes_model(trim_ascii(fields[3])) matches Ok(a) ==> (row_model(fields) matches Ok(
            row,
        ) && row.tx_type == t && row.client == digits_value(trim_ascii(fields[1])) && row.tx
            == digits_value(trim_ascii(fields[2])) && row.amount == Some(a)),
        from_bytes_model(trim_ascii(fields[3])) matches Err(e) ==> row_model(fields) == Err::<
            TransactionRow,
            ErrorModel,
        >(e),
{
    lemma_unsigned_value_of_digits(trim_ascii(fields[1]), u16::MAX as nat);
    lemma_unsigned_value_of_digits(trim_ascii(fields[2]), u32::MAX as nat);
}

/// Law: ASCII white space around the fields of a record makes no difference
/// to the row read from it.
pub proof fn lemma_row_ignores_surrounding_space(fields: Seq<Seq<u8>>)
    ensures
        row_model(fields) == row_model(fields.map_values(|f: Seq<u8>| trim_ascii(f))),
{
    let trimmed = fields.map_values(|f: Seq<u8>| trim_ascii(f));
    assert forall|i: int| 0 <= i < fields.len() implies trim_ascii(#[trigger] trimmed[i]) == trim_ascii(
        fields[i],
    ) by {
        lemma_trim_ascii_idempotent(fields[i]);
    }
    if fields.len() >= 1 {
        assert(trim_ascii(trimmed[0]) == trim_ascii(fields[0]));
    }
    if fields.len() >= 2 {
        assert(trim_ascii(trimmed[1]) == trim_ascii(fields[1]));
    }
    if fields.len() >= 3 {
        assert(trim_ascii(trimmed[2]) == trim_ascii(fields[2]));
    }
    if fields.len() >= 4 {
        assert(trim_ascii(trimmed[3]) == trim_ascii(fields[3]));
    }
}

impl TransactionRow {
    /// Parses a CSV ByteRecord into a TransactionRow.
    ///
    /// Handles whitespace trimming and optional amount fields.
    pub fn from_byte_record(record: &csv::ByteRecord) -> (r: Result<Self, TransactionError>)
        ensures
            result_model(r) == row_model(record_fields(*record)),
    {
        let f0 = match record_field(record, 0) {
            Some(f) => f,
            None => return Err(TransactionError::MalformedRecord),
        };
        let tx_type = match TransactionType::from_bytes(trim(f0)) {
            Ok(t) => t,
            Err(e) => return Err(e),
        };
        let f1 = match record_field(record, 1) {
            Some(f) => f,
            None => return Err(TransactionError::MalformedRecord),
        };
        let client = match parse_u16(trim(f1)) {
            Ok(c) => c,
            Err(e) => return Err(e),
        };
        let f2 = match record_field(record, 2) {
            Some(f) => f,
            None => return Err(TransactionError::MalformedRecord),
        };
        let tx = match parse_u32(trim(f2)) {
            Ok(t) => t,
            Err(e) => return Err(e),
        };
        let amount = match record_field(record, 3) {
            None => None,
            Some(f3) => {
                let raw = trim(f3);
                if raw.len() == 0 {
                    None
                } else {
                    match Amount::from_bytes(raw) {
                        Ok(a) => Some(a),
                        Err(e) => return Err(e),
                    }
                }
            },
        };
        Ok(Self { tx_type, client, tx, amount })
    }
}

/// Represents a stored transaction record in the ledger.
///
/// Tracks the client, amount, and current state of a transaction
/// for dispute resolution and chargeback processing.
#[derive(Debug, Clone, Copy)]
pub struct TransactionRecord {
    pub client: u16,
    pub amount: Amount,
    pub state: TransactionState,
}

impl TransactionRecord {
    /// Creates a new transaction record in Normal state.
    pub fn new(client: u16, amount: Amount) -> (r: Self)
        ensures
            r == (TransactionRecord { client, amount, state: TransactionState::Normal }),
    {
        Self { client, amount, state: TransactionState::Normal }
    }

    /// Returns true if the transaction is currently disputed.
    pub fn is_disputed(&self) -> (r: bool)
        ensures
            r == (self.state == TransactionState::Disputed),
    {
        self.state == TransactionState::Disputed
    }
}

} // verus!
