//! Processing a whole CSV input: reading its records, turning each into a
//! transaction row, and applying the rows to a fresh ledger in order.
use vstd::prelude::*;

use crate::engine::{Ledger, LedgerModel};
use crate::error::{result_model, ErrorModel, TransactionError};
use crate::transaction::{record_fields, row_model, TransactionRow};

verus! {

/// The records that the csv reader, set up as transaction input is read (a
/// header row, fields left untrimmed, records of any length), yields from
/// `input` up to its first read error, and whether it stopped at one.
pub uninterp spec fn csv_records(input: Seq<u8>) -> (Seq<Seq<Seq<u8>>>, bool);

/// `csv::ReaderBuilder` (with `trim(Trim::None)` and `flexible(true)`) over
/// the input, then `Reader::byte_records`: the records read before the first
/// error, in order, and that error if there was one.
#[verifier::external_body]
fn read_records(input: &[u8]) -> (r: (Vec<csv::ByteRecord>, Option<csv::Error>))
    ensures
        r.0@.len() == csv_records(input@).0.len(),
        forall|i: int|
            0 <= i < r.0@.len() ==> record_fields(#[trigger] r.0@[i]) == csv_records(input@).0[i],
        r.1 is Some <==> csv_records(input@).1,
{
    let mut reader = csv::ReaderBuilder::new().trim(csv::Trim::None).flexible(true).from_reader(
        input,
    );
    let mut records = Vec::new();
    for result in reader.byte_records() {
        match result {
            Ok(record) => records.push(record),
            Err(e) => return (records, Some(e)),
        }
    }
    (records, None)
}

/// A record that was skipped: one that does not read as a transaction row,
/// or a row that the ledger refused.
#[derive(Debug)]
pub enum SkippedRecord {
    Malformed(TransactionError),
    Refused(TransactionError),
}

/// What a skipped record says.
pub enum SkipModel {
    Malformed(ErrorModel),
    Refused(ErrorModel),
}

impl View for SkippedRecord {
    type V = SkipModel;

    open spec fn view(&self) -> SkipModel {
        match self {
            SkippedRecord::Malformed(e) => SkipModel::Malformed(e@),
            SkippedRecord::Refused(e) => SkipModel::Refused(e@),
        }
    }
}

/// The ledger with no accounts and no records.
pub open spec fn empty_ledger() -> LedgerModel {
    LedgerModel {
        accounts: Map::<u16, crate::account::Account>::empty(),
        history: Map::<u32, crate::transaction::TransactionRecord>::empty(),
    }
}

/// Running records through a ledger, in order: a record that reads as a row
/// takes the ledger's step for that row, and is noted as refused when the
/// step fails; a record that does not read as a row is noted as malformed and
/// changes nothing.
pub open spec fn run_records(l: LedgerModel, rs: Seq<Seq<Seq<u8>>>) -> (LedgerModel, Seq<SkipModel>)
    decreases rs.len(),
{
    if rs.len() == 0 {
        (l, seq![])
    } else {
        let (prev, skipped) = run_records(l, rs.drop_last());
        match row_model(rs.last()) {
            Err(e) => (prev, skipped.push(SkipModel::Malformed(e))),
            Ok(row) => {
                let (next, r) = prev.step(row);
                match r {
                    Ok(()) => (next, skipped),
                    Err(e) => (next, skipped.push(SkipModel::Refused(e))),
                }
            },
        }
    }
}

/// Law: running two runs of records one after the other is running them
/// together: the ledger continues from where the first run left it, and the
/// skipped records of the second run follow those of the first.
pub proof fn lemma_run_records_append(l: LedgerModel, a: Seq<Seq<Seq<u8>>>, b: Seq<Seq<Seq<u8>>>)
    ensures
        run_records(l, a + b).0 == run_records(run_records(l, a).0, b).0,
        run_records(l, a + b).1 == run_records(l, a).1 + run_records(run_records(l, a).0, b).1,
    decreases b.len(),
{
    if b.len() == 0 {
        assert(a + b =~= a);
        assert(run_records(l, a).1 + Seq::<SkipModel>::empty() =~= run_records(l, a).1);
    } else {
        lemma_run_records_append(l, a, b.drop_last());
        assert((a + b).drop_last() =~= a + b.drop_last());
        assert((a + b).last() == b.last());
        let first = run_records(l, a);
        let rest = run_records(first.0, b.drop_last());
        match row_model(b.last()) {
            Err(e) => {
                assert(first.1 + rest.1.push(SkipModel::Malformed(e)) =~= (first.1 + rest.1).push(
                    SkipModel::Malformed(e),
                ));
            },
            Ok(row) => {
                let (next, r) = rest.0.step(row);
                match r {
                    Ok(()) => {},
                    Err(e) => {
                        assert(first.1 + rest.1.push(SkipModel::Refused(e)) =~= (first.1
                            + rest.1).push(SkipModel::Refused(e)));
                    },
                }
            },
        }
    }
}

/// Law: a record that reads as a row changes the ledger exactly as applying
/// that row does, and is noted as skipped exactly when the row is refused;
/// a record that does not read as a row leaves the ledger as it was and is
/// noted as malformed.
pub proof fn lemma_run_one_record(l: LedgerModel, r: Seq<Seq<u8>>)
    ensures
        row_model(r) matches Ok(row) ==> run_records(l, seq![r]).0 == l.step(row).0 && (
        run_records(l, seq![r]).1.len() == 0 <==> l.step(row).1 is Ok),
        row_model(r) matches Err(e) ==> run_records(l, seq![r]).0 == l && run_records(
            l,
            seq![r],
        ).1 == seq![SkipModel::Malformed(e)],
{
    reveal_with_fuel(run_records, 2);
    assert(seq![r].drop_last() =~= Seq::<Seq<Seq<u8>>>::empty());
    assert(seq![r].last() == r);
    assert(run_records(l, Seq::<Seq<Seq<u8>>>::empty()) == (l, Seq::<SkipModel>::empty()));
    assert(Seq::<SkipModel>::empty().push(SkipModel::Malformed(row_model(r)->Err_0)) =~= seq![
        SkipModel::Malformed(row_model(r)->Err_0),
    ]);
}

/// What processing an input gives: the final ledger, the skipped records in
/// order, and the read error that cut the input short, if any.
pub struct ProcessedInput {
    pub ledger: Ledger,
    pub skipped: Vec<SkippedRecord>,
    pub result: Result<(), TransactionError>,
}

/// Processes a CSV input of transactions: every record read is applied to a
/// fresh ledger in order, records that do not read as rows and rows that the
/// ledger refuses are skipped and noted; a read error ends the input and is
/// reported as `CsvParse`.
pub fn process_input(input: &[u8]) -> (r: ProcessedInput)
    ensures
        r.ledger@ == run_records(empty_ledger(), csv_records(input@).0).0,
        r.skipped@.map_values(|s: SkippedRecord| s@) == run_records(
            empty_ledger(),
            csv_records(input@).0,
        ).1,
        r.ledger@.well_formed(),
        result_model(r.result) == (if csv_records(input@).1 {
            Err::<(), ErrorModel>(ErrorModel::CsvParse)
        } else {
            Ok(())
        }),
{
    let (records, read_error) = read_records(input);
    let ghost rs = csv_records(input@).0;
    let mut ledger = Ledger::new();
    let mut skipped: Vec<SkippedRecord> = Vec::new();
    let mut i: usize = 0;
    assert(rs.take(0) =~= Seq::<Seq<Seq<u8>>>::empty());
    assert(skipped@.map_values(|s: SkippedRecord| s@) =~= Seq::<SkipModel>::empty());
    while i < records.len()
        invariant
            records@.len() == rs.len(),
            forall|j: int| 0 <= j < records@.len() ==> record_fields(#[trigger] records@[j]) == rs[j],
            0 <= i <= records@.len(),
            ledger@ == run_records(empty_ledger(), rs.take(i as int)).0,
            skipped@.map_values(|s: SkippedRecord| s@) == run_records(
                empty_ledger(),
                rs.take(i as int),
            ).1,
            ledger@.well_formed(),
        decreases records@.len() - i,
    {
        let ghost before = skipped@;
        assert(rs.take(i + 1).drop_last() =~= rs.take(i as int));
        assert(rs.take(i + 1).last() == rs[i as int]);
        assert(record_fields(records@[i as int]) == rs[i as int]);
        match TransactionRow::from_byte_record(&records[i]) {
            Err(e) => {
                skipped.push(SkippedRecord::Malformed(e));
            },
            Ok(row) => {
                match ledger.apply(row) {
                    Ok(()) => {},
                    Err(e) => {
                        skipped.push(SkippedRecord::Refused(e));
                    },
                }
            },
        }
        assert(skipped@.map_values(|s: SkippedRecord| s@) =~= run_records(
            empty_ledger(),
            rs.take(i + 1),
        ).1);
        i += 1;
    }
    assert(rs.take(records@.len() as int) =~= rs);
    let result = match read_error {
        Some(e) => Err(TransactionError::CsvParse(e)),
        None => Ok(()),
    };
    ProcessedInput { ledger, skipped, result }
}

} // verus!
