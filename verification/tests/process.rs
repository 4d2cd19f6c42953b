use serde::ser::SerializeStruct;
use serde::{Serialize, Serializer};

use transactions_engine::account::SerializedAccount;
use transactions_engine::error::TransactionError;
use transactions_engine::process::{process_input, SkippedRecord};

/// An output row written as the command line writes it.
struct OutputRow(SerializedAccount);

impl Serialize for OutputRow {
    fn serialize<S: Serializer>(&self, serializer: S) -> Result<S::Ok, S::Error> {
        let mut row = serializer.serialize_struct("SerializedAccount", 5)?;
        row.serialize_field("client", &self.0.client)?;
        row.serialize_field("available", &self.0.available.to_string())?;
        row.serialize_field("held", &self.0.held.to_string())?;
        row.serialize_field("total", &self.0.total.to_string())?;
        row.serialize_field("locked", &self.0.locked)?;
        row.end()
    }
}

fn output_of(input: &[u8]) -> String {
    let processed = process_input(input);
    processed.result.unwrap();
    let mut writer = csv::WriterBuilder::new().from_writer(Vec::new());
    for account in processed.ledger.accounts() {
        writer.serialize(OutputRow(SerializedAccount::from(&account))).unwrap();
    }
    String::from_utf8(writer.into_inner().unwrap()).unwrap()
}

#[test]
fn test_write_output_correct_csv() {
    let input = b"type,client,tx,amount\ndeposit,1,1,10.5000\n";
    let csv = output_of(input);
    assert!(csv.contains("client"));
    assert!(csv.contains("available"));
    assert!(csv.contains("10.5000"));
    assert!(csv.contains("false"));
}

#[test]
fn output_row_is_exact() {
    let csv = output_of(b"type,client,tx,amount\ndeposit,1,1,10.5000\nwithdrawal,1,2,0.5\n");
    assert_eq!(csv, "client,available,held,total,locked\n1,10.0000,0.0000,10.0000,false\n");
}

#[test]
fn skipped_records_are_noted_in_order() {
    let input = b"type,client,tx,amount\nrefund,1,1,1.0\ndeposit,1,1,5.0\nwithdrawal,1,2,9.0\ndeposit,x,3,1.0\n";
    let processed = process_input(input);
    assert!(processed.result.is_ok());
    assert_eq!(processed.skipped.len(), 3);
    assert!(matches!(
        &processed.skipped[0],
        SkippedRecord::Malformed(TransactionError::UnknownTransactionType(_))
    ));
    assert!(matches!(
        &processed.skipped[1],
        SkippedRecord::Refused(TransactionError::InsufficientAmount { client: 1, tx: 2 })
    ));
    assert!(matches!(&processed.skipped[2], SkippedRecord::Malformed(TransactionError::MalformedRecord)));
    assert_eq!(processed.ledger.account(1).unwrap().available.0, 50_000);
}

#[test]
fn header_only_input_gives_empty_ledger() {
    let processed = process_input(b"type,client,tx,amount\n");
    assert!(processed.result.is_ok());
    assert!(processed.skipped.is_empty());
    assert!(processed.ledger.accounts().is_empty());
}
