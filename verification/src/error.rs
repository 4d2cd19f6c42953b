//! The errors of transaction processing, and their messages.
use vstd::prelude::*;

use crate::text::{nat_text, push_int, push_str};

verus! {

/// `csv::Error`, carried opaquely.
#[verifier::external_type_specification]
#[verifier::external_body]
pub struct ExCsvError(csv::Error);

/// `std::io::Error`, carried opaquely.
#[verifier::external_type_specification]
#[verifier::external_body]
pub struct ExIoError(std::io::Error);

/// Represents all possible errors that can occur during transaction processing.
#[derive(Debug)]
pub enum TransactionError {
    /// Insufficient funds for the requested operation
    InsufficientAmount { client: u16, tx: u32 },
    /// Account is locked due to chargeback and cannot be used
    AccountLocked(u16),
    /// Referenced transaction ID not found in history
    TransactionNotFound(u32),
    /// Operation requires transaction to be in disputed state
    TransactionNotDisputed(u32),
    /// Transaction is already disputed and cannot be disputed again
    TransactionAlreadyDisputed(u32),
    /// Client ID mismatch between transaction and operation
    ClientMismatch { tx: u32, expected: u16, got: u16 },
    /// Transaction type requires an amount but none was provided
    MissingAmount(u32),
    /// Amount string could not be parsed or is invalid
    InvalidAmount(String),
    /// Unknown transaction type encountered in CSV
    UnknownTransactionType(String),
    /// CSV record is malformed or missing required fields
    MalformedRecord,
    /// Numeric overflow occurred during calculation
    NumericOverflow(u32),
    /// CSV parsing error from underlying csv crate
    CsvParse(csv::Error),
    /// I/O error during file operations
    Io(std::io::Error),
}

/// What an error says, with its texts as character sequences; the csv and I/O
/// errors are known only by their kind.
pub enum ErrorModel {
    InsufficientAmount { client: u16, tx: u32 },
    AccountLocked(u16),
    TransactionNotFound(u32),
    TransactionNotDisputed(u32),
    TransactionAlreadyDisputed(u32),
    ClientMismatch { tx: u32, expected: u16, got: u16 },
    MissingAmount(u32),
    InvalidAmount(Seq<char>),
    UnknownTransactionType(Seq<char>),
    MalformedRecord,
    NumericOverflow(u32),
    CsvParse,
    Io,
}

impl View for TransactionError {
    type V = ErrorModel;

    open spec fn view(&self) -> ErrorModel {
        match self {
            TransactionError::InsufficientAmount { client, tx } => ErrorModel::InsufficientAmount {
                client: *client,
                tx: *tx,
            },
            TransactionError::AccountLocked(c) => ErrorModel::AccountLocked(*c),
            TransactionError::TransactionNotFound(t) => ErrorModel::TransactionNotFound(*t),
            TransactionError::TransactionNotDisputed(t) => ErrorModel::TransactionNotDisputed(*t),
            TransactionError::TransactionAlreadyDisputed(t) => ErrorModel::TransactionAlreadyDisputed(
                *t,
            ),
            TransactionError::ClientMismatch { tx, expected, got } => ErrorModel::ClientMismatch {
                tx: *tx,
                expected: *expected,
                got: *got,
            },
            TransactionError::MissingAmount(t) => ErrorModel::MissingAmount(*t),
            TransactionError::InvalidAmount(s) => ErrorModel::InvalidAmount(s@),
            TransactionError::UnknownTransactionType(s) => ErrorModel::UnknownTransactionType(s@),
            TransactionError::MalformedRecord => ErrorModel::MalformedRecord,
            TransactionError::NumericOverflow(t) => ErrorModel::NumericOverflow(*t),
            TransactionError::CsvParse(_) => ErrorModel::CsvParse,
            TransactionError::Io(_) => ErrorModel::Io,
        }
    }
}

/// The model of a result that carries a `TransactionError`.
pub open spec fn result_model<T>(r: Result<T, TransactionError>) -> Result<T, ErrorModel> {
    match r {
        Ok(v) => Ok(v),
        Err(e) => Err(e@),
    }
}

/// The human-readable message of an error of the library's own kinds; `None`
/// for the csv and I/O errors, whose messages end in the text of the inner error.
pub open spec fn message(e: ErrorModel) -> Option<Seq<char>> {
    match e {
        ErrorModel::InsufficientAmount { client, tx } => Some(
            "insufficient amount for client="@ + nat_text(client as nat) + " transaction="@
                + nat_text(tx as nat),
        ),
        ErrorModel::AccountLocked(client) => Some(
            "client="@ + nat_text(client as nat) + " account locked"@,
        ),
        ErrorModel::TransactionNotFound(tx) => Some(
            "transaction="@ + nat_text(tx as nat) + " not found"@,
        ),
        ErrorModel::TransactionNotDisputed(tx) => Some(
            "transaction="@ + nat_text(tx as nat) + " is not disputed"@,
        ),
        ErrorModel::TransactionAlreadyDisputed(tx) => Some(
            "transaction="@ + nat_text(tx as nat) + " is already being disputed"@,
        ),
        ErrorModel::ClientMismatch { tx, expected, got } => Some(
            "client mismatch for transaction="@ + nat_text(tx as nat) + ": expected="@
                + nat_text(expected as nat) + " got="@ + nat_text(got as nat),
        ),
        ErrorModel::MissingAmount(tx) => Some(
            "missing amount for transaction="@ + nat_text(tx as nat),
        ),
        ErrorModel::InvalidAmount(s) => Some("invalid amount: "@ + s),
        ErrorModel::UnknownTransactionType(s) => Some("unknown transaction type: "@ + s),
        ErrorModel::MalformedRecord => Some("malformed csv record"@),
        ErrorModel::NumericOverflow(tx) => Some(
            "numeric overflow for transaction="@ + nat_text(tx as nat),
        ),
        ErrorModel::CsvParse => None,
        ErrorModel::Io => None,
    }
}

impl From<csv::Error> for TransactionError {
    /// Converts csv::Error to TransactionError for error handling.
    fn from(e: csv::Error) -> (r: Self) {
        TransactionError::CsvParse(e)
    }
}

impl vstd::std_specs::convert::FromSpecImpl<csv::Error> for TransactionError {
    open spec fn obeys_from_spec() -> bool {
        true
    }

    open spec fn from_spec(e: csv::Error) -> TransactionError {
        TransactionError::CsvParse(e)
    }
}

impl From<std::io::Error> for TransactionError {
    /// Converts std::io::Error to TransactionError for error handling.
    fn from(e: std::io::Error) -> (r: Self) {
        TransactionError::Io(e)
    }
}

impl vstd::std_specs::convert::FromSpecImpl<std::io::Error> for TransactionError {
    open spec fn obeys_from_spec() -> bool {
        true
    }

    open spec fn from_spec(e: std::io::Error) -> TransactionError {
        TransactionError::Io(e)
    }
}

/// `Display` of `csv::Error`.
#[verifier::external_body]
fn csv_error_text(e: &csv::Error) -> String {
    format!("{}", e)
}

/// `Display` of `std::io::Error`.
#[verifier::external_body]
fn io_error_text(e: &std::io::Error) -> String {
    format!("{}", e)
}

impl TransactionError {
    /// The human-readable message of the error, for logging.
    pub fn to_string(&self) -> (r: String)
        ensures
            message(self@) matches Some(m) ==> r@ == m,
            self@ is CsvParse ==> r@.len() >= "csv parse error: "@.len() && r@.take(
                "csv parse error: "@.len() as int,
            ) == "csv parse error: "@,
            self@ is Io ==> r@.len() >= "io error: "@.len() && r@.take("io error: "@.len() as int)
                == "io error: "@,
    {
        let mut s = String::new();
        match self {
            TransactionError::InsufficientAmount { client, tx } => {
                push_str(&mut s, "insufficient amount for client=");
                push_int(&mut s, *client as i64);
                push_str(&mut s, " transaction=");
                push_int(&mut s, *tx as i64);
            },
            TransactionError::AccountLocked(client) => {
                push_str(&mut s, "client=");
                push_int(&mut s, *client as i64);
                push_str(&mut s, " account locked");
            },
            TransactionError::TransactionNotFound(tx) => {
                push_str(&mut s, "transaction=");
                push_int(&mut s, *tx as i64);
                push_str(&mut s, " not found");
            },
            TransactionError::TransactionNotDisputed(tx) => {
                push_str(&mut s, "transaction=");
                push_int(&mut s, *tx as i64);
                push_str(&mut s, " is not disputed");
            },
            TransactionError::TransactionAlreadyDisputed(tx) => {
                push_str(&mut s, "transaction=");
                push_int(&mut s, *tx as i64);
                push_str(&mut s, " is already being disputed");
            },
            TransactionError::ClientMismatch { tx, expected, got } => {
                push_str(&mut s, "client mismatch for transaction=");
                push_int(&mut s, *tx as i64);
                push_str(&mut s, ": expected=");
                push_int(&mut s, *expected as i64);
                push_str(&mut s, " got=");
                push_int(&mut s, *got as i64);
            },
            TransactionError::MissingAmount(tx) => {
                push_str(&mut s, "missing amount for transaction=");
                push_int(&mut s, *tx as i64);
            },
            TransactionError::InvalidAmount(text) => {
                push_str(&mut s, "invalid amount: ");
                push_str(&mut s, text.as_str());
            },
            TransactionError::UnknownTransactionType(text) => {
                push_str(&mut s, "unknown transaction type: ");
                push_str(&mut s, text.as_str());
            },
            TransactionError::MalformedRecord => {
                push_str(&mut s, "malformed csv record");
            },
            TransactionError::NumericOverflow(tx) => {
                push_str(&mut s, "numeric overflow for transaction=");
                push_int(&mut s, *tx as i64);
            },
            TransactionError::CsvParse(e) => {
                push_str(&mut s, "csv parse error: ");
                let inner = csv_error_text(e);
                let ghost before = s@;
                push_str(&mut s, inner.as_str());
                assert(s@.take(before.len() as int) =~= before);
            },
            TransactionError::Io(e) => {
                push_str(&mut s, "io error: ");
                let inner = io_error_text(e);
                let ghost before = s@;
                push_str(&mut s, inner.as_str());
                assert(s@.take(before.len() as int) =~= before);
            },
        }
        s
    }
}

} // verus!
