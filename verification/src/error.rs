//! Errors raised by the data-movement engine.

use vstd::prelude::*;

verus! {

/// Every failure the engine can report. Each variant carries enough
/// context (table name, column name, locator address) for a caller to log
/// the causal chain.
#[derive(Debug)]
pub enum Error {
    /// A locator string did not match any backend's address syntax.
    AddressParse { address: String },
    /// A staged transfer path was required, but no temporary storage
    /// location usable by both ends was configured.
    NoTemporaryStorage,
    /// The destination cannot represent a column of this type; the
    /// offending column is named.
    UnsupportedColumnType { column: String },
    /// A record in a row stream did not have one field per column of the
    /// destination table.
    ColumnCountMismatch { table: String },
    /// The destination table already exists and the lifecycle policy
    /// forbids reusing it.
    TableAlreadyExists { table: String },
    /// The destination table does not exist, but data was addressed to it.
    NoSuchTable { table: String },
    /// A field in a row stream could not be converted to the column's
    /// type (malformed integer or boolean, or a null in a column that
    /// forbids nulls).
    InvalidValue { column: String },
    /// A byte sequence was not well-formed in the expected wire format.
    MalformedData,
}

/// The text of an error's message.
pub open spec fn message_spec(e: Error) -> Seq<char> {
    match e {
        Error::AddressParse { address } => "cannot parse locator address: "@ + address@,
        Error::NoTemporaryStorage => "no temporary storage is configured for the staged transfer path"@,
        Error::UnsupportedColumnType { column } => "cannot represent column in the destination: "@
            + column@,
        Error::ColumnCountMismatch { table } => "record does not match the column list of table: "@
            + table@,
        Error::TableAlreadyExists { table } => "table already exists: "@ + table@,
        Error::NoSuchTable { table } => "no such table: "@ + table@,
        Error::InvalidValue { column } => "malformed value for column: "@ + column@,
        Error::MalformedData => "malformed data in wire format"@,
    }
}

impl Error {
    /// A human-readable rendering of the error, for callers that log or
    /// display failures.
    pub fn message(&self) -> (r: String)
        ensures
            r@ == message_spec(*self),
    {
        match self {
            Error::AddressParse { address } => {
                let mut m = String::from_str("cannot parse locator address: ");
                m.append(address.as_str());
                m
            },
            Error::NoTemporaryStorage => {
                String::from_str("no temporary storage is configured for the staged transfer path")
            },
            Error::UnsupportedColumnType { column } => {
                let mut m = String::from_str("cannot represent column in the destination: ");
                m.append(column.as_str());
                m
            },
            Error::ColumnCountMismatch { table } => {
                let mut m = String::from_str("record does not match the column list of table: ");
                m.append(table.as_str());
                m
            },
            Error::TableAlreadyExists { table } => {
                let mut m = String::from_str("table already exists: ");
                m.append(table.as_str());
                m
            },
            Error::NoSuchTable { table } => {
                let mut m = String::from_str("no such table: ");
                m.append(table.as_str());
                m
            },
            Error::InvalidValue { column } => {
                let mut m = String::from_str("malformed value for column: ");
                m.append(column.as_str());
                m
            },
            Error::MalformedData => {
                String::from_str("malformed data in wire format")
            },
        }
    }
}

} // verus!
