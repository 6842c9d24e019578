//! Backend-neutral table schemas and the destination-table lifecycle
//! policy.

use vstd::prelude::*;

verus! {

/// A backend-neutral column type.
pub enum DataType {
    /// A boolean value.
    Bool,
    /// A 32-bit signed integer.
    Int32,
    /// A 64-bit signed integer.
    Int64,
    /// A text value.
    Text,
    /// An array of some element type. Destinations in this library cannot
    /// bulk-load arrays; schemas containing one are rejected before any
    /// destination call is made.
    Array(Box<DataType>),
}

/// One column of a backend-neutral table schema.
pub struct Column {
    /// The column's name.
    pub name: String,
    /// The column's backend-neutral type.
    pub data_type: DataType,
    /// Whether the column admits null values.
    pub is_nullable: bool,
}

/// A backend-neutral table schema: a name and an ordered sequence of
/// columns. A schema is fixed for the lifetime of one transfer; no stage
/// mutates column order or types.
pub struct Table {
    /// The table's name.
    pub name: String,
    /// The table's columns, in order.
    pub columns: Vec<Column>,
}

/// What to do when the destination table already exists. The policy is
/// applied once per destination table per transfer.
pub enum IfExists {
    /// Destroy any existing destination table and recreate it.
    Overwrite,
    /// Create the table if absent; otherwise reuse whatever is there.
    Append,
    /// Fail if the destination table already exists.
    Error,
}

} // verus!
