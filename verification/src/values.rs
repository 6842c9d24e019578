//! Row values as they travel through the engine, and their mathematical
//! model.

use vstd::prelude::*;

use crate::pg_schema::{pg_type_matches, PgColumn, PgDataType};
use crate::schema::{Column, DataType};

verus! {

/// One field of one row, after conversion from the delimited-text
/// representation. Text payloads are carried as their raw bytes.
pub enum PgValue {
    /// An absent value.
    Null,
    /// A boolean value.
    Bool(bool),
    /// A 32-bit signed integer.
    Int32(i32),
    /// A 64-bit signed integer.
    Int64(i64),
    /// A text value, as bytes.
    Text(Vec<u8>),
}

/// The mathematical model of a [`PgValue`]: the same variants, with text
/// carried as a byte sequence.
pub enum ValueKind {
    /// An absent value.
    Null,
    /// A boolean value.
    Bool(bool),
    /// A 32-bit signed integer.
    Int32(i32),
    /// A 64-bit signed integer.
    Int64(i64),
    /// A text value, as a byte sequence.
    Text(Seq<u8>),
}

impl View for PgValue {
    type V = ValueKind;

    open spec fn view(&self) -> ValueKind {
        match self {
            PgValue::Null => ValueKind::Null,
            PgValue::Bool(b) => ValueKind::Bool(*b),
            PgValue::Int32(x) => ValueKind::Int32(*x),
            PgValue::Int64(x) => ValueKind::Int64(*x),
            PgValue::Text(bs) => ValueKind::Text(bs@),
        }
    }
}

/// The model of one row: its values in column order.
pub open spec fn row_view(row: Seq<PgValue>) -> Seq<ValueKind> {
    row.map_values(|v: PgValue| v@)
}

/// The model of a sequence of rows.
pub open spec fn rows_view(rows: Seq<Vec<PgValue>>) -> Seq<Seq<ValueKind>> {
    rows.map_values(|r: Vec<PgValue>| row_view(r@))
}

/// A column type as the wire formats see it. Array element types never
/// matter to them — an array column is refused whole — so arrays collapse
/// to one variant.
pub enum TypeModel {
    /// A boolean column.
    Boolean,
    /// A 32-bit integer column.
    Int,
    /// A 64-bit integer column.
    Bigint,
    /// A text column.
    Text,
    /// An array column, of any element type.
    Array,
}

/// The wire-format view of a destination-dialect type.
pub open spec fn type_model(pt: PgDataType) -> TypeModel {
    match pt {
        PgDataType::Boolean => TypeModel::Boolean,
        PgDataType::Int => TypeModel::Int,
        PgDataType::Bigint => TypeModel::Bigint,
        PgDataType::Text => TypeModel::Text,
        PgDataType::Array { .. } => TypeModel::Array,
    }
}

/// The wire-format view of a backend-neutral type.
pub open spec fn neutral_type_model(dt: DataType) -> TypeModel {
    match dt {
        DataType::Bool => TypeModel::Boolean,
        DataType::Int32 => TypeModel::Int,
        DataType::Int64 => TypeModel::Bigint,
        DataType::Text => TypeModel::Text,
        DataType::Array(_) => TypeModel::Array,
    }
}

/// The two views agree across the schema translation.
pub proof fn lemma_type_model_of_translation(dt: DataType, pt: PgDataType)
    requires
        pg_type_matches(dt, pt),
    ensures
        type_model(pt) == neutral_type_model(dt),
{
}

/// The model of one destination column: its name, nullability and type.
pub struct ColumnModel {
    /// The column's name.
    pub name: Seq<char>,
    /// Whether the column admits null values.
    pub is_nullable: bool,
    /// The column's type, as the wire formats see it.
    pub data_type: TypeModel,
}

/// The model of one destination column, from its executable form.
pub open spec fn col_model(c: PgColumn) -> ColumnModel {
    ColumnModel { name: c.name@, is_nullable: c.is_nullable, data_type: type_model(c.data_type) }
}

/// The model of one backend-neutral column.
pub open spec fn neutral_col_model(c: Column) -> ColumnModel {
    ColumnModel {
        name: c.name@,
        is_nullable: c.is_nullable,
        data_type: neutral_type_model(c.data_type),
    }
}

/// The model of a backend-neutral column list, in order.
pub open spec fn neutral_cols_model(cols: Seq<Column>) -> Seq<ColumnModel> {
    cols.map_values(|c: Column| neutral_col_model(c))
}

/// The model of a destination column list, in order.
pub open spec fn cols_model(cols: Seq<PgColumn>) -> Seq<ColumnModel> {
    cols.map_values(|c: PgColumn| col_model(c))
}

/// The index of the first array-typed column at or after `i`, if any.
pub open spec fn first_array(cols: Seq<ColumnModel>, i: int) -> Option<int>
    decreases cols.len() - i,
{
    if i < 0 || i >= cols.len() {
        None
    } else if cols[i].data_type is Array {
        Some(i)
    } else {
        first_array(cols, i + 1)
    }
}

/// When a first array-typed column exists, its index is in range and it
/// is indeed array-typed.
pub proof fn lemma_first_array_some(cols: Seq<ColumnModel>, i: int)
    requires
        0 <= i,
        first_array(cols, i) is Some,
    ensures
        i <= first_array(cols, i)->Some_0 < cols.len(),
        cols[first_array(cols, i)->Some_0].data_type is Array,
    decreases cols.len() - i,
{
    if i < cols.len() && !(cols[i].data_type is Array) {
        lemma_first_array_some(cols, i + 1);
    }
}

/// Holds when value `v` may stand in column `c`: nulls only in nullable
/// columns, every other variant only in a column of its type, and a text
/// payload short enough that its byte length fits the wire format's
/// length field.
pub open spec fn value_matches(v: ValueKind, c: ColumnModel) -> bool {
    match v {
        ValueKind::Null => c.is_nullable,
        ValueKind::Bool(_) => c.data_type is Boolean,
        ValueKind::Int32(_) => c.data_type is Int,
        ValueKind::Int64(_) => c.data_type is Bigint,
        ValueKind::Text(bs) => c.data_type is Text && bs.len() < 0xFFFF_FFFF,
    }
}

/// Holds when `row` is well-typed for the column list `cols`: one value
/// per column, each matching its column.
pub open spec fn row_matches(row: Seq<ValueKind>, cols: Seq<ColumnModel>) -> bool {
    &&& row.len() == cols.len()
    &&& forall|i: int| 0 <= i < row.len() ==> value_matches(#[trigger] row[i], cols[i])
}

/// Holds when every row of `rows` is well-typed for `cols`.
pub open spec fn rows_match(rows: Seq<Seq<ValueKind>>, cols: Seq<ColumnModel>) -> bool {
    forall|i: int| 0 <= i < rows.len() ==> row_matches(#[trigger] rows[i], cols)
}

} // verus!
