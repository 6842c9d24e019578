//! The schema translator for a relational destination: converts a
//! backend-neutral [`Table`](crate::schema::Table) into the destination's
//! create-table representation, and generates the bulk-load statement
//! parameterized by the table's column list in schema order.

use vstd::prelude::*;

use crate::error::Error;
use crate::schema::{Column, DataType};
use crate::values::{cols_model, lemma_type_model_of_translation, neutral_cols_model};

verus! {

/// A column type in the relational destination's dialect.
pub enum PgDataType {
    /// A boolean column.
    Boolean,
    /// A 32-bit integer column.
    Int,
    /// A 64-bit integer column.
    Bigint,
    /// A text column.
    Text,
    /// An array column. The destination's bulk-load path cannot accept
    /// these; they are rejected when the load statement is built.
    Array { elem: Box<PgDataType> },
}

/// One column of a destination table.
pub struct PgColumn {
    /// The column's name.
    pub name: String,
    /// Whether the column admits null values.
    pub is_nullable: bool,
    /// The column's destination-dialect type.
    pub data_type: PgDataType,
}

/// The destination-specific "prepared create" representation of a table:
/// everything needed to create the table and to address its columns in
/// schema order during a load.
pub struct PgCreateTable {
    /// The destination table's name.
    pub name: String,
    /// The table's columns, in the same order as the neutral schema.
    pub columns: Vec<PgColumn>,
    /// Whether creation is guarded by an "only if absent" clause.
    pub if_not_exists: bool,
}

/// Holds when `pt` is the destination-dialect translation of the neutral
/// type `dt`.
pub open spec fn pg_type_matches(dt: DataType, pt: PgDataType) -> bool
    decreases dt,
{
    match dt {
        DataType::Bool => pt is Boolean,
        DataType::Int32 => pt is Int,
        DataType::Int64 => pt is Bigint,
        DataType::Text => pt is Text,
        DataType::Array(e) => pt matches PgDataType::Array { elem } && pg_type_matches(*e, *elem),
    }
}

/// Holds when `pc` is the destination-dialect translation of the neutral
/// column `c`: same name, same nullability, translated type.
pub open spec fn pg_column_matches(c: Column, pc: PgColumn) -> bool {
    &&& pc.name@ == c.name@
    &&& pc.is_nullable == c.is_nullable
    &&& pg_type_matches(c.data_type, pc.data_type)
}

/// Translate one neutral column type into the destination's dialect.
fn pg_type_of(dt: &DataType) -> (r: PgDataType)
    ensures
        pg_type_matches(*dt, r),
    decreases *dt,
{
    match dt {
        DataType::Bool => PgDataType::Boolean,
        DataType::Int32 => PgDataType::Int,
        DataType::Int64 => PgDataType::Bigint,
        DataType::Text => PgDataType::Text,
        DataType::Array(e) => PgDataType::Array { elem: Box::new(pg_type_of(e)) },
    }
}

impl PgCreateTable {
    /// Translate a neutral schema into the destination's prepared-create
    /// representation. The translation is structural: column order,
    /// names, types and nullability carry over exactly, and no guard is
    /// set yet (the lifecycle policy decides that later).
    pub fn from_name_and_columns(name: String, columns: &Vec<Column>) -> (r: PgCreateTable)
        ensures
            r.name == name,
            r.if_not_exists == false,
            r.columns@.len() == columns@.len(),
            forall|i: int|
                0 <= i < columns@.len() ==> pg_column_matches(
                    columns@[i],
                    #[trigger] r.columns@[i],
                ),
            cols_model(r.columns@) == neutral_cols_model(columns@),
    {
        let mut pg_columns: Vec<PgColumn> = Vec::new();
        let mut i: usize = 0;
        while i < columns.len()
            invariant
                i <= columns@.len(),
                pg_columns@.len() == i,
                forall|j: int|
                    0 <= j < i ==> pg_column_matches(columns@[j], #[trigger] pg_columns@[j]),
            decreases columns@.len() - i,
        {
            let c = &columns[i];
            pg_columns.push(PgColumn {
                name: c.name.clone(),
                is_nullable: c.is_nullable,
                data_type: pg_type_of(&c.data_type),
            });
            i = i + 1;
        }
        proof {
            assert forall|j: int| 0 <= j < columns@.len() implies cols_model(pg_columns@)[j]
                == neutral_cols_model(columns@)[j] by {
                lemma_type_model_of_translation(columns@[j].data_type, pg_columns@[j].data_type);
            }
            assert(cols_model(pg_columns@) =~= neutral_cols_model(columns@));
        }
        PgCreateTable { name, columns: pg_columns, if_not_exists: false }
    }
}

/// Relies on `String::push`: appends exactly one character to the string.
#[verifier::external_body]
fn push_char(s: &mut String, c: char)
    ensures
        final(s)@ == old(s)@ + seq![c],
{
    s.push(c);
}

/// The escaped form of one identifier character: a double quote is
/// doubled, every other character stands as itself.
pub open spec fn escaped_char(c: char) -> Seq<char> {
    if c == '"' {
        seq!['"', '"']
    } else {
        seq![c]
    }
}

/// The escaped body of an identifier, character by character.
pub open spec fn escaped_ident(name: Seq<char>) -> Seq<char>
    decreases name.len(),
{
    if name.len() == 0 {
        Seq::empty()
    } else {
        escaped_char(name[0]) + escaped_ident(name.skip(1))
    }
}

/// A double-quoted identifier: the escaped body wrapped in double quotes.
pub open spec fn quoted_ident(name: Seq<char>) -> Seq<char> {
    seq!['"'] + escaped_ident(name) + seq!['"']
}

proof fn lemma_escaped_ident_snoc(name: Seq<char>, i: int)
    requires
        0 <= i < name.len(),
    ensures
        escaped_ident(name.take(i + 1)) == escaped_ident(name.take(i)) + escaped_char(name[i]),
    decreases i,
{
    let a = name.take(i + 1);
    let b = name.take(i);
    if i == 0 {
        assert(a.skip(1) =~= Seq::<char>::empty());
        assert(escaped_ident(a) == escaped_char(name[0]) + escaped_ident(a.skip(1)));
        assert(escaped_ident(b) =~= Seq::<char>::empty());
        assert(escaped_ident(a) =~= escaped_ident(b) + escaped_char(name[i]));
    } else {
        lemma_escaped_ident_snoc(name.skip(1), i - 1);
        assert(a.skip(1) =~= name.skip(1).take(i));
        assert(b.skip(1) =~= name.skip(1).take(i - 1));
        assert(name.skip(1)[i - 1] == name[i]);
        assert(escaped_ident(a) == escaped_char(name[0]) + escaped_ident(name.skip(1).take(i)));
        assert(escaped_ident(b) == escaped_char(name[0]) + escaped_ident(name.skip(1).take(i - 1)));
        assert(escaped_ident(a) =~= escaped_ident(b) + escaped_char(name[i]));
    }
}

/// Append the double-quoted, escaped form of `name` to `out`.
fn append_quoted_ident(out: &mut String, name: &str)
    ensures
        final(out)@ == old(out)@ + quoted_ident(name@),
{
    let ghost start = out@;
    push_char(out, '"');
    let n = name.unicode_len();
    let mut i: usize = 0;
    while i < n
        invariant
            n == name@.len(),
            i <= n,
            out@ == start + seq!['"'] + escaped_ident(name@.take(i as int)),
        decreases n - i,
    {
        let c = name.get_char(i);
        push_char(out, c);
        if c == '"' {
            push_char(out, '"');
        }
        proof {
            lemma_escaped_ident_snoc(name@, i as int);
            assert(out@ =~= start + seq!['"'] + escaped_ident(name@.take(i + 1)));
        }
        i = i + 1;
    }
    proof {
        assert(name@.take(n as int) =~= name@);
    }
    push_char(out, '"');
    proof {
        assert(out@ =~= start + quoted_ident(name@));
    }
}

/// The column-list lines of the bulk-load statement, from column `i` on:
/// each column's quoted name indented by four spaces, separated by commas,
/// the last line ending without one.
pub open spec fn columns_sql(columns: Seq<PgColumn>, i: int) -> Seq<char>
    decreases columns.len() - i,
{
    if i < 0 || i >= columns.len() {
        Seq::empty()
    } else {
        "    "@ + quoted_ident(columns[i].name@) + (if i + 1 == columns.len() {
            "\n"@
        } else {
            ",\n"@
        }) + columns_sql(columns, i + 1)
    }
}

/// The full bulk-load statement for `pct`, loading from the caller's
/// stream in the given data format: a copy of the table's column list in
/// schema order, never an implicit ordering.
pub open spec fn copy_from_sql_spec(pct: PgCreateTable, data_format: Seq<char>) -> Seq<char> {
    "COPY "@ + quoted_ident(pct.name@) + " (\n"@ + columns_sql(pct.columns@, 0)
        + ") FROM STDIN WITH "@ + data_format + "\n"@
}

/// The index of the first array-typed column, if any.
pub open spec fn first_array_column(columns: Seq<PgColumn>, i: int) -> Option<int>
    decreases columns.len() - i,
{
    if i < 0 || i >= columns.len() {
        None
    } else if columns[i].data_type is Array {
        Some(i)
    } else {
        first_array_column(columns, i + 1)
    }
}

/// The destination-dialect name of a column type; an array type is its
/// element type with bracket suffixes.
pub open spec fn pg_type_sql(t: PgDataType) -> Seq<char>
    decreases t,
{
    match t {
        PgDataType::Boolean => "boolean"@,
        PgDataType::Int => "integer"@,
        PgDataType::Bigint => "bigint"@,
        PgDataType::Text => "text"@,
        PgDataType::Array { elem } => pg_type_sql(*elem) + "[]"@,
    }
}

/// The column definitions of the create statement, from column `i` on:
/// quoted name, type, and a null constraint where the column forbids
/// nulls.
pub open spec fn create_columns_sql(columns: Seq<PgColumn>, i: int) -> Seq<char>
    decreases columns.len() - i,
{
    if i < 0 || i >= columns.len() {
        Seq::empty()
    } else {
        "    "@ + quoted_ident(columns[i].name@) + " "@ + pg_type_sql(columns[i].data_type) + (if columns[i].is_nullable {
            Seq::<char>::empty()
        } else {
            " NOT NULL"@
        }) + (if i + 1 == columns.len() {
            "\n"@
        } else {
            ",\n"@
        }) + create_columns_sql(columns, i + 1)
    }
}

/// The full create statement for `pct`, with the "only if absent" guard
/// exactly when the lifecycle policy set it.
pub open spec fn create_table_sql_spec(pct: PgCreateTable) -> Seq<char> {
    "CREATE TABLE "@ + (if pct.if_not_exists {
        "IF NOT EXISTS "@
    } else {
        Seq::<char>::empty()
    }) + quoted_ident(pct.name@) + " (\n"@ + create_columns_sql(pct.columns@, 0) + ")\n"@
}

fn append_pg_type(out: &mut String, t: &PgDataType)
    ensures
        final(out)@ == old(out)@ + pg_type_sql(*t),
    decreases *t,
{
    match t {
        PgDataType::Boolean => out.append("boolean"),
        PgDataType::Int => out.append("integer"),
        PgDataType::Bigint => out.append("bigint"),
        PgDataType::Text => out.append("text"),
        PgDataType::Array { elem } => {
            append_pg_type(out, elem);
            out.append("[]");
            proof {
                assert(out@ =~= old(out)@ + pg_type_sql(*t));
            }
        },
    }
}

/// Generate the create statement a destination runs to make the table:
/// every column with its quoted name, destination-dialect type, and null
/// constraint, in schema order, guarded by "only if absent" exactly when
/// the lifecycle policy asks for it.
pub fn create_table_sql(pg_create_table: &PgCreateTable) -> (r: String)
    ensures
        r@ == create_table_sql_spec(*pg_create_table),
{
    let mut sql = String::new();
    sql.append("CREATE TABLE ");
    if pg_create_table.if_not_exists {
        sql.append("IF NOT EXISTS ");
    }
    append_quoted_ident(&mut sql, pg_create_table.name.as_str());
    sql.append(" (\n");
    let n = pg_create_table.columns.len();
    let mut i: usize = 0;
    proof {
        assert(sql@ + create_columns_sql(pg_create_table.columns@, 0) =~= "CREATE TABLE "@ + (if pg_create_table.if_not_exists {
            "IF NOT EXISTS "@
        } else {
            Seq::<char>::empty()
        }) + quoted_ident(pg_create_table.name@) + " (\n"@ + create_columns_sql(
            pg_create_table.columns@,
            0,
        ));
    }
    while i < n
        invariant
            n == pg_create_table.columns@.len(),
            i <= n,
            sql@ + create_columns_sql(pg_create_table.columns@, i as int) == "CREATE TABLE "@ + (
            if pg_create_table.if_not_exists {
                "IF NOT EXISTS "@
            } else {
                Seq::<char>::empty()
            }) + quoted_ident(pg_create_table.name@) + " (\n"@ + create_columns_sql(
                pg_create_table.columns@,
                0,
            ),
        decreases n - i,
    {
        let col = &pg_create_table.columns[i];
        sql.append("    ");
        append_quoted_ident(&mut sql, col.name.as_str());
        sql.append(" ");
        append_pg_type(&mut sql, &col.data_type);
        if !col.is_nullable {
            sql.append(" NOT NULL");
        }
        if i + 1 == n {
            sql.append("\n");
        } else {
            sql.append(",\n");
        }
        proof {
            assert(sql@ + create_columns_sql(pg_create_table.columns@, i + 1) =~= "CREATE TABLE "@
                + (if pg_create_table.if_not_exists {
                "IF NOT EXISTS "@
            } else {
                Seq::<char>::empty()
            }) + quoted_ident(pg_create_table.name@) + " (\n"@ + create_columns_sql(
                pg_create_table.columns@,
                0,
            ));
        }
        i = i + 1;
    }
    sql.append(")\n");
    proof {
        assert(sql@ =~= create_table_sql_spec(*pg_create_table));
    }
    sql
}

/// The statement that unconditionally drops the table if it exists.
pub open spec fn drop_table_sql_spec(table_name: Seq<char>) -> Seq<char> {
    "DROP TABLE IF EXISTS "@ + quoted_ident(table_name)
}

/// Generate the guarded drop statement for `table_name`.
pub fn drop_table_sql(table_name: &str) -> (r: String)
    ensures
        r@ == drop_table_sql_spec(table_name@),
{
    let mut sql = String::new();
    sql.append("DROP TABLE IF EXISTS ");
    append_quoted_ident(&mut sql, table_name);
    proof {
        assert(sql@ =~= drop_table_sql_spec(table_name@));
    }
    sql
}

/// The first array-typed column is the same whether the column list is
/// read in its executable or its model form.
pub proof fn lemma_first_array_matches_model(cols: Seq<PgColumn>, i: int)
    ensures
        first_array_column(cols, i) == crate::values::first_array(cols_model(cols), i),
    decreases cols.len() - i,
{
    if 0 <= i < cols.len() {
        if !(cols[i].data_type is Array) {
            lemma_first_array_matches_model(cols, i + 1);
        }
    }
}

/// Generate the bulk-load (`COPY ... FROM`) statement for `pct`,
/// naming every column explicitly in schema order so that column-list
/// mismatches are caught at load time rather than silently miscompiled.
///
/// A schema with an array-typed column is rejected here, naming the first
/// offending column, before any destination call can be made with the
/// statement.
pub fn copy_from_sql(pg_create_table: &PgCreateTable, data_format: &str) -> (r: Result<
    String,
    Error,
>)
    ensures
        match r {
            Ok(sql) => {
                &&& first_array_column(pg_create_table.columns@, 0) is None
                &&& sql@ == copy_from_sql_spec(*pg_create_table, data_format@)
            },
            Err(e) => {
                &&& first_array_column(pg_create_table.columns@, 0) matches Some(i)
                &&& e matches Error::UnsupportedColumnType { column }
                &&& column@ == pg_create_table.columns@[first_array_column(
                    pg_create_table.columns@,
                    0,
                )->Some_0].name@
            },
        },
{
    let mut sql = String::new();
    sql.append("COPY ");
    append_quoted_ident(&mut sql, pg_create_table.name.as_str());
    sql.append(" (\n");
    let n = pg_create_table.columns.len();
    let mut i: usize = 0;
    while i < n
        invariant
            n == pg_create_table.columns@.len(),
            i <= n,
            first_array_column(pg_create_table.columns@, 0) == first_array_column(
                pg_create_table.columns@,
                i as int,
            ),
            sql@ + columns_sql(pg_create_table.columns@, i as int) == "COPY "@ + quoted_ident(
                pg_create_table.name@,
            ) + " (\n"@ + columns_sql(pg_create_table.columns@, 0),
        decreases n - i,
    {
        let col = &pg_create_table.columns[i];
        if let PgDataType::Array { .. } = col.data_type {
            return Err(Error::UnsupportedColumnType { column: col.name.clone() });
        }
        sql.append("    ");
        append_quoted_ident(&mut sql, col.name.as_str());
        if i + 1 == n {
            sql.append("\n");
        } else {
            sql.append(",\n");
        }
        proof {
            assert(sql@ + columns_sql(pg_create_table.columns@, i + 1) =~= "COPY "@
                + quoted_ident(pg_create_table.name@) + " (\n"@ + columns_sql(
                pg_create_table.columns@,
                0,
            ));
        }
        i = i + 1;
    }
    sql.append(") FROM STDIN WITH ");
    sql.append(data_format);
    sql.append("\n");
    proof {
        assert(sql@ =~= copy_from_sql_spec(*pg_create_table, data_format@));
    }
    Ok(sql)
}

} // verus!
