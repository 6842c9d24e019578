//! The destination-visible state of the relational backend, and the
//! table-lifecycle and bulk-load operations against it.
//!
//! The destination is modelled as the state a client would observe: the
//! set of tables, each with its column list and its committed rows in
//! commit order. The lifecycle operations implement the
//! [`IfExists`](crate::schema::IfExists) policy exactly, and the load
//! operation commits one whole payload atomically — a malformed payload
//! changes nothing.

use vstd::prelude::*;

use crate::binary_format::{dec_copy_data, decode_copy_data};
use crate::error::Error;
use crate::pg_schema::{PgColumn, PgCreateTable, PgDataType};
use crate::schema::IfExists;
use crate::values::{cols_model, rows_view, ColumnModel, PgValue, ValueKind};

verus! {

/// One table as the destination sees it.
pub struct DbTable {
    /// The table's name.
    pub name: String,
    /// The table's columns, in order.
    pub columns: Vec<PgColumn>,
    /// The table's committed rows, in commit order.
    pub rows: Vec<Vec<PgValue>>,
}

/// The destination backend's visible state: its tables, in creation
/// order.
pub struct Destination {
    /// The tables the destination holds.
    pub tables: Vec<DbTable>,
}

/// The mathematical model of one destination table.
pub struct TableModel {
    /// The table's name.
    pub name: Seq<char>,
    /// The table's columns, in order.
    pub columns: Seq<ColumnModel>,
    /// The table's committed rows, in commit order.
    pub rows: Seq<Seq<ValueKind>>,
}

/// The model of one table, from its executable form.
pub open spec fn table_model(t: DbTable) -> TableModel {
    TableModel { name: t.name@, columns: cols_model(t.columns@), rows: rows_view(t.rows@) }
}

impl View for Destination {
    type V = Seq<TableModel>;

    open spec fn view(&self) -> Seq<TableModel> {
        self.tables@.map_values(|t: DbTable| table_model(t))
    }
}

/// Whether some table named `name` exists.
pub open spec fn has_table(ts: Seq<TableModel>, name: Seq<char>) -> bool {
    exists|i: int| 0 <= i < ts.len() && ts[i].name == name
}

/// The index of the table named `name` (meaningful only when it exists;
/// well-formedness makes it unique).
pub open spec fn table_at(ts: Seq<TableModel>, name: Seq<char>) -> int {
    choose|i: int| 0 <= i < ts.len() && ts[i].name == name
}

/// A well-formed destination: table names are unique.
pub open spec fn wf_dest(ts: Seq<TableModel>) -> bool {
    forall|i: int, j: int| 0 <= i < j < ts.len() ==> ts[i].name != ts[j].name
}

/// The destination after dropping the table named `name`, if present.
pub open spec fn spec_drop(ts: Seq<TableModel>, name: Seq<char>) -> Seq<TableModel> {
    if has_table(ts, name) {
        ts.remove(table_at(ts, name))
    } else {
        ts
    }
}

/// The model of a table just created from `pct`: its name and columns,
/// and no rows.
pub open spec fn empty_table_model(pct: PgCreateTable) -> TableModel {
    TableModel { name: pct.name@, columns: cols_model(pct.columns@), rows: Seq::empty() }
}

/// The destination after appending `rows` to the table at index `i`.
pub open spec fn with_rows_appended(ts: Seq<TableModel>, i: int, rows: Seq<Seq<ValueKind>>) -> Seq<
    TableModel,
> {
    ts.update(i, TableModel { rows: ts[i].rows + rows, ..ts[i] })
}

/// Dropping preserves well-formedness and removes the name entirely.
pub proof fn lemma_spec_drop_wf(ts: Seq<TableModel>, name: Seq<char>)
    requires
        wf_dest(ts),
    ensures
        wf_dest(spec_drop(ts, name)),
        !has_table(spec_drop(ts, name), name),
{
    if has_table(ts, name) {
        let k = table_at(ts, name);
        let r = ts.remove(k);
        assert forall|i: int, j: int| 0 <= i < j < r.len() implies r[i].name != r[j].name by {
            assert(r[i] == if i < k {
                ts[i]
            } else {
                ts[i + 1]
            });
            assert(r[j] == if j < k {
                ts[j]
            } else {
                ts[j + 1]
            });
        }
        assert forall|i: int| 0 <= i < r.len() implies r[i].name != name by {
            assert(r[i] == if i < k {
                ts[i]
            } else {
                ts[i + 1]
            });
        }
    }
}

/// Compare two string slices by their character sequences.
fn str_eq(a: &str, b: &str) -> (r: bool)
    ensures
        r == (a@ == b@),
{
    let sa = a.to_owned();
    let sb = b.to_owned();
    sa == sb
}

/// Find the table named `name`, returning the first index holding it.
fn find_table(tables: &Vec<DbTable>, name: &str) -> (r: Option<usize>)
    ensures
        match r {
            Some(i) => {
                &&& i < tables@.len()
                &&& tables@[i as int].name@ == name@
                &&& forall|j: int| 0 <= j < i ==> tables@[j].name@ != name@
            },
            None => forall|j: int| 0 <= j < tables@.len() ==> tables@[j].name@ != name@,
        },
{
    let mut i: usize = 0;
    while i < tables.len()
        invariant
            i <= tables@.len(),
            forall|j: int| 0 <= j < i ==> tables@[j].name@ != name@,
        decreases tables@.len() - i,
    {
        if str_eq(tables[i].name.as_str(), name) {
            return Some(i);
        }
        i = i + 1;
    }
    None
}

/// Clone a destination-dialect type.
fn clone_pg_type(t: &PgDataType) -> (r: PgDataType)
    ensures
        r == *t,
    decreases *t,
{
    match t {
        PgDataType::Boolean => PgDataType::Boolean,
        PgDataType::Int => PgDataType::Int,
        PgDataType::Bigint => PgDataType::Bigint,
        PgDataType::Text => PgDataType::Text,
        PgDataType::Array { elem } => PgDataType::Array { elem: Box::new(clone_pg_type(elem)) },
    }
}

/// Clone a column list, preserving its model exactly.
fn clone_columns(cols: &Vec<PgColumn>) -> (r: Vec<PgColumn>)
    ensures
        cols_model(r@) == cols_model(cols@),
{
    let mut out: Vec<PgColumn> = Vec::new();
    let mut i: usize = 0;
    while i < cols.len()
        invariant
            i <= cols@.len(),
            out@.len() == i,
            forall|j: int|
                0 <= j < i ==> cols_model(out@)[j] == cols_model(cols@)[j],
        decreases cols@.len() - i,
    {
        let c = &cols[i];
        out.push(PgColumn {
            name: c.name.clone(),
            is_nullable: c.is_nullable,
            data_type: clone_pg_type(&c.data_type),
        });
        i = i + 1;
    }
    proof {
        assert(cols_model(out@) =~= cols_model(cols@));
    }
    out
}

/// If a table named `table_name` exists, remove it; otherwise change
/// nothing. Corresponds to an unconditional guarded drop, and cannot
/// fail.
pub fn drop_table_if_exists(conn: &mut Destination, table_name: &str) -> (r: Result<(), Error>)
    requires
        wf_dest(old(conn)@),
    ensures
        r is Ok,
        final(conn)@ == spec_drop(old(conn)@, table_name@),
        wf_dest(final(conn)@),
        !has_table(final(conn)@, table_name@),
{
    proof {
        lemma_spec_drop_wf(old(conn)@, table_name@);
    }
    match find_table(&conn.tables, table_name) {
        None => {
            proof {
                assert(!has_table(conn@, table_name@));
            }
            Ok(())
        },
        Some(i) => {
            proof {
                assert(conn@[i as int].name == table_name@);
                assert(has_table(conn@, table_name@));
                let k = table_at(old(conn)@, table_name@);
                assert(old(conn)@[k].name == table_name@);
                assert(k == i as int);
            }
            conn.tables.remove(i);
            proof {
                assert(conn@ =~= old(conn)@.remove(i as int));
            }
            Ok(())
        },
    }
}

/// Create the table described by `pg_create_table`. If a table of that
/// name already exists: succeed without changing anything when the
/// "only if absent" guard is set, and fail with a table-lifecycle error
/// otherwise. The new table starts empty.
pub fn create_table(conn: &mut Destination, pg_create_table: &PgCreateTable) -> (r: Result<
    (),
    Error,
>)
    requires
        wf_dest(old(conn)@),
    ensures
        wf_dest(final(conn)@),
        match r {
            Ok(()) => {
                if has_table(old(conn)@, pg_create_table.name@) {
                    &&& pg_create_table.if_not_exists
                    &&& final(conn)@ == old(conn)@
                } else {
                    final(conn)@ == old(conn)@.push(empty_table_model(*pg_create_table))
                }
            },
            Err(e) => {
                &&& e matches Error::TableAlreadyExists { table } && table@
                    == pg_create_table.name@
                &&& has_table(old(conn)@, pg_create_table.name@)
                &&& !pg_create_table.if_not_exists
                &&& final(conn)@ == old(conn)@
            },
        },
{
    match find_table(&conn.tables, pg_create_table.name.as_str()) {
        Some(i) => {
            proof {
                assert(conn@[i as int].name == pg_create_table.name@);
                assert(has_table(conn@, pg_create_table.name@));
            }
            if pg_create_table.if_not_exists {
                Ok(())
            } else {
                Err(Error::TableAlreadyExists { table: pg_create_table.name.clone() })
            }
        },
        None => {
            proof {
                assert(!has_table(conn@, pg_create_table.name@));
            }
            let t = DbTable {
                name: pg_create_table.name.clone(),
                columns: clone_columns(&pg_create_table.columns),
                rows: Vec::new(),
            };
            proof {
                assert(rows_view(t.rows@) =~= Seq::<Seq<ValueKind>>::empty());
                assert(table_model(t) == empty_table_model(*pg_create_table));
            }
            conn.tables.push(t);
            proof {
                assert(conn@ =~= old(conn)@.push(empty_table_model(*pg_create_table)));
                assert forall|i: int, j: int| 0 <= i < j < conn@.len() implies conn@[i].name
                    != conn@[j].name by {
                    if j < conn@.len() - 1 {
                        assert(conn@[i] == old(conn)@[i] && conn@[j] == old(conn)@[j]);
                    } else {
                        assert(conn@[i] == old(conn)@[i]);
                        assert(!has_table(old(conn)@, pg_create_table.name@));
                    }
                }
            }
            Ok(())
        },
    }
}

/// Run the drop and/or create needed to make the destination table ready
/// for loading, under the caller's lifecycle policy: destroy and recreate
/// for `Overwrite`, create only if absent for `Append` (keeping whatever
/// rows are already there), and create without a guard for `Error`, so
/// that a pre-existing table fails the whole transfer before any data is
/// sent.
pub fn prepare_table(conn: &mut Destination, pg_create_table: PgCreateTable, if_exists: IfExists) -> (r:
    Result<(), Error>)
    requires
        wf_dest(old(conn)@),
    ensures
        wf_dest(final(conn)@),
        match if_exists {
            IfExists::Overwrite => r is Ok && final(conn)@ == spec_drop(
                old(conn)@,
                pg_create_table.name@,
            ).push(empty_table_model(pg_create_table)),
            IfExists::Append => r is Ok && (if has_table(old(conn)@, pg_create_table.name@) {
                final(conn)@ == old(conn)@
            } else {
                final(conn)@ == old(conn)@.push(empty_table_model(pg_create_table))
            }),
            IfExists::Error => {
                if has_table(old(conn)@, pg_create_table.name@) {
                    &&& r matches Err(e)
                    &&& e matches Error::TableAlreadyExists { table } && table@
                        == pg_create_table.name@
                    &&& final(conn)@ == old(conn)@
                } else {
                    &&& r is Ok
                    &&& final(conn)@ == old(conn)@.push(empty_table_model(pg_create_table))
                }
            },
        },
{
    let mut pct = pg_create_table;
    match if_exists {
        IfExists::Overwrite => {
            let dropped = drop_table_if_exists(conn, pct.name.as_str());
            if let Err(e) = dropped {
                return Err(e);
            }
            pct.if_not_exists = false;
        },
        IfExists::Append => {
            pct.if_not_exists = true;
        },
        IfExists::Error => {
            pct.if_not_exists = false;
        },
    }
    proof {
        assert(empty_table_model(pct) == empty_table_model(pg_create_table));
    }
    create_table(conn, &pct)
}

/// Load one binary bulk-load payload into the table named `table_name`.
/// The payload is read with the destination's native reader against the
/// table's own column list and committed atomically: on any decode
/// failure, or if the table is missing, the destination is unchanged.
/// `copy_from_sql` must be the load statement generated for this table.
pub fn copy_from(conn: &mut Destination, table_name: &str, copy_from_sql: &str, data: &Vec<u8>) -> (r:
    Result<(), Error>)
    requires
        wf_dest(old(conn)@),
    ensures
        wf_dest(final(conn)@),
        match r {
            Ok(()) => {
                &&& has_table(old(conn)@, table_name@)
                &&& dec_copy_data(
                    old(conn)@[table_at(old(conn)@, table_name@)].columns,
                    data@,
                ) matches Some(rows)
                &&& final(conn)@ == with_rows_appended(
                    old(conn)@,
                    table_at(old(conn)@, table_name@),
                    dec_copy_data(
                        old(conn)@[table_at(old(conn)@, table_name@)].columns,
                        data@,
                    )->Some_0,
                )
            },
            Err(e) => {
                &&& final(conn)@ == old(conn)@
                &&& match e {
                    Error::NoSuchTable { table } => table@ == table_name@ && !has_table(
                        old(conn)@,
                        table_name@,
                    ),
                    Error::MalformedData => has_table(old(conn)@, table_name@) && dec_copy_data(
                        old(conn)@[table_at(old(conn)@, table_name@)].columns,
                        data@,
                    ) is None,
                    _ => false,
                }
            },
        },
{
    let found = find_table(&conn.tables, table_name);
    match found {
        None => {
            proof {
                assert(!has_table(conn@, table_name@));
            }
            Err(Error::NoSuchTable { table: table_name.to_owned() })
        },
        Some(i) => {
            proof {
                assert(conn@[i as int].name == table_name@);
                assert(has_table(conn@, table_name@));
                let k = table_at(old(conn)@, table_name@);
                assert(old(conn)@[k].name == table_name@);
                assert(k == i as int);
            }
            match decode_copy_data(&conn.tables[i].columns, data) {
                Err(e) => {
                    proof {
                        assert(cols_model(conn.tables@[i as int].columns@) == conn@[i as int].columns);
                    }
                    Err(e)
                },
                Ok(mut rows) => {
                    let ghost ts_old = conn@;
                    let ghost decoded = rows_view(rows@);
                    proof {
                        assert(cols_model(conn.tables@[i as int].columns@) == conn@[i as int].columns);
                    }
                    let mut t = conn.tables.remove(i);
                    t.rows.append(&mut rows);
                    proof {
                        assert(rows_view(t.rows@) =~= ts_old[i as int].rows + decoded);
                        assert(cols_model(t.columns@) == ts_old[i as int].columns);
                    }
                    conn.tables.insert(i, t);
                    proof {
                        assert(conn@ =~= with_rows_appended(ts_old, i as int, decoded));
                        assert forall|a: int, b: int| 0 <= a < b < conn@.len() implies conn@[a].name
                            != conn@[b].name by {
                            assert(conn@[a].name == ts_old[a].name);
                            assert(conn@[b].name == ts_old[b].name);
                        }
                    }
                    Ok(())
                },
            }
        },
    }
}

} // verus!
