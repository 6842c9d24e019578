//! The streaming write path: prepare the destination table once, build
//! the bulk-load statement once, then feed the row streams into the
//! destination one stream at a time, in order.

use vstd::prelude::*;

use crate::binary_format::{dec_copy_data, encode_copy_data, lemma_decode_of_encode};
use crate::destination::{
    copy_from, has_table, prepare_table, spec_drop, table_at, wf_dest, Destination, TableModel,
};
use crate::error::Error;
use crate::pg_schema::{copy_from_sql, first_array_column, PgCreateTable};
use crate::schema::{IfExists, Table};
use crate::text_format::{csv_to_rows, lemma_rows_of_text_match, text_rows};
use crate::values::{first_array, neutral_cols_model, ColumnModel, ValueKind};

verus! {

/// One named, ordered, finite partition of a dataset in the generic
/// delimited-text encoding, as a sequence of byte chunks.
pub struct CsvStream {
    /// The partition's name, used in error context and logs.
    pub name: String,
    /// The partition's bytes, in order, in transport-sized chunks.
    pub chunks: Vec<Vec<u8>>,
}

/// The bytes of the chunks from index `i` on, in order.
pub open spec fn chunks_bytes(cs: Seq<Vec<u8>>, i: int) -> Seq<u8>
    decreases cs.len() - i,
{
    if i < 0 || i >= cs.len() {
        Seq::empty()
    } else {
        cs[i]@ + chunks_bytes(cs, i + 1)
    }
}

/// All the bytes of one stream, in order.
pub open spec fn stream_bytes(s: CsvStream) -> Seq<u8> {
    chunks_bytes(s.chunks@, 0)
}

/// The byte payloads of a stream sequence, in order.
pub open spec fn streams_bytes(ss: Seq<CsvStream>) -> Seq<Seq<u8>> {
    ss.map_values(|s: CsvStream| stream_bytes(s))
}

/// A destination table just created for this transfer: the caller's name
/// and columns, and no rows yet.
pub open spec fn fresh_table(nm: Seq<char>, cm: Seq<ColumnModel>) -> TableModel {
    TableModel { name: nm, columns: cm, rows: Seq::empty() }
}

/// The destination after the table lifecycle step, on the paths where it
/// succeeds: `Overwrite` drops any old table and creates a fresh one,
/// `Append` keeps an existing table untouched, and `Error` (reached only
/// when no table existed) creates a fresh one.
pub open spec fn prepared_ts(
    ts: Seq<TableModel>,
    nm: Seq<char>,
    cm: Seq<ColumnModel>,
    if_exists: IfExists,
) -> Seq<TableModel> {
    match if_exists {
        IfExists::Overwrite => spec_drop(ts, nm).push(fresh_table(nm, cm)),
        IfExists::Append => if has_table(ts, nm) {
            ts
        } else {
            ts.push(fresh_table(nm, cm))
        },
        IfExists::Error => ts.push(fresh_table(nm, cm)),
    }
}

/// What loading the stream payloads from index `k` on does to the
/// destination: each payload is converted against the caller's column
/// list `cm`, encoded, and read back by the destination against the
/// table's own columns; the first stream that fails stops the loop with
/// its index, leaving every earlier stream committed.
pub open spec fn load_from(
    ts: Seq<TableModel>,
    nm: Seq<char>,
    cm: Seq<ColumnModel>,
    datas: Seq<Seq<u8>>,
    k: int,
) -> (Seq<TableModel>, Option<int>)
    decreases datas.len() - k,
{
    if k < 0 || k >= datas.len() {
        (ts, None)
    } else {
        match text_rows(cm, datas[k]) {
            None => (ts, Some(k)),
            Some(rows) => if has_table(ts, nm) {
                let i = table_at(ts, nm);
                match dec_copy_data(ts[i].columns, crate::binary_format::enc_copy_data(rows)) {
                    None => (ts, Some(k)),
                    Some(decoded) => load_from(
                        ts.update(i, TableModel { rows: ts[i].rows + decoded, ..ts[i] }),
                        nm,
                        cm,
                        datas,
                        k + 1,
                    ),
                }
            } else {
                (ts, Some(k))
            },
        }
    }
}

/// The rows denoted by the stream payloads from index `k` on,
/// concatenated in stream order (meaningful when every stream parses).
pub open spec fn parsed_from(cm: Seq<ColumnModel>, datas: Seq<Seq<u8>>, k: int) -> Seq<
    Seq<ValueKind>,
>
    decreases datas.len() - k,
{
    if k < 0 || k >= datas.len() {
        Seq::empty()
    } else {
        text_rows(cm, datas[k])->Some_0 + parsed_from(cm, datas, k + 1)
    }
}

/// Append all of `bs` to `out`.
fn push_all(out: &mut Vec<u8>, bs: &Vec<u8>)
    ensures
        final(out)@ == old(out)@ + bs@,
{
    let mut k: usize = 0;
    while k < bs.len()
        invariant
            k <= bs@.len(),
            out@ == old(out)@ + bs@.take(k as int),
        decreases bs@.len() - k,
    {
        out.push(bs[k]);
        proof {
            assert(old(out)@ + bs@.take(k + 1) =~= (old(out)@ + bs@.take(k as int)) + seq![
                bs@[k as int],
            ]);
        }
        k = k + 1;
    }
    proof {
        assert(bs@.take(bs@.len() as int) =~= bs@);
    }
}

/// Concatenate a stream's chunks into one payload.
fn concat_chunks(s: &CsvStream) -> (r: Vec<u8>)
    ensures
        r@ == stream_bytes(*s),
{
    let mut out: Vec<u8> = Vec::new();
    proof {
        assert(out@ + chunks_bytes(s.chunks@, 0) =~= chunks_bytes(s.chunks@, 0));
    }
    let mut i: usize = 0;
    while i < s.chunks.len()
        invariant
            i <= s.chunks@.len(),
            out@ + chunks_bytes(s.chunks@, i as int) == chunks_bytes(s.chunks@, 0),
        decreases s.chunks@.len() - i,
    {
        let ghost out_old = out@;
        push_all(&mut out, &s.chunks[i]);
        proof {
            assert(out@ + chunks_bytes(s.chunks@, i + 1) =~= out_old + chunks_bytes(
                s.chunks@,
                i as int,
            ));
        }
        i = i + 1;
    }
    proof {
        assert(out@ + chunks_bytes(s.chunks@, s.chunks@.len() as int) =~= out@);
    }
    out
}

/// Write a sequence of row streams into the destination table
/// `table_name`, preparing the table once under the lifecycle policy,
/// validating and building the bulk-load statement before any destination
/// call, and then loading the streams strictly one at a time, in order.
/// A schema with an array-typed column is rejected before the destination
/// is touched; a stream that fails to convert or load stops the loop,
/// leaving exactly the streams before it committed.
pub fn write_local_data_helper(
    conn: &mut Destination,
    table_name: String,
    schema: &Table,
    data: &Vec<CsvStream>,
    if_exists: IfExists,
) -> (r: Result<(), Error>)
    requires
        wf_dest(old(conn)@),
        schema.columns@.len() < 0xFFFF,
    ensures
        wf_dest(final(conn)@),
        ({
            let cm = neutral_cols_model(schema.columns@);
            let nm = table_name@;
            let datas = streams_bytes(data@);
            match first_array(cm, 0) {
                Some(a) => {
                    &&& final(conn)@ == old(conn)@
                    &&& r matches Err(Error::UnsupportedColumnType { column }) && column@
                        == schema.columns@[a].name@
                },
                None => {
                    if (if_exists is Error) && has_table(old(conn)@, nm) {
                        &&& final(conn)@ == old(conn)@
                        &&& r matches Err(Error::TableAlreadyExists { table }) && table@ == nm
                    } else {
                        let ts1 = prepared_ts(old(conn)@, nm, cm, if_exists);
                        &&& final(conn)@ == load_from(ts1, nm, cm, datas, 0).0
                        &&& (r is Ok <==> load_from(ts1, nm, cm, datas, 0).1 is None)
                    }
                },
            }
        }),
{
    let ghost cm = neutral_cols_model(schema.columns@);
    let ghost nm = table_name@;
    let ghost datas = streams_bytes(data@);
    let pct = PgCreateTable::from_name_and_columns(table_name.clone(), &schema.columns);
    proof {
        crate::pg_schema::lemma_first_array_matches_model(pct.columns@, 0);
    }
    let copy_sql = match copy_from_sql(&pct, "BINARY") {
        Err(e) => {
            proof {
                let fa = first_array(cm, 0)->Some_0;
                crate::values::lemma_first_array_some(cm, 0);
                assert(crate::pg_schema::pg_column_matches(
                    schema.columns@[fa],
                    pct.columns@[fa],
                ));
            }
            return Err(e);
        },
        Ok(sql) => sql,
    };
    let pct_for_prepare = PgCreateTable::from_name_and_columns(table_name.clone(), &schema.columns);
    proof {
        assert(fresh_table(nm, cm) == crate::destination::empty_table_model(pct_for_prepare));
    }
    if let Err(e) = prepare_table(conn, pct_for_prepare, if_exists) {
        return Err(e);
    }
    let ghost ts1 = prepared_ts(old(conn)@, nm, cm, if_exists);
    proof {
        assert(conn@ == ts1);
    }
    let mut k: usize = 0;
    while k < data.len()
        invariant
            wf_dest(conn@),
            cm == neutral_cols_model(schema.columns@),
            nm == table_name@,
            datas == streams_bytes(data@),
            datas.len() == data@.len(),
            k <= data@.len(),
            schema.columns@.len() < 0xFFFF,
            cm.len() == schema.columns@.len(),
            pct.columns@.len() == schema.columns@.len(),
            crate::values::cols_model(pct.columns@) == cm,
            first_array(cm, 0) is None,
            !((if_exists is Error) && has_table(old(conn)@, nm)),
            ts1 == prepared_ts(old(conn)@, nm, cm, if_exists),
            load_from(ts1, nm, cm, datas, 0) == load_from(conn@, nm, cm, datas, k as int),
        decreases data@.len() - k,
    {
        let bytes = concat_chunks(&data[k]);
        proof {
            assert(datas[k as int] == stream_bytes(data@[k as int]));
        }
        let rows = match csv_to_rows(table_name.as_str(), &pct.columns, &bytes) {
            Err(e) => {
                return Err(e);
            },
            Ok(rows) => rows,
        };
        let binary = encode_copy_data(&pct.columns, &rows);
        proof {
            if has_table(conn@, nm) {
                let i = table_at(conn@, nm);
                assert(conn@[i].name == nm);
            }
        }
        match copy_from(conn, table_name.as_str(), copy_sql.as_str(), &binary) {
            Err(e) => {
                return Err(e);
            },
            Ok(()) => {},
        }
        k = k + 1;
    }
    Ok(())
}

/// Sequential write ordering: when the destination table carries the
/// caller's column list and every stream parses, the whole load succeeds
/// and the destination-visible rows are the old rows followed by each
/// stream's rows, committed fully in stream order — stream `k`'s rows all
/// precede any of stream `k + 1`'s.
pub proof fn lemma_sequential_write_ordering(
    ts: Seq<TableModel>,
    nm: Seq<char>,
    cm: Seq<ColumnModel>,
    datas: Seq<Seq<u8>>,
    k: int,
)
    requires
        wf_dest(ts),
        has_table(ts, nm),
        ts[table_at(ts, nm)].columns == cm,
        cm.len() < 0xFFFF,
        0 <= k <= datas.len(),
        forall|j: int| k <= j < datas.len() ==> text_rows(cm, #[trigger] datas[j]) is Some,
    ensures
        load_from(ts, nm, cm, datas, k).1 is None,
        load_from(ts, nm, cm, datas, k).0 == ts.update(
            table_at(ts, nm),
            TableModel { rows: ts[table_at(ts, nm)].rows + parsed_from(cm, datas, k), ..ts[
                table_at(ts, nm)
            ] },
        ),
    decreases datas.len() - k,
{
    let i = table_at(ts, nm);
    if k < 0 || k >= datas.len() {
        assert(ts[i].rows + parsed_from(cm, datas, k) =~= ts[i].rows);
        assert(TableModel { rows: ts[i].rows + parsed_from(cm, datas, k), ..ts[i] } == ts[i]);
        assert(ts.update(i, ts[i]) =~= ts);
    } else {
        let rows = text_rows(cm, datas[k])->Some_0;
        lemma_rows_of_text_match(cm, datas[k]);
        lemma_decode_of_encode(cm, rows);
        let ts2 = ts.update(i, TableModel { rows: ts[i].rows + rows, ..ts[i] });
        assert forall|a: int, b: int| 0 <= a < b < ts2.len() implies ts2[a].name != ts2[b].name by {
            assert(ts2[a].name == ts[a].name);
            assert(ts2[b].name == ts[b].name);
        }
        assert(ts2[i].name == nm);
        assert(has_table(ts2, nm));
        let i2 = table_at(ts2, nm);
        assert(ts2[i2].name == nm);
        assert(ts2[i2].name == ts[i2].name);
        assert(i2 == i);
        lemma_sequential_write_ordering(ts2, nm, cm, datas, k + 1);
        assert(load_from(ts, nm, cm, datas, k) == load_from(ts2, nm, cm, datas, k + 1));
        assert(ts2[i].rows + parsed_from(cm, datas, k + 1) =~= ts[i].rows + parsed_from(
            cm,
            datas,
            k,
        ));
        assert(ts2.update(
            i,
            TableModel { rows: ts2[i].rows + parsed_from(cm, datas, k + 1), ..ts2[i] },
        ) =~= ts.update(i, TableModel { rows: ts[i].rows + parsed_from(cm, datas, k), ..ts[i] }));
    }
}

/// Lifecycle exclusivity, for a destination that already holds a table
/// named `nm`: under `Overwrite` the prior table — whatever its schema or
/// rows — is gone from the prepared destination, replaced by an empty
/// table with the caller's columns, so none of its old rows can be
/// visible after the transfer; under `Append` the prepared destination is
/// the old one unchanged, so all pre-existing rows are retained (loading
/// then only ever appends after them). Under `Error` a pre-existing table
/// fails the whole transfer before any data is sent: that leg is stated
/// by `write_local_data_helper`'s contract, whose destination is then
/// unchanged.
pub proof fn lemma_lifecycle_exclusivity(ts: Seq<TableModel>, nm: Seq<char>, cm: Seq<ColumnModel>)
    requires
        wf_dest(ts),
        has_table(ts, nm),
    ensures
        ({
            let ts1 = prepared_ts(ts, nm, cm, IfExists::Overwrite);
            &&& has_table(ts1, nm)
            &&& ts1[table_at(ts1, nm)].rows == Seq::<Seq<ValueKind>>::empty()
            &&& ts1[table_at(ts1, nm)].columns == cm
        }),
        prepared_ts(ts, nm, cm, IfExists::Append) == ts,
{
    crate::destination::lemma_spec_drop_wf(ts, nm);
    let dropped = spec_drop(ts, nm);
    let ts1 = dropped.push(fresh_table(nm, cm));
    assert(ts1[ts1.len() - 1].name == nm);
    assert(has_table(ts1, nm));
    let k = table_at(ts1, nm);
    assert(ts1[k].name == nm);
    if k < ts1.len() - 1 {
        assert(ts1[k] == dropped[k]);
        assert(!has_table(dropped, nm));
    }
    assert(k == ts1.len() - 1);
}

/// Cancellation safety: stopping the load after the first `k` streams —
/// the loop is never entered for stream `k + 1` — leaves the destination
/// table holding exactly the old rows plus the rows of streams `0` to
/// `k - 1`, in order, and no fragment of any later stream.
pub proof fn lemma_cancellation_safety(
    ts: Seq<TableModel>,
    nm: Seq<char>,
    cm: Seq<ColumnModel>,
    datas: Seq<Seq<u8>>,
    k: int,
)
    requires
        wf_dest(ts),
        has_table(ts, nm),
        ts[table_at(ts, nm)].columns == cm,
        cm.len() < 0xFFFF,
        0 <= k <= datas.len(),
        forall|j: int| 0 <= j < k ==> text_rows(cm, #[trigger] datas[j]) is Some,
    ensures
        load_from(ts, nm, cm, datas.take(k), 0).1 is None,
        load_from(ts, nm, cm, datas.take(k), 0).0 == ts.update(
            table_at(ts, nm),
            TableModel { rows: ts[table_at(ts, nm)].rows + parsed_from(cm, datas.take(k), 0), ..ts[
                table_at(ts, nm)
            ] },
        ),
{
    let pre = datas.take(k);
    assert forall|j: int| 0 <= j < pre.len() implies text_rows(cm, #[trigger] pre[j]) is Some by {
        assert(pre[j] == datas[j]);
    }
    lemma_sequential_write_ordering(ts, nm, cm, pre, 0);
}

} // verus!
