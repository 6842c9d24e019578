//! The generic delimited-text representation of rows, and its conversion
//! to typed values.
//!
//! A payload is a sequence of records, each terminated by a newline;
//! fields within a record are separated by commas. An empty field stands
//! for null. Booleans are written `true` or `false`, integers in decimal
//! with an optional leading minus sign, and text as its raw bytes (which
//! therefore cannot contain a comma or newline, and cannot be empty —
//! empty text would read back as null).

use vstd::prelude::*;

use crate::error::Error;
use crate::pg_schema::{PgColumn, PgDataType};
use crate::values::{
    col_model, cols_model, row_matches, row_view, rows_match, rows_view, value_matches,
    ColumnModel, PgValue, TypeModel, ValueKind,
};

verus! {

/// The index of the first occurrence of `c` at or after `from`, or -1.
pub open spec fn find_byte(b: Seq<u8>, c: u8, from: int) -> int
    decreases b.len() - from,
{
    if from < 0 || from >= b.len() {
        -1
    } else if b[from] == c {
        from
    } else {
        find_byte(b, c, from + 1)
    }
}

/// The fields of a record from position `s` on: the bytes up to each
/// comma, and after the last comma the rest of the record.
pub open spec fn fields_from(rec: Seq<u8>, s: int) -> Seq<Seq<u8>>
    decreases rec.len() - s,
{
    if s < 0 || s > rec.len() {
        Seq::empty()
    } else {
        let j = find_byte(rec, 0x2C, s);
        if j < s || j >= rec.len() {
            seq![rec.subrange(s, rec.len() as int)]
        } else {
            seq![rec.subrange(s, j)] + fields_from(rec, j + 1)
        }
    }
}

/// Whether positions `s` to the end hold only decimal digits, at least
/// one.
pub open spec fn is_digits_from(f: Seq<u8>, s: int) -> bool {
    &&& 0 <= s < f.len()
    &&& forall|i: int| s <= i < f.len() ==> 0x30 <= #[trigger] f[i] <= 0x39
}

/// The value of the decimal digits at positions `s` (inclusive) to `e`
/// (exclusive).
pub open spec fn digits_val(f: Seq<u8>, s: int, e: int) -> int
    decreases e - s,
{
    if e <= s {
        0
    } else {
        digits_val(f, s, e - 1) * 10 + (f[e - 1] - 0x30)
    }
}

/// The integer a field denotes: an optional leading minus sign, then
/// decimal digits; anything else denotes none.
pub open spec fn int_field_val(f: Seq<u8>) -> Option<int> {
    if f.len() > 0 && f[0] == 0x2D {
        if is_digits_from(f, 1) {
            Some(-digits_val(f, 1, f.len() as int))
        } else {
            None
        }
    } else {
        if is_digits_from(f, 0) {
            Some(digits_val(f, 0, f.len() as int))
        } else {
            None
        }
    }
}

/// The bytes of the boolean literal `true`.
pub open spec fn true_lit() -> Seq<u8> {
    seq![0x74u8, 0x72u8, 0x75u8, 0x65u8]
}

/// The bytes of the boolean literal `false`.
pub open spec fn false_lit() -> Seq<u8> {
    seq![0x66u8, 0x61u8, 0x6Cu8, 0x73u8, 0x65u8]
}

/// The typed value a field denotes in column `c`, if any: an empty field
/// is null (in a nullable column only), and every other field must be a
/// well-formed, in-range literal of the column's type.
pub open spec fn field_value(c: ColumnModel, f: Seq<u8>) -> Option<ValueKind> {
    if f.len() == 0 {
        if c.is_nullable {
            Some(ValueKind::Null)
        } else {
            None
        }
    } else {
        match c.data_type {
            TypeModel::Boolean => if f == true_lit() {
                Some(ValueKind::Bool(true))
            } else if f == false_lit() {
                Some(ValueKind::Bool(false))
            } else {
                None
            },
            TypeModel::Int => match int_field_val(f) {
                Some(v) => if -0x8000_0000 <= v <= 0x7FFF_FFFF {
                    Some(ValueKind::Int32(v as i32))
                } else {
                    None
                },
                None => None,
            },
            TypeModel::Bigint => match int_field_val(f) {
                Some(v) => if -0x8000_0000_0000_0000 <= v <= 0x7FFF_FFFF_FFFF_FFFF {
                    Some(ValueKind::Int64(v as i64))
                } else {
                    None
                },
                None => None,
            },
            TypeModel::Text => if f.len() < 0xFFFF_FFFF {
                Some(ValueKind::Text(f))
            } else {
                None
            },
            TypeModel::Array => None,
        }
    }
}

/// The typed values of a record's fields from column `i` on, if every
/// field is well-formed for its column.
pub open spec fn fields_values(cols: Seq<ColumnModel>, fs: Seq<Seq<u8>>, i: int) -> Option<
    Seq<ValueKind>,
>
    decreases cols.len() - i,
{
    if i < 0 || i >= cols.len() {
        Some(Seq::empty())
    } else {
        match field_value(cols[i], fs[i]) {
            None => None,
            Some(v) => match fields_values(cols, fs, i + 1) {
                None => None,
                Some(vs) => Some(seq![v] + vs),
            },
        }
    }
}

/// The typed row a record denotes: one well-formed field per column.
pub open spec fn record_row(cols: Seq<ColumnModel>, rec: Seq<u8>) -> Option<Seq<ValueKind>> {
    let fs = fields_from(rec, 0);
    if fs.len() == cols.len() {
        fields_values(cols, fs, 0)
    } else {
        None
    }
}

/// The typed rows the payload denotes from position `p` on: one row per
/// newline-terminated record. A final record without its newline, a
/// record with the wrong number of fields, or a malformed field all
/// denote none.
pub open spec fn rows_from(cols: Seq<ColumnModel>, b: Seq<u8>, p: int) -> Option<
    Seq<Seq<ValueKind>>,
>
    decreases b.len() - p,
{
    if p < 0 || p > b.len() {
        None
    } else if p == b.len() {
        Some(Seq::empty())
    } else {
        let i = find_byte(b, 0x0A, p);
        if i < p || i >= b.len() {
            None
        } else {
            match record_row(cols, b.subrange(p, i)) {
                None => None,
                Some(row) => match rows_from(cols, b, i + 1) {
                    None => None,
                    Some(rest) => Some(seq![row] + rest),
                },
            }
        }
    }
}

/// The typed rows a whole delimited-text payload denotes for the given
/// column list, if it is well-formed throughout.
pub open spec fn text_rows(cols: Seq<ColumnModel>, b: Seq<u8>) -> Option<Seq<Seq<ValueKind>>> {
    rows_from(cols, b, 0)
}

/// The byte sequences of a sequence of byte vectors.
pub open spec fn bytes_views(fs: Seq<Vec<u8>>) -> Seq<Seq<u8>> {
    fs.map_values(|f: Vec<u8>| f@)
}

proof fn lemma_digits_val_nonneg(f: Seq<u8>, s: int, e: int)
    requires
        0 <= s,
        forall|i: int| s <= i < e ==> 0x30 <= #[trigger] f[i] <= 0x39,
    ensures
        digits_val(f, s, e) >= 0,
    decreases e - s,
{
    if e > s {
        lemma_digits_val_nonneg(f, s, e - 1);
    }
}

proof fn lemma_digits_val_mono(f: Seq<u8>, s: int, e1: int, e2: int)
    requires
        0 <= s <= e1 <= e2,
        forall|i: int| s <= i < e2 ==> 0x30 <= #[trigger] f[i] <= 0x39,
    ensures
        digits_val(f, s, e1) <= digits_val(f, s, e2),
    decreases e2 - e1,
{
    if e1 < e2 {
        lemma_digits_val_mono(f, s, e1, e2 - 1);
        lemma_digits_val_nonneg(f, s, e2 - 1);
    }
}

proof fn lemma_field_value_matches(c: ColumnModel, f: Seq<u8>)
    requires
        field_value(c, f) is Some,
    ensures
        value_matches(field_value(c, f)->Some_0, c),
{
}

proof fn lemma_fields_values_match(cols: Seq<ColumnModel>, fs: Seq<Seq<u8>>, i: int)
    requires
        0 <= i <= cols.len(),
        fields_values(cols, fs, i) is Some,
    ensures
        ({
            let vs = fields_values(cols, fs, i)->Some_0;
            &&& vs.len() == cols.len() - i
            &&& forall|j: int| 0 <= j < vs.len() ==> value_matches(#[trigger] vs[j], cols[i + j])
        }),
    decreases cols.len() - i,
{
    if i < cols.len() {
        lemma_field_value_matches(cols[i], fs[i]);
        lemma_fields_values_match(cols, fs, i + 1);
    }
}

proof fn lemma_rows_from_match(cm: Seq<ColumnModel>, b: Seq<u8>, p: int)
    requires
        rows_from(cm, b, p) is Some,
    ensures
        rows_match(rows_from(cm, b, p)->Some_0, cm),
    decreases b.len() - p,
{
    if 0 <= p < b.len() {
        let i = find_byte(b, 0x0A, p);
        lemma_fields_values_match(cm, fields_from(b.subrange(p, i), 0), 0);
        lemma_rows_from_match(cm, b, i + 1);
    }
}

/// Every row a well-formed delimited-text payload denotes is well-typed
/// for its column list.
pub proof fn lemma_rows_of_text_match(cm: Seq<ColumnModel>, b: Seq<u8>)
    requires
        text_rows(cm, b) is Some,
    ensures
        rows_match(text_rows(cm, b)->Some_0, cm),
{
    lemma_rows_from_match(cm, b, 0);
}

/// Find the first occurrence of `c` at or after `s`.
fn find_from(b: &Vec<u8>, c: u8, s: usize) -> (r: Option<usize>)
    requires
        s <= b@.len(),
    ensures
        match r {
            Some(j) => find_byte(b@, c, s as int) == j && s <= j < b@.len(),
            None => find_byte(b@, c, s as int) == -1,
        },
{
    let mut k: usize = s;
    while k < b.len()
        invariant
            s <= k <= b@.len(),
            find_byte(b@, c, s as int) == find_byte(b@, c, k as int),
        decreases b@.len() - k,
    {
        if b[k] == c {
            return Some(k);
        }
        k = k + 1;
    }
    None
}

/// Copy the bytes at positions `s` (inclusive) to `e` (exclusive).
fn copy_range(b: &Vec<u8>, s: usize, e: usize) -> (r: Vec<u8>)
    requires
        s <= e <= b@.len(),
    ensures
        r@ == b@.subrange(s as int, e as int),
{
    let mut out: Vec<u8> = Vec::new();
    let mut k: usize = s;
    while k < e
        invariant
            s <= k <= e <= b@.len(),
            out@ == b@.subrange(s as int, k as int),
        decreases e - k,
    {
        out.push(b[k]);
        proof {
            assert(out@ =~= b@.subrange(s as int, k + 1));
        }
        k = k + 1;
    }
    out
}

/// Split one record into its fields.
fn split_record_from(rec: &Vec<u8>, s: usize) -> (r: Vec<Vec<u8>>)
    requires
        s <= rec@.len(),
    ensures
        bytes_views(r@) == fields_from(rec@, s as int),
    decreases rec@.len() - s,
{
    let n = rec.len();
    match find_from(rec, 0x2C, s) {
        None => {
            let f = copy_range(rec, s, rec.len());
            let mut out: Vec<Vec<u8>> = Vec::new();
            out.push(f);
            proof {
                assert(bytes_views(out@) =~= fields_from(rec@, s as int));
            }
            out
        },
        Some(j) => {
            let f = copy_range(rec, s, j);
            let mut rest = split_record_from(rec, j + 1);
            let mut out: Vec<Vec<u8>> = Vec::new();
            out.push(f);
            out.append(&mut rest);
            proof {
                assert(bytes_views(out@) =~= fields_from(rec@, s as int));
            }
            out
        },
    }
}

/// Parse the decimal digits from position `s` to the record's end into a
/// magnitude, refusing magnitudes above `0x8000_0000_0000_0000`.
fn parse_digits(f: &Vec<u8>, s: usize) -> (r: Option<u64>)
    requires
        s <= f@.len(),
    ensures
        match r {
            Some(m) => {
                &&& is_digits_from(f@, s as int)
                &&& m == digits_val(f@, s as int, f@.len() as int)
                &&& m <= 0x8000_0000_0000_0000
            },
            None => !is_digits_from(f@, s as int) || digits_val(f@, s as int, f@.len() as int)
                > 0x8000_0000_0000_0000,
        },
{
    let n = f.len();
    if s >= n {
        return None;
    }
    let mut acc: u64 = 0;
    let mut k: usize = s;
    while k < n
        invariant
            n == f@.len(),
            s <= k <= n,
            s < n,
            forall|i: int| s <= i < k ==> 0x30 <= #[trigger] f@[i] <= 0x39,
            acc == digits_val(f@, s as int, k as int),
            acc <= 0x8000_0000_0000_0000,
        decreases n - k,
    {
        let d = f[k];
        if d < 0x30 || d > 0x39 {
            return None;
        }
        let dv = (d - 0x30) as u64;
        if acc > (0x8000_0000_0000_0000u64 - dv) / 10 {
            proof {
                assert(digits_val(f@, s as int, k + 1) == acc * 10 + dv);
                assert(acc * 10 + dv > 0x8000_0000_0000_0000) by {
                    assert(acc >= (0x8000_0000_0000_0000u64 - dv) / 10 + 1);
                    assert(acc * 10 >= ((0x8000_0000_0000_0000u64 - dv) / 10 + 1) * 10) by (nonlinear_arith)
                        requires
                            acc >= (0x8000_0000_0000_0000u64 - dv) / 10 + 1,
                    ;
                }
                if is_digits_from(f@, s as int) {
                    lemma_digits_val_mono(f@, s as int, k + 1, f@.len() as int);
                }
            }
            return None;
        }
        proof {
            assert(acc * 10 + dv <= 0x8000_0000_0000_0000) by (nonlinear_arith)
                requires
                    acc <= (0x8000_0000_0000_0000u64 - dv) / 10,
                    dv <= 9,
            ;
        }
        acc = acc * 10 + dv;
        k = k + 1;
    }
    Some(acc)
}

/// The 64-bit integer a field denotes, if it denotes one in range.
pub open spec fn i64_field(f: Seq<u8>) -> Option<i64> {
    match int_field_val(f) {
        Some(v) => if -0x8000_0000_0000_0000 <= v <= 0x7FFF_FFFF_FFFF_FFFF {
            Some(v as i64)
        } else {
            None
        },
        None => None,
    }
}

/// Parse a field as a 64-bit integer.
fn parse_i64_field(f: &Vec<u8>) -> (r: Option<i64>)
    ensures
        r == i64_field(f@),
{
    let n = f.len();
    if n > 0 && f[0] == 0x2D {
        match parse_digits(f, 1) {
            None => {
                proof {
                    if int_field_val(f@) is Some {
                        lemma_digits_val_nonneg(f@, 1, f@.len() as int);
                    }
                }
                None
            },
            Some(m) => {
                proof {
                    lemma_digits_val_nonneg(f@, 1, f@.len() as int);
                }
                if m == 0x8000_0000_0000_0000 {
                    Some(i64::MIN)
                } else {
                    Some(-(m as i64))
                }
            },
        }
    } else {
        match parse_digits(f, 0) {
            None => {
                proof {
                    if int_field_val(f@) is Some {
                        lemma_digits_val_nonneg(f@, 0, f@.len() as int);
                    }
                }
                None
            },
            Some(m) => {
                if m <= 0x7FFF_FFFF_FFFF_FFFF {
                    Some(m as i64)
                } else {
                    None
                }
            },
        }
    }
}

/// Compare two byte vectors.
fn bytes_eq(a: &Vec<u8>, b: &Vec<u8>) -> (r: bool)
    ensures
        r == (a@ == b@),
{
    if a.len() != b.len() {
        return false;
    }
    let mut k: usize = 0;
    while k < a.len()
        invariant
            a@.len() == b@.len(),
            k <= a@.len(),
            forall|i: int| 0 <= i < k ==> a@[i] == b@[i],
        decreases a@.len() - k,
    {
        if a[k] != b[k] {
            return false;
        }
        k = k + 1;
    }
    proof {
        assert(a@ =~= b@);
    }
    true
}

fn true_lit_bytes() -> (r: Vec<u8>)
    ensures
        r@ == true_lit(),
{
    let mut out: Vec<u8> = Vec::new();
    out.push(0x74);
    out.push(0x72);
    out.push(0x75);
    out.push(0x65);
    proof {
        assert(out@ =~= true_lit());
    }
    out
}

fn false_lit_bytes() -> (r: Vec<u8>)
    ensures
        r@ == false_lit(),
{
    let mut out: Vec<u8> = Vec::new();
    out.push(0x66);
    out.push(0x61);
    out.push(0x6C);
    out.push(0x73);
    out.push(0x65);
    proof {
        assert(out@ =~= false_lit());
    }
    out
}

/// Convert one field to the typed value of its column, or report the
/// offending column.
fn field_to_value(column: &PgColumn, f: &Vec<u8>) -> (r: Result<PgValue, Error>)
    ensures
        match r {
            Ok(v) => {
                &&& field_value(col_model(*column), f@) == Some(v@)
                &&& value_matches(v@, col_model(*column))
            },
            Err(e) => {
                &&& field_value(col_model(*column), f@) is None
                &&& e matches Error::InvalidValue { column: c } && c@ == column.name@
            },
        },
{
    if f.len() == 0 {
        if column.is_nullable {
            return Ok(PgValue::Null);
        } else {
            return Err(Error::InvalidValue { column: column.name.clone() });
        }
    }
    match &column.data_type {
        PgDataType::Boolean => {
            let t = true_lit_bytes();
            if bytes_eq(f, &t) {
                return Ok(PgValue::Bool(true));
            }
            let fl = false_lit_bytes();
            if bytes_eq(f, &fl) {
                return Ok(PgValue::Bool(false));
            }
            Err(Error::InvalidValue { column: column.name.clone() })
        },
        PgDataType::Int => {
            match parse_i64_field(f) {
                Some(v) => {
                    if -0x8000_0000i64 <= v && v <= 0x7FFF_FFFFi64 {
                        Ok(PgValue::Int32(v as i32))
                    } else {
                        Err(Error::InvalidValue { column: column.name.clone() })
                    }
                },
                None => Err(Error::InvalidValue { column: column.name.clone() }),
            }
        },
        PgDataType::Bigint => {
            match parse_i64_field(f) {
                Some(v) => Ok(PgValue::Int64(v)),
                None => Err(Error::InvalidValue { column: column.name.clone() }),
            }
        },
        PgDataType::Text => {
            if f.len() < 0xFFFF_FFFF {
                let copied = copy_range(f, 0, f.len());
                proof {
                    assert(copied@ =~= f@);
                }
                Ok(PgValue::Text(copied))
            } else {
                Err(Error::InvalidValue { column: column.name.clone() })
            }
        },
        PgDataType::Array { .. } => Err(Error::InvalidValue { column: column.name.clone() }),
    }
}

/// Convert one record's fields to a typed row.
fn fields_to_row(table_name: &str, columns: &Vec<PgColumn>, fields: &Vec<Vec<u8>>) -> (r: Result<
    Vec<PgValue>,
    Error,
>)
    ensures
        match r {
            Ok(row) => {
                &&& bytes_views(fields@).len() == columns@.len() && fields_values(
                    cols_model(columns@),
                    bytes_views(fields@),
                    0,
                ) == Some(row_view(row@))
                &&& row_matches(row_view(row@), cols_model(columns@))
            },
            Err(e) => {
                &&& bytes_views(fields@).len() != columns@.len() || fields_values(
                    cols_model(columns@),
                    bytes_views(fields@),
                    0,
                ) is None
                &&& (e matches Error::ColumnCountMismatch { table } ==> table@ == table_name@)
                &&& (e is ColumnCountMismatch || e is InvalidValue)
            },
        },
{
    let ghost cm = cols_model(columns@);
    let ghost fsv = bytes_views(fields@);
    if fields.len() != columns.len() {
        return Err(Error::ColumnCountMismatch { table: table_name.to_owned() });
    }
    let mut row: Vec<PgValue> = Vec::new();
    let mut j: usize = 0;
    proof {
        assert(row_view(row@) =~= Seq::<ValueKind>::empty());
    }
    while j < columns.len()
        invariant
            cm == cols_model(columns@),
            fsv == bytes_views(fields@),
            cm.len() == columns@.len(),
            fsv.len() == columns@.len(),
            fields@.len() == columns@.len(),
            j <= columns@.len(),
            row_view(row@).len() == j,
            row_matches(row_view(row@), cm.take(j as int)),
            fields_values(cm, fsv, 0) == match fields_values(cm, fsv, j as int) {
                None => None::<Seq<ValueKind>>,
                Some(vs) => Some(row_view(row@) + vs),
            },
        decreases columns@.len() - j,
    {
        proof {
            assert(cm[j as int] == col_model(columns@[j as int]));
            assert(fsv[j as int] == fields@[j as int]@);
        }
        match field_to_value(&columns[j], &fields[j]) {
            Err(e) => {
                return Err(e);
            },
            Ok(v) => {
                let ghost row_old = row@;
                row.push(v);
                proof {
                    assert(row_view(row@) =~= row_view(row_old) + seq![v@]);
                    assert(row_matches(row_view(row@), cm.take(j + 1)));
                    assert forall|vs: Seq<ValueKind>|
                        fields_values(cm, fsv, j + 1) == Some(vs) implies (row_view(row_old) + (
                        seq![v@] + vs)) == (row_view(row@) + vs) by {
                        assert(row_view(row_old) + (seq![v@] + vs) =~= row_view(row@) + vs);
                    }
                }
            },
        }
        j = j + 1;
    }
    proof {
        assert(cm.take(cm.len() as int) =~= cm);
        assert(row_view(row@) + Seq::<ValueKind>::empty() =~= row_view(row@));
    }
    Ok(row)
}

/// Convert a whole delimited-text payload into typed rows for the given
/// column list, reporting the first malformed record, field or value.
pub fn csv_to_rows(table_name: &str, columns: &Vec<PgColumn>, data: &Vec<u8>) -> (r: Result<
    Vec<Vec<PgValue>>,
    Error,
>)
    ensures
        match r {
            Ok(rows) => {
                &&& text_rows(cols_model(columns@), data@) == Some(rows_view(rows@))
                &&& rows_match(rows_view(rows@), cols_model(columns@))
            },
            Err(e) => {
                &&& text_rows(cols_model(columns@), data@) is None
                &&& (e matches Error::ColumnCountMismatch { table } ==> table@ == table_name@)
                &&& (e is ColumnCountMismatch || e is InvalidValue || e is MalformedData)
            },
        },
{
    let ghost cm = cols_model(columns@);
    let n = data.len();
    let mut rows: Vec<Vec<PgValue>> = Vec::new();
    let mut p: usize = 0;
    proof {
        assert(rows_view(rows@) =~= Seq::<Seq<ValueKind>>::empty());
        if rows_from(cm, data@, 0) is Some {
            assert(rows_view(rows@) + rows_from(cm, data@, 0)->Some_0 =~= rows_from(
                cm,
                data@,
                0,
            )->Some_0);
        }
    }
    while p < n
        invariant
            cm == cols_model(columns@),
            n == data@.len(),
            p <= n,
            rows_match(rows_view(rows@), cm),
            rows_from(cm, data@, 0) == match rows_from(cm, data@, p as int) {
                None => None::<Seq<Seq<ValueKind>>>,
                Some(rest) => Some(rows_view(rows@) + rest),
            },
        decreases n - p,
    {
        let i = match find_from(data, 0x0A, p) {
            None => {
                return Err(Error::MalformedData);
            },
            Some(i) => i,
        };
        let rec = copy_range(data, p, i);
        let fields = split_record_from(&rec, 0);
        proof {
            assert(bytes_views(fields@) == fields_from(data@.subrange(p as int, i as int), 0));
        }
        match fields_to_row(table_name, columns, &fields) {
            Err(e) => {
                proof {
                    assert(record_row(cm, data@.subrange(p as int, i as int)) is None);
                }
                return Err(e);
            },
            Ok(row) => {
                let ghost rows_old = rows@;
                rows.push(row);
                proof {
                    assert(record_row(cm, data@.subrange(p as int, i as int)) == Some(
                        row_view(row@),
                    ));
                    assert(rows_view(rows@) =~= rows_view(rows_old) + seq![row_view(row@)]);
                    assert forall|rest2: Seq<Seq<ValueKind>>|
                        rows_from(cm, data@, i + 1) == Some(rest2) implies (rows_view(rows_old) + (
                        seq![row_view(row@)] + rest2)) == (rows_view(rows@) + rest2) by {
                        assert(rows_view(rows_old) + (seq![row_view(row@)] + rest2) =~= rows_view(
                            rows@,
                        ) + rest2);
                    }
                }
                p = i + 1;
            },
        }
    }
    proof {
        assert(rows_view(rows@) + Seq::<Seq<ValueKind>>::empty() =~= rows_view(rows@));
    }
    Ok(rows)
}

} // verus!
