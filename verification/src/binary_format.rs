//! The destination's binary bulk-load wire format.
//!
//! A load payload is a fixed signature and header, then one framed tuple
//! per row (a big-endian field count, then one length-prefixed field per
//! column, with length `0xFFFF_FFFF` standing for null), then a trailing
//! end-of-data marker. Integers travel big-endian in two's complement,
//! booleans as one byte, text as its raw bytes.
//!
//! The module defines the encoding mathematically, provides a verified
//! encoder and a verified decoder (the destination's native reader), and
//! proves that decoding inverts encoding for every well-typed row
//! sequence.

use vstd::prelude::*;

use crate::error::Error;
use crate::pg_schema::{PgColumn, PgDataType};
use crate::values::{
    col_model, cols_model, row_matches, row_view, rows_match, rows_view, value_matches,
    ColumnModel, PgValue, TypeModel, ValueKind,
};

verus! {

/// The two big-endian bytes of a 16-bit integer.
pub open spec fn be16(n: u16) -> Seq<u8> {
    seq![(n / 0x100) as u8, (n % 0x100) as u8]
}

/// The four big-endian bytes of a 32-bit integer.
pub open spec fn be32(n: u32) -> Seq<u8> {
    be16((n / 0x10000) as u16) + be16((n % 0x10000) as u16)
}

/// The eight big-endian bytes of a 64-bit integer.
pub open spec fn be64(n: u64) -> Seq<u8> {
    be32((n / 0x1_0000_0000) as u32) + be32((n % 0x1_0000_0000) as u32)
}

/// The 16-bit integer read big-endian at position `p`.
pub open spec fn rd_u16(b: Seq<u8>, p: int) -> u16 {
    ((b[p] as int) * 0x100 + (b[p + 1] as int)) as u16
}

/// The 32-bit integer read big-endian at position `p`.
pub open spec fn rd_u32(b: Seq<u8>, p: int) -> u32 {
    ((rd_u16(b, p) as int) * 0x10000 + (rd_u16(b, p + 2) as int)) as u32
}

/// The 64-bit integer read big-endian at position `p`.
pub open spec fn rd_u64(b: Seq<u8>, p: int) -> u64 {
    ((rd_u32(b, p) as int) * 0x1_0000_0000 + (rd_u32(b, p + 4) as int)) as u64
}

/// The two's-complement 32-bit pattern of a signed integer.
pub open spec fn u32_of_i32(v: i32) -> u32 {
    if v >= 0 {
        v as u32
    } else {
        (v + 0x1_0000_0000) as u32
    }
}

/// The signed integer whose two's-complement 32-bit pattern is `u`.
pub open spec fn i32_of_u32(u: u32) -> i32 {
    if u < 0x8000_0000 {
        u as i32
    } else {
        (u - 0x1_0000_0000) as i32
    }
}

/// The two's-complement 64-bit pattern of a signed integer.
pub open spec fn u64_of_i64(v: i64) -> u64 {
    if v >= 0 {
        v as u64
    } else {
        (v + 0x1_0000_0000_0000_0000) as u64
    }
}

/// The signed integer whose two's-complement 64-bit pattern is `u`.
pub open spec fn i64_of_u64(u: u64) -> i64 {
    if u < 0x8000_0000_0000_0000 {
        u as i64
    } else {
        (u - 0x1_0000_0000_0000_0000) as i64
    }
}

/// The wire form of one field: a length prefix, then the payload, with
/// `0xFFFF_FFFF` in place of a length for null.
pub open spec fn enc_value(v: ValueKind) -> Seq<u8> {
    match v {
        ValueKind::Null => be32(0xFFFF_FFFFu32),
        ValueKind::Bool(x) => be32(1) + seq![
            if x {
                1u8
            } else {
                0u8
            },
        ],
        ValueKind::Int32(x) => be32(4) + be32(u32_of_i32(x)),
        ValueKind::Int64(x) => be32(8) + be64(u64_of_i64(x)),
        ValueKind::Text(bs) => be32(bs.len() as u32) + bs,
    }
}

/// The wire form of a row's fields from column `i` on, in column order.
pub open spec fn enc_fields(row: Seq<ValueKind>, i: int) -> Seq<u8>
    decreases row.len() - i,
{
    if i < 0 || i >= row.len() {
        Seq::empty()
    } else {
        enc_value(row[i]) + enc_fields(row, i + 1)
    }
}

/// The wire form of one row: its field count, then its fields.
pub open spec fn enc_row(row: Seq<ValueKind>) -> Seq<u8> {
    be16(row.len() as u16) + enc_fields(row, 0)
}

/// The wire form of the rows from index `i` on, in row order.
pub open spec fn enc_rows(rows: Seq<Seq<ValueKind>>, i: int) -> Seq<u8>
    decreases rows.len() - i,
{
    if i < 0 || i >= rows.len() {
        Seq::empty()
    } else {
        enc_row(rows[i]) + enc_rows(rows, i + 1)
    }
}

/// The fixed signature that opens every load payload.
pub open spec fn copy_signature() -> Seq<u8> {
    seq![0x50u8, 0x47u8, 0x43u8, 0x4Fu8, 0x50u8, 0x59u8, 0x0Au8, 0xFFu8, 0x0Du8, 0x0Au8, 0x00u8]
}

/// The payload header: the signature, a zero flags word, and a zero-length
/// header extension.
pub open spec fn copy_header() -> Seq<u8> {
    copy_signature() + be32(0) + be32(0)
}

/// The end-of-data marker: a field count of minus one.
pub open spec fn copy_trailer() -> Seq<u8> {
    be16(0xFFFFu16)
}

/// The complete wire form of a row sequence.
pub open spec fn enc_copy_data(rows: Seq<Seq<ValueKind>>) -> Seq<u8> {
    copy_header() + enc_rows(rows, 0) + copy_trailer()
}

/// What the destination's native reader makes of one field of column `c`
/// at position `p`: the decoded value and the position after it, or
/// nothing if the bytes are not a well-formed field of that column.
pub open spec fn dec_value(c: ColumnModel, b: Seq<u8>, p: int) -> Option<(ValueKind, int)> {
    if p < 0 || p + 4 > b.len() {
        None
    } else {
        let l = rd_u32(b, p);
        if l == 0xFFFF_FFFFu32 {
            if c.is_nullable {
                Some((ValueKind::Null, p + 4))
            } else {
                None
            }
        } else {
            match c.data_type {
                TypeModel::Boolean => if l == 1 && p + 5 <= b.len() && (b[p + 4] == 0 || b[p + 4]
                    == 1) {
                    Some((ValueKind::Bool(b[p + 4] == 1), p + 5))
                } else {
                    None
                },
                TypeModel::Int => if l == 4 && p + 8 <= b.len() {
                    Some((ValueKind::Int32(i32_of_u32(rd_u32(b, p + 4))), p + 8))
                } else {
                    None
                },
                TypeModel::Bigint => if l == 8 && p + 12 <= b.len() {
                    Some((ValueKind::Int64(i64_of_u64(rd_u64(b, p + 4))), p + 12))
                } else {
                    None
                },
                TypeModel::Text => if p + 4 + l <= b.len() {
                    Some((ValueKind::Text(b.subrange(p + 4, p + 4 + l)), p + 4 + l))
                } else {
                    None
                },
                TypeModel::Array => None,
            }
        }
    }
}

/// What the native reader makes of a row's fields from column `i` on,
/// starting at position `p`.
pub open spec fn dec_fields(cols: Seq<ColumnModel>, i: int, b: Seq<u8>, p: int) -> Option<
    (Seq<ValueKind>, int),
>
    decreases cols.len() - i,
{
    if i < 0 || i >= cols.len() {
        Some((Seq::empty(), p))
    } else {
        match dec_value(cols[i], b, p) {
            None => None,
            Some((v, p2)) => match dec_fields(cols, i + 1, b, p2) {
                None => None,
                Some((vs, p3)) => Some((seq![v] + vs, p3)),
            },
        }
    }
}

/// What the native reader makes of the framed tuples starting at
/// position `p`: the decoded rows up to the end-of-data marker, which
/// must close the payload exactly.
pub open spec fn dec_rows(cols: Seq<ColumnModel>, b: Seq<u8>, p: int) -> Option<
    Seq<Seq<ValueKind>>,
>
    decreases b.len() - p,
{
    if p < 0 || p + 2 > b.len() {
        None
    } else {
        let c = rd_u16(b, p);
        if c == 0xFFFFu16 {
            if p + 2 == b.len() {
                Some(Seq::empty())
            } else {
                None
            }
        } else if c == cols.len() {
            match dec_fields(cols, 0, b, p + 2) {
                None => None,
                Some((row, p2)) => if p + 2 <= p2 <= b.len() {
                    match dec_rows(cols, b, p2) {
                        None => None,
                        Some(rest) => Some(seq![row] + rest),
                    }
                } else {
                    None
                },
            }
        } else {
            None
        }
    }
}

/// What the native reader makes of a complete payload: its rows, or
/// nothing if the header, framing or any field is malformed.
pub open spec fn dec_copy_data(cols: Seq<ColumnModel>, b: Seq<u8>) -> Option<Seq<Seq<ValueKind>>> {
    if b.len() >= 19 && b.subrange(0, 19) == copy_header() {
        dec_rows(cols, b, 19)
    } else {
        None
    }
}

proof fn lemma_subrange_index(b: Seq<u8>, p: int, s: Seq<u8>)
    requires
        0 <= p,
        p + s.len() <= b.len(),
        b.subrange(p, p + s.len()) == s,
    ensures
        forall|k: int| p <= k < p + s.len() ==> b[k] == s[k - p],
{
    assert forall|k: int| p <= k < p + s.len() implies b[k] == s[k - p] by {
        assert(b.subrange(p, p + s.len() as int)[k - p] == s[k - p]);
    }
}

proof fn lemma_subrange_split(b: Seq<u8>, p: int, x: Seq<u8>, y: Seq<u8>)
    requires
        0 <= p,
        p + x.len() + y.len() <= b.len(),
        b.subrange(p, p + x.len() + y.len()) == x + y,
    ensures
        b.subrange(p, p + x.len()) == x,
        b.subrange(p + x.len(), p + x.len() + y.len()) == y,
{
    let s = b.subrange(p, p + x.len() + y.len());
    assert forall|j: int| 0 <= j < x.len() implies b.subrange(p, p + x.len() as int)[j] == x[j] by {
        assert(s[j] == (x + y)[j]);
    }
    assert(b.subrange(p, p + x.len() as int) =~= x);
    assert forall|j: int|
        0 <= j < y.len() implies b.subrange(p + x.len(), p + x.len() + y.len() as int)[j] == y[j] by {
        assert(s[x.len() + j] == (x + y)[x.len() + j]);
    }
    assert(b.subrange(p + x.len() as int, p + x.len() + y.len() as int) =~= y);
}

proof fn lemma_subrange_join(b: Seq<u8>, q: int, r: int, s: int, x: Seq<u8>, y: Seq<u8>)
    requires
        0 <= q <= r <= s <= b.len(),
        b.subrange(q, r) == x,
        b.subrange(r, s) == y,
    ensures
        b.subrange(q, s) == x + y,
{
    assert(r - q == x.len());
    assert(s - r == y.len());
    assert forall|j: int| 0 <= j < s - q implies b.subrange(q, s)[j] == (x + y)[j] by {
        if j < x.len() {
            assert(b.subrange(q, r)[j] == x[j]);
        } else {
            assert(b.subrange(r, s)[j - x.len()] == y[j - x.len()]);
        }
    }
    assert(b.subrange(q, s) =~= x + y);
}

proof fn lemma_rd_be16(b: Seq<u8>, p: int, n: u16)
    requires
        0 <= p,
        p + 2 <= b.len(),
        b.subrange(p, p + 2) == be16(n),
    ensures
        rd_u16(b, p) == n,
{
    assert(b[p] == be16(n)[0]);
    assert(b[p + 1] == be16(n)[1]);
}

proof fn lemma_rd_be32(b: Seq<u8>, p: int, n: u32)
    requires
        0 <= p,
        p + 4 <= b.len(),
        b.subrange(p, p + 4) == be32(n),
    ensures
        rd_u32(b, p) == n,
{
    lemma_subrange_index(b, p, be32(n));
    assert(b.subrange(p, p + 2) =~= be16((n / 0x10000) as u16));
    assert(b.subrange(p + 2, p + 4) =~= be16((n % 0x10000) as u16));
    lemma_rd_be16(b, p, (n / 0x10000) as u16);
    lemma_rd_be16(b, p + 2, (n % 0x10000) as u16);
}

proof fn lemma_rd_be64(b: Seq<u8>, p: int, n: u64)
    requires
        0 <= p,
        p + 8 <= b.len(),
        b.subrange(p, p + 8) == be64(n),
    ensures
        rd_u64(b, p) == n,
{
    lemma_subrange_index(b, p, be64(n));
    assert(b.subrange(p, p + 4) =~= be32((n / 0x1_0000_0000) as u32));
    assert(b.subrange(p + 4, p + 8) =~= be32((n % 0x1_0000_0000) as u32));
    lemma_rd_be32(b, p, (n / 0x1_0000_0000) as u32);
    lemma_rd_be32(b, p + 4, (n % 0x1_0000_0000) as u32);
}

proof fn lemma_dec_value_of_enc(c: ColumnModel, v: ValueKind, b: Seq<u8>, p: int)
    requires
        value_matches(v, c),
        0 <= p,
        p + enc_value(v).len() <= b.len(),
        b.subrange(p, p + enc_value(v).len()) == enc_value(v),
    ensures
        dec_value(c, b, p) == Some((v, p + enc_value(v).len())),
{
    lemma_subrange_index(b, p, enc_value(v));
    match v {
        ValueKind::Null => {
            assert(b.subrange(p, p + 4) =~= be32(0xFFFF_FFFFu32));
            lemma_rd_be32(b, p, 0xFFFF_FFFFu32);
        },
        ValueKind::Bool(x) => {
            assert(enc_value(v).len() == 5);
            assert(b.subrange(p, p + 4) =~= be32(1));
            lemma_rd_be32(b, p, 1);
            assert(b[p + 4] == enc_value(v)[4]);
        },
        ValueKind::Int32(x) => {
            assert(enc_value(v).len() == 8);
            assert(b.subrange(p, p + 4) =~= be32(4));
            assert(b.subrange(p + 4, p + 8) =~= be32(u32_of_i32(x)));
            lemma_rd_be32(b, p, 4);
            lemma_rd_be32(b, p + 4, u32_of_i32(x));
            assert(i32_of_u32(u32_of_i32(x)) == x);
        },
        ValueKind::Int64(x) => {
            assert(enc_value(v).len() == 12);
            assert(b.subrange(p, p + 4) =~= be32(8));
            assert(b.subrange(p + 4, p + 12) =~= be64(u64_of_i64(x)));
            lemma_rd_be32(b, p, 8);
            lemma_rd_be64(b, p + 4, u64_of_i64(x));
            assert(i64_of_u64(u64_of_i64(x)) == x);
        },
        ValueKind::Text(bs) => {
            assert(enc_value(v).len() == 4 + bs.len());
            assert(b.subrange(p, p + 4) =~= be32(bs.len() as u32));
            lemma_rd_be32(b, p, bs.len() as u32);
            assert(rd_u32(b, p) != 0xFFFF_FFFFu32);
            assert(b.subrange(p + 4, p + 4 + bs.len()) =~= bs);
        },
    }
}

#[verifier::rlimit(60)]
proof fn lemma_dec_fields_of_enc(cols: Seq<ColumnModel>, row: Seq<ValueKind>, i: int, b: Seq<u8>, p: int)
    requires
        row.len() == cols.len(),
        forall|j: int| 0 <= j < row.len() ==> value_matches(#[trigger] row[j], cols[j]),
        0 <= i <= row.len(),
        0 <= p,
        p + enc_fields(row, i).len() <= b.len(),
        b.subrange(p, p + enc_fields(row, i).len()) == enc_fields(row, i),
    ensures
        dec_fields(cols, i, b, p) == Some((row.skip(i), p + enc_fields(row, i).len())),
    decreases row.len() - i,
{
    if i == row.len() {
        assert(row.skip(i) =~= Seq::<ValueKind>::empty());
    } else {
        lemma_subrange_index(b, p, enc_fields(row, i));
        let ev = enc_value(row[i]);
        let rest = enc_fields(row, i + 1);
        assert(enc_fields(row, i) == ev + rest);
        assert(b.subrange(p, p + ev.len() as int) =~= ev);
        lemma_dec_value_of_enc(cols[i], row[i], b, p);
        let p2 = p + ev.len() as int;
        assert(b.subrange(p2, p2 + rest.len() as int) =~= rest);
        lemma_dec_fields_of_enc(cols, row, i + 1, b, p2);
        assert(seq![row[i]] + row.skip(i + 1) =~= row.skip(i));
    }
}

#[verifier::rlimit(100)]
proof fn lemma_dec_rows_of_enc(cols: Seq<ColumnModel>, rows: Seq<Seq<ValueKind>>, i: int, b: Seq<u8>, p: int)
    requires
        rows_match(rows, cols),
        cols.len() < 0xFFFF,
        0 <= i <= rows.len(),
        0 <= p <= b.len(),
        b.subrange(p, b.len() as int) == enc_rows(rows, i) + copy_trailer(),
    ensures
        dec_rows(cols, b, p) == Some(rows.skip(i)),
    decreases rows.len() - i,
{
    let body = enc_rows(rows, i);
    let tr = copy_trailer();
    assert(b.subrange(p, b.len() as int).len() == (body + tr).len());
    assert(tr.len() == 2);
    assert(b.len() == p + body.len() + tr.len());
    lemma_subrange_split(b, p, body, tr);
    if i == rows.len() {
        assert(body =~= Seq::<u8>::empty());
        assert(b.subrange(p, p + 2) =~= tr);
        lemma_rd_be16(b, p, 0xFFFFu16);
        assert(rows.skip(i) =~= Seq::<Seq<ValueKind>>::empty());
    } else {
        let row = rows[i];
        assert(row_matches(row, cols));
        let er = enc_row(row);
        let rest = enc_rows(rows, i + 1);
        assert(body == er + rest);
        lemma_subrange_split(b, p, er, rest);
        let cnt = be16(row.len() as u16);
        let ef = enc_fields(row, 0);
        assert(er == cnt + ef);
        lemma_subrange_split(b, p, cnt, ef);
        lemma_rd_be16(b, p, row.len() as u16);
        assert(rd_u16(b, p) == cols.len());
        assert(rd_u16(b, p) != 0xFFFFu16);
        lemma_dec_fields_of_enc(cols, row, 0, b, p + 2);
        let p2 = p + 2 + ef.len() as int;
        assert(dec_fields(cols, 0, b, p + 2) == Some((row.skip(0), p2)));
        assert(row.skip(0) =~= row);
        assert(p2 == p + er.len());
        lemma_subrange_join(b, p2, p + body.len(), b.len() as int, rest, tr);
        lemma_dec_rows_of_enc(cols, rows, i + 1, b, p2);
        assert(seq![row] + rows.skip(i + 1) =~= rows.skip(i));
    }
}

fn u32_from_i32(v: i32) -> (r: u32)
    ensures
        r == u32_of_i32(v),
{
    if v >= 0 {
        v as u32
    } else {
        ((v as i64) + 0x1_0000_0000i64) as u32
    }
}

fn i32_from_u32(u: u32) -> (r: i32)
    ensures
        r == i32_of_u32(u),
{
    if u < 0x8000_0000 {
        u as i32
    } else {
        ((u as i64) - 0x1_0000_0000i64) as i32
    }
}

fn u64_from_i64(v: i64) -> (r: u64)
    ensures
        r == u64_of_i64(v),
{
    if v >= 0 {
        v as u64
    } else {
        ((v as i128) + 0x1_0000_0000_0000_0000i128) as u64
    }
}

fn i64_from_u64(u: u64) -> (r: i64)
    ensures
        r == i64_of_u64(u),
{
    if u < 0x8000_0000_0000_0000 {
        u as i64
    } else {
        ((u as i128) - 0x1_0000_0000_0000_0000i128) as i64
    }
}

fn push_be16(out: &mut Vec<u8>, n: u16)
    ensures
        final(out)@ == old(out)@ + be16(n),
{
    out.push((n / 0x100) as u8);
    out.push((n % 0x100) as u8);
    proof {
        assert(final(out)@ =~= old(out)@ + be16(n));
    }
}

fn push_be32(out: &mut Vec<u8>, n: u32)
    ensures
        final(out)@ == old(out)@ + be32(n),
{
    push_be16(out, (n / 0x10000) as u16);
    push_be16(out, (n % 0x10000) as u16);
    proof {
        assert(final(out)@ =~= old(out)@ + be32(n));
    }
}

fn push_be64(out: &mut Vec<u8>, n: u64)
    ensures
        final(out)@ == old(out)@ + be64(n),
{
    push_be32(out, (n / 0x1_0000_0000) as u32);
    push_be32(out, (n % 0x1_0000_0000) as u32);
    proof {
        assert(final(out)@ =~= old(out)@ + be64(n));
    }
}

fn append_bytes(out: &mut Vec<u8>, bs: &Vec<u8>)
    ensures
        final(out)@ == old(out)@ + bs@,
{
    let mut k: usize = 0;
    while k < bs.len()
        invariant
            k <= bs@.len(),
            out@ == old(out)@ + bs@.take(k as int),
        decreases bs@.len() - k,
    {
        out.push(bs[k]);
        proof {
            assert(old(out)@ + bs@.take(k + 1) =~= (old(out)@ + bs@.take(k as int)) + seq![
                bs@[k as int],
            ]);
        }
        k = k + 1;
    }
    proof {
        assert(bs@.take(bs@.len() as int) =~= bs@);
    }
}

fn read_u16(b: &Vec<u8>, p: usize) -> (r: u16)
    requires
        p + 2 <= b@.len(),
    ensures
        r == rd_u16(b@, p as int),
{
    let n = b.len();
    (b[p] as u16) * 0x100 + (b[p + 1] as u16)
}

fn read_u32(b: &Vec<u8>, p: usize) -> (r: u32)
    requires
        p + 4 <= b@.len(),
    ensures
        r == rd_u32(b@, p as int),
{
    let n = b.len();
    (read_u16(b, p) as u32) * 0x10000 + (read_u16(b, p + 2) as u32)
}

fn read_u64(b: &Vec<u8>, p: usize) -> (r: u64)
    requires
        p + 8 <= b@.len(),
    ensures
        r == rd_u64(b@, p as int),
{
    let n = b.len();
    (read_u32(b, p) as u64) * 0x1_0000_0000 + (read_u32(b, p + 4) as u64)
}

fn copy_header_bytes() -> (r: Vec<u8>)
    ensures
        r@ == copy_header(),
{
    let mut out: Vec<u8> = Vec::new();
    out.push(0x50);
    out.push(0x47);
    out.push(0x43);
    out.push(0x4F);
    out.push(0x50);
    out.push(0x59);
    out.push(0x0A);
    out.push(0xFF);
    out.push(0x0D);
    out.push(0x0A);
    out.push(0x00);
    proof {
        assert(out@ =~= copy_signature());
    }
    push_be32(&mut out, 0);
    push_be32(&mut out, 0);
    proof {
        assert(out@ =~= copy_header());
    }
    out
}

/// Encode a well-typed row sequence into the destination's binary
/// bulk-load wire form: the header, one framed tuple per row in row
/// order, and the end-of-data marker.
pub fn encode_copy_data(columns: &Vec<PgColumn>, rows: &Vec<Vec<PgValue>>) -> (r: Vec<u8>)
    requires
        columns@.len() < 0xFFFF,
        rows_match(rows_view(rows@), cols_model(columns@)),
    ensures
        r@ == enc_copy_data(rows_view(rows@)),
{
    let ghost rv = rows_view(rows@);
    let mut out = copy_header_bytes();
    let mut i: usize = 0;
    while i < rows.len()
        invariant
            i <= rows@.len(),
            rv == rows_view(rows@),
            rv.len() == rows@.len(),
            columns@.len() < 0xFFFF,
            rows_match(rv, cols_model(columns@)),
            out@ + enc_rows(rv, i as int) == copy_header() + enc_rows(rv, 0),
        decreases rows@.len() - i,
    {
        let ghost out_entry = out@;
        let row = &rows[i];
        let ghost rvi = rv[i as int];
        proof {
            assert(rvi == row_view(row@));
            assert(row_matches(rvi, cols_model(columns@)));
            assert(rvi.len() == row@.len());
        }
        push_be16(&mut out, row.len() as u16);
        let mut j: usize = 0;
        while j < row.len()
            invariant
                j <= row@.len(),
                rvi == row_view(row@),
                rvi.len() == row@.len(),
                row_matches(rvi, cols_model(columns@)),
                out@ + enc_fields(rvi, j as int) == out_entry + enc_row(rvi),
            decreases row@.len() - j,
        {
            let ghost out_before = out@;
            proof {
                assert(rvi[j as int] == row@[j as int]@);
                assert(value_matches(rvi[j as int], cols_model(columns@)[j as int]));
            }
            match &row[j] {
                PgValue::Null => {
                    push_be32(&mut out, 0xFFFF_FFFF);
                },
                PgValue::Bool(x) => {
                    push_be32(&mut out, 1);
                    out.push(
                        if *x {
                            1
                        } else {
                            0
                        },
                    );
                },
                PgValue::Int32(x) => {
                    push_be32(&mut out, 4);
                    let u = u32_from_i32(*x);
                    push_be32(&mut out, u);
                },
                PgValue::Int64(x) => {
                    push_be32(&mut out, 8);
                    let u = u64_from_i64(*x);
                    push_be64(&mut out, u);
                },
                PgValue::Text(bs) => {
                    push_be32(&mut out, bs.len() as u32);
                    append_bytes(&mut out, bs);
                },
            }
            proof {
                assert(out@ =~= out_before + enc_value(rvi[j as int]));
                assert(out@ + enc_fields(rvi, j + 1) =~= out_before + enc_fields(rvi, j as int));
            }
            j = j + 1;
        }
        proof {
            assert(out@ + enc_fields(rvi, rvi.len() as int) =~= out@);
            assert(out@ + enc_rows(rv, i + 1) =~= out_entry + enc_rows(rv, i as int));
        }
        i = i + 1;
    }
    proof {
        assert(out@ + enc_rows(rv, rv.len() as int) =~= out@);
    }
    push_be16(&mut out, 0xFFFF);
    proof {
        assert(out@ =~= enc_copy_data(rv));
    }
    out
}

fn decode_value(column: &PgColumn, b: &Vec<u8>, p: usize) -> (r: Result<(PgValue, usize), Error>)
    requires
        p <= b@.len(),
    ensures
        match r {
            Ok(vp) => {
                &&& dec_value(col_model(*column), b@, p as int) == Some((vp.0@, vp.1 as int))
                &&& p < vp.1 <= b@.len()
            },
            Err(e) => {
                &&& dec_value(col_model(*column), b@, p as int) is None
                &&& e is MalformedData
            },
        },
{
    let n = b.len();
    if n - p < 4 {
        return Err(Error::MalformedData);
    }
    let l = read_u32(b, p);
    if l == 0xFFFF_FFFF {
        if column.is_nullable {
            Ok((PgValue::Null, p + 4))
        } else {
            Err(Error::MalformedData)
        }
    } else {
        match &column.data_type {
            PgDataType::Boolean => {
                if l == 1 && n - (p + 4) >= 1 {
                    let byte = b[p + 4];
                    if byte == 0 || byte == 1 {
                        Ok((PgValue::Bool(byte == 1), p + 5))
                    } else {
                        Err(Error::MalformedData)
                    }
                } else {
                    Err(Error::MalformedData)
                }
            },
            PgDataType::Int => {
                if l == 4 && n - (p + 4) >= 4 {
                    Ok((PgValue::Int32(i32_from_u32(read_u32(b, p + 4))), p + 8))
                } else {
                    Err(Error::MalformedData)
                }
            },
            PgDataType::Bigint => {
                if l == 8 && n - (p + 4) >= 8 {
                    Ok((PgValue::Int64(i64_from_u64(read_u64(b, p + 4))), p + 12))
                } else {
                    Err(Error::MalformedData)
                }
            },
            PgDataType::Text => {
                let ll = l as usize;
                if n - (p + 4) >= ll {
                    let mut bs: Vec<u8> = Vec::new();
                    let mut k: usize = 0;
                    while k < ll
                        invariant
                            k <= ll,
                            p + 4 + ll <= b@.len(),
                            b@.len() <= usize::MAX,
                            bs@ == b@.subrange(p + 4, p + 4 + k),
                        decreases ll - k,
                    {
                        bs.push(b[p + 4 + k]);
                        proof {
                            assert(bs@ =~= b@.subrange(p + 4, p + 4 + k + 1));
                        }
                        k = k + 1;
                    }
                    Ok((PgValue::Text(bs), p + 4 + ll))
                } else {
                    Err(Error::MalformedData)
                }
            },
            PgDataType::Array { .. } => Err(Error::MalformedData),
        }
    }
}

fn decode_row(columns: &Vec<PgColumn>, b: &Vec<u8>, p: usize) -> (r: Result<
    (Vec<PgValue>, usize),
    Error,
>)
    requires
        p <= b@.len(),
    ensures
        match r {
            Ok(rp) => {
                &&& dec_fields(cols_model(columns@), 0, b@, p as int) == Some(
                    (row_view(rp.0@), rp.1 as int),
                )
                &&& p <= rp.1 <= b@.len()
            },
            Err(e) => {
                &&& dec_fields(cols_model(columns@), 0, b@, p as int) is None
                &&& e is MalformedData
            },
        },
{
    let ghost cm = cols_model(columns@);
    let mut row: Vec<PgValue> = Vec::new();
    let mut q: usize = p;
    let mut j: usize = 0;
    proof {
        assert(row_view(row@) =~= Seq::<ValueKind>::empty());
    }
    while j < columns.len()
        invariant
            cm == cols_model(columns@),
            cm.len() == columns@.len(),
            j <= columns@.len(),
            p <= q <= b@.len(),
            row_view(row@).len() == j,
            dec_fields(cm, 0, b@, p as int) == match dec_fields(cm, j as int, b@, q as int) {
                None => None::<(Seq<ValueKind>, int)>,
                Some((vs, p3)) => Some((row_view(row@) + vs, p3)),
            },
        decreases columns@.len() - j,
    {
        proof {
            assert(cm[j as int] == col_model(columns@[j as int]));
        }
        match decode_value(&columns[j], b, q) {
            Err(e) => {
                return Err(e);
            },
            Ok((v, q2)) => {
                let ghost row_old = row@;
                row.push(v);
                proof {
                    assert(row_view(row@) =~= row_view(row_old) + seq![v@]);
                    assert forall|vs: Seq<ValueKind>, p3: int|
                        dec_fields(cm, j + 1, b@, q2 as int) == Some(
                            (vs, p3),
                        ) implies (row_view(row_old) + (seq![v@] + vs)) == (row_view(row@)
                        + vs) by {
                        assert(row_view(row_old) + (seq![v@] + vs) =~= row_view(row@) + vs);
                    }
                }
                q = q2;
            },
        }
        j = j + 1;
    }
    proof {
        assert(dec_fields(cm, j as int, b@, q as int) == Some((Seq::<ValueKind>::empty(), q as int)));
        assert(row_view(row@) + Seq::<ValueKind>::empty() =~= row_view(row@));
    }
    Ok((row, q))
}

/// Decode a complete binary bulk-load payload with the destination's
/// native reader, checking the header, every tuple frame, every field
/// against the table's column list, and the end-of-data marker.
pub fn decode_copy_data(columns: &Vec<PgColumn>, bytes: &Vec<u8>) -> (r: Result<
    Vec<Vec<PgValue>>,
    Error,
>)
    ensures
        match r {
            Ok(rows) => dec_copy_data(cols_model(columns@), bytes@) == Some(rows_view(rows@)),
            Err(e) => {
                &&& dec_copy_data(cols_model(columns@), bytes@) is None
                &&& e is MalformedData
            },
        },
{
    let ghost cm = cols_model(columns@);
    let n = bytes.len();
    if n < 19 {
        return Err(Error::MalformedData);
    }
    let hdr = copy_header_bytes();
    let mut h: usize = 0;
    while h < 19
        invariant
            hdr@ == copy_header(),
            19 <= bytes@.len(),
            h <= 19,
            forall|j: int| 0 <= j < h ==> bytes@[j] == copy_header()[j],
        decreases 19 - h,
    {
        if bytes[h] != hdr[h] {
            proof {
                assert(bytes@.subrange(0, 19)[h as int] == bytes@[h as int]);
                assert(bytes@.subrange(0, 19) != copy_header());
            }
            return Err(Error::MalformedData);
        }
        h = h + 1;
    }
    proof {
        assert(bytes@.subrange(0, 19) =~= copy_header());
    }
    let mut rows: Vec<Vec<PgValue>> = Vec::new();
    let mut p: usize = 19;
    proof {
        assert(rows_view(rows@) =~= Seq::<Seq<ValueKind>>::empty());
        if dec_rows(cm, bytes@, 19) is Some {
            assert(rows_view(rows@) + dec_rows(cm, bytes@, 19)->Some_0 =~= dec_rows(
                cm,
                bytes@,
                19,
            )->Some_0);
        }
    }
    loop
        invariant
            cm == cols_model(columns@),
            n == bytes@.len(),
            19 <= p <= n,
            dec_copy_data(cm, bytes@) == dec_rows(cm, bytes@, 19),
            dec_rows(cm, bytes@, 19) == match dec_rows(cm, bytes@, p as int) {
                None => None::<Seq<Seq<ValueKind>>>,
                Some(rest) => Some(rows_view(rows@) + rest),
            },
        decreases n - p,
    {
        if n - p < 2 {
            return Err(Error::MalformedData);
        }
        let c = read_u16(bytes, p);
        if c == 0xFFFF {
            if p + 2 == n {
                proof {
                    assert(rows_view(rows@) + Seq::<Seq<ValueKind>>::empty() =~= rows_view(rows@));
                }
                return Ok(rows);
            } else {
                return Err(Error::MalformedData);
            }
        }
        if (c as usize) != columns.len() {
            return Err(Error::MalformedData);
        }
        match decode_row(columns, bytes, p + 2) {
            Err(e) => {
                return Err(e);
            },
            Ok((row, p2)) => {
                let ghost rows_old = rows@;
                rows.push(row);
                proof {
                    assert(rows_view(rows@) =~= rows_view(rows_old) + seq![row_view(row@)]);
                    assert forall|rest2: Seq<Seq<ValueKind>>|
                        dec_rows(cm, bytes@, p2 as int) == Some(rest2) implies (rows_view(rows_old)
                        + (seq![row_view(row@)] + rest2)) == (rows_view(rows@) + rest2) by {
                        assert(rows_view(rows_old) + (seq![row_view(row@)] + rest2) =~= rows_view(
                            rows@,
                        ) + rest2);
                    }
                }
                p = p2;
            },
        }
    }
}

/// Decoding inverts encoding: the destination's native reader, given the
/// wire form of any well-typed row sequence, reads back exactly those
/// rows — no reordering, truncation, or type coercion.
pub proof fn lemma_decode_of_encode(cols: Seq<ColumnModel>, rows: Seq<Seq<ValueKind>>)
    requires
        rows_match(rows, cols),
        cols.len() < 0xFFFF,
    ensures
        dec_copy_data(cols, enc_copy_data(rows)) == Some(rows),
{
    let b = enc_copy_data(rows);
    assert(copy_header().len() == 19);
    assert(b.len() >= 19);
    assert(b.subrange(0, 19) =~= copy_header());
    assert(b.subrange(19, b.len() as int) =~= enc_rows(rows, 0) + copy_trailer());
    lemma_dec_rows_of_enc(cols, rows, 0, b, 19);
    assert(rows.skip(0) =~= rows);
}

} // verus!
