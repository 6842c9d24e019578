use dbcrossbar::binary_format::{decode_copy_data, encode_copy_data};
use dbcrossbar::error::Error;
use dbcrossbar::pg_schema::PgCreateTable;
use dbcrossbar::schema::{Column, DataType};
use dbcrossbar::text_format::csv_to_rows;
use dbcrossbar::values::PgValue;

fn col(name: &str, data_type: DataType, is_nullable: bool) -> Column {
    Column { name: String::from(name), data_type, is_nullable }
}

fn int_text_table() -> PgCreateTable {
    PgCreateTable::from_name_and_columns(
        String::from("t"),
        &vec![col("a", DataType::Int32, false), col("b", DataType::Text, false)],
    )
}

#[test]
fn int_text_row_survives_encode_and_native_read_back() {
    // Columns [(a: int), (b: text)], values (1, "x").
    let pct = int_text_table();
    let rows = csv_to_rows("t", &pct.columns, &b"1,x\n".to_vec()).unwrap();
    let binary = encode_copy_data(&pct.columns, &rows);
    let back = decode_copy_data(&pct.columns, &binary).unwrap();
    assert_eq!(back.len(), 1);
    assert_eq!(back[0].len(), 2);
    assert!(matches!(back[0][0], PgValue::Int32(1)));
    match &back[0][1] {
        PgValue::Text(bs) => assert_eq!(bs, b"x"),
        _ => panic!("type was coerced"),
    }
}

#[test]
fn exact_wire_bytes_of_one_row() {
    let pct = int_text_table();
    let rows = csv_to_rows("t", &pct.columns, &b"1,x\n".to_vec()).unwrap();
    let binary = encode_copy_data(&pct.columns, &rows);
    let mut expected: Vec<u8> = Vec::new();
    // Signature, flags, header extension length.
    expected.extend_from_slice(&[0x50, 0x47, 0x43, 0x4F, 0x50, 0x59, 0x0A, 0xFF, 0x0D, 0x0A, 0x00]);
    expected.extend_from_slice(&[0, 0, 0, 0, 0, 0, 0, 0]);
    // One tuple: 2 fields; int 1 as 4 bytes; text "x" as 1 byte.
    expected.extend_from_slice(&[0, 2]);
    expected.extend_from_slice(&[0, 0, 0, 4, 0, 0, 0, 1]);
    expected.extend_from_slice(&[0, 0, 0, 1, 0x78]);
    // End-of-data marker.
    expected.extend_from_slice(&[0xFF, 0xFF]);
    assert_eq!(binary, expected);
}

#[test]
fn negative_and_extreme_integers_round_trip() {
    let pct = PgCreateTable::from_name_and_columns(
        String::from("t"),
        &vec![col("small", DataType::Int32, false), col("big", DataType::Int64, false)],
    );
    let csv = b"-2147483648,-9223372036854775808\n2147483647,9223372036854775807\n".to_vec();
    let rows = csv_to_rows("t", &pct.columns, &csv).unwrap();
    let binary = encode_copy_data(&pct.columns, &rows);
    let back = decode_copy_data(&pct.columns, &binary).unwrap();
    assert!(matches!(back[0][0], PgValue::Int32(i32::MIN)));
    assert!(matches!(back[0][1], PgValue::Int64(i64::MIN)));
    assert!(matches!(back[1][0], PgValue::Int32(i32::MAX)));
    assert!(matches!(back[1][1], PgValue::Int64(i64::MAX)));
}

#[test]
fn out_of_range_integer_is_a_value_error() {
    let pct = PgCreateTable::from_name_and_columns(
        String::from("t"),
        &vec![col("a", DataType::Int32, false)],
    );
    match csv_to_rows("t", &pct.columns, &b"2147483648\n".to_vec()) {
        Err(Error::InvalidValue { column }) => assert_eq!(column, "a"),
        _ => panic!("expected a value error"),
    }
    match csv_to_rows("t", &pct.columns, &b"12x\n".to_vec()) {
        Err(Error::InvalidValue { column }) => assert_eq!(column, "a"),
        _ => panic!("expected a value error"),
    }
}

#[test]
fn booleans_and_nulls_convert_exactly() {
    let pct = PgCreateTable::from_name_and_columns(
        String::from("t"),
        &vec![col("flag", DataType::Bool, true), col("note", DataType::Text, true)],
    );
    let rows = csv_to_rows("t", &pct.columns, &b"true,hello\nfalse,\n,ok\n".to_vec()).unwrap();
    assert!(matches!(rows[0][0], PgValue::Bool(true)));
    assert!(matches!(rows[1][0], PgValue::Bool(false)));
    assert!(matches!(rows[1][1], PgValue::Null));
    assert!(matches!(rows[2][0], PgValue::Null));
    match csv_to_rows("t", &pct.columns, &b"maybe,x\n".to_vec()) {
        Err(Error::InvalidValue { column }) => assert_eq!(column, "flag"),
        _ => panic!("expected a value error"),
    }
}

#[test]
fn null_in_non_nullable_column_is_rejected() {
    let pct = PgCreateTable::from_name_and_columns(
        String::from("t"),
        &vec![col("a", DataType::Int32, false)],
    );
    match csv_to_rows("t", &pct.columns, &b"\n".to_vec()) {
        Err(Error::InvalidValue { column }) => assert_eq!(column, "a"),
        _ => panic!("expected a value error"),
    }
}

#[test]
fn wrong_field_count_is_a_schema_error() {
    let pct = int_text_table();
    match csv_to_rows("t", &pct.columns, &b"1,x,extra\n".to_vec()) {
        Err(Error::ColumnCountMismatch { table }) => assert_eq!(table, "t"),
        _ => panic!("expected a column-count error"),
    }
}

#[test]
fn unterminated_final_record_is_malformed() {
    let pct = int_text_table();
    assert!(matches!(
        csv_to_rows("t", &pct.columns, &b"1,x".to_vec()),
        Err(Error::MalformedData)
    ));
}

#[test]
fn truncated_binary_payload_is_rejected_whole() {
    let pct = int_text_table();
    let rows = csv_to_rows("t", &pct.columns, &b"1,x\n".to_vec()).unwrap();
    let mut binary = encode_copy_data(&pct.columns, &rows);
    binary.pop();
    assert!(matches!(
        decode_copy_data(&pct.columns, &binary),
        Err(Error::MalformedData)
    ));
}

#[test]
fn empty_payload_encodes_header_and_trailer_only() {
    let pct = int_text_table();
    let rows = csv_to_rows("t", &pct.columns, &b"".to_vec()).unwrap();
    assert_eq!(rows.len(), 0);
    let binary = encode_copy_data(&pct.columns, &rows);
    assert_eq!(binary.len(), 21);
    let back = decode_copy_data(&pct.columns, &binary).unwrap();
    assert_eq!(back.len(), 0);
}
