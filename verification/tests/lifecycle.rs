use dbcrossbar::destination::{create_table, drop_table_if_exists, prepare_table, Destination};
use dbcrossbar::error::Error;
use dbcrossbar::pg_schema::{copy_from_sql, create_table_sql, drop_table_sql, PgCreateTable};
use dbcrossbar::schema::{Column, DataType, IfExists, Table};
use dbcrossbar::values::PgValue;
use dbcrossbar::write_local::{write_local_data_helper, CsvStream};

fn col(name: &str, data_type: DataType, is_nullable: bool) -> Column {
    Column { name: String::from(name), data_type, is_nullable }
}

fn schema() -> Table {
    Table {
        name: String::from("people"),
        columns: vec![col("id", DataType::Int32, false), col("name", DataType::Text, false)],
    }
}

fn stream(name: &str, payload: &[u8]) -> CsvStream {
    CsvStream { name: String::from(name), chunks: vec![payload.to_vec()] }
}

fn write(conn: &mut Destination, data: Vec<CsvStream>, if_exists: IfExists) -> Result<(), Error> {
    write_local_data_helper(conn, String::from("people"), &schema(), &data, if_exists)
}

fn table_rows(conn: &Destination) -> &Vec<Vec<PgValue>> {
    assert_eq!(conn.tables.len(), 1);
    assert_eq!(conn.tables[0].name, "people");
    &conn.tables[0].rows
}

#[test]
fn overwrite_replaces_a_prior_table_whole() {
    let mut conn = Destination { tables: vec![] };
    write(&mut conn, vec![stream("s1", b"1,old\n")], IfExists::Overwrite).unwrap();
    assert_eq!(table_rows(&conn).len(), 1);
    // A second transfer under Overwrite: the old rows become invisible.
    write(&mut conn, vec![stream("s1", b"2,new\n")], IfExists::Overwrite).unwrap();
    let rows = table_rows(&conn);
    assert_eq!(rows.len(), 1);
    assert!(matches!(rows[0][0], PgValue::Int32(2)));
}

#[test]
fn error_policy_fails_before_any_data_when_table_exists() {
    let mut conn = Destination { tables: vec![] };
    write(&mut conn, vec![stream("s1", b"1,kept\n")], IfExists::Error).unwrap();
    assert_eq!(table_rows(&conn).len(), 1);
    // The table now exists: the whole transfer must fail, writing nothing.
    match write(&mut conn, vec![stream("s1", b"2,never\n")], IfExists::Error) {
        Err(Error::TableAlreadyExists { table }) => assert_eq!(table, "people"),
        _ => panic!("expected a lifecycle error"),
    }
    let rows = table_rows(&conn);
    assert_eq!(rows.len(), 1);
    assert!(matches!(rows[0][0], PgValue::Int32(1)));
}

#[test]
fn append_retains_preexisting_rows() {
    let mut conn = Destination { tables: vec![] };
    write(&mut conn, vec![stream("s1", b"1,first\n")], IfExists::Append).unwrap();
    write(&mut conn, vec![stream("s1", b"2,second\n")], IfExists::Append).unwrap();
    let rows = table_rows(&conn);
    assert_eq!(rows.len(), 2);
    assert!(matches!(rows[0][0], PgValue::Int32(1)));
    assert!(matches!(rows[1][0], PgValue::Int32(2)));
}

#[test]
fn array_column_is_rejected_before_any_destination_call() {
    let mut conn = Destination { tables: vec![] };
    let bad = Table {
        name: String::from("people"),
        columns: vec![
            col("id", DataType::Int32, false),
            Column {
                name: String::from("tags"),
                data_type: DataType::Array(Box::new(DataType::Text)),
                is_nullable: true,
            },
        ],
    };
    let r = write_local_data_helper(
        &mut conn,
        String::from("people"),
        &bad,
        &vec![stream("s1", b"1,x\n")],
        IfExists::Overwrite,
    );
    match r {
        Err(Error::UnsupportedColumnType { column }) => assert_eq!(column, "tags"),
        _ => panic!("expected a schema error"),
    }
    // No table was created, no data written.
    assert_eq!(conn.tables.len(), 0);
}

#[test]
fn copy_from_sql_names_every_column_in_schema_order() {
    let pct = PgCreateTable::from_name_and_columns(
        String::from("people"),
        &vec![col("id", DataType::Int32, false), col("name", DataType::Text, false)],
    );
    let sql = copy_from_sql(&pct, "BINARY").unwrap();
    assert_eq!(
        sql,
        "COPY \"people\" (\n    \"id\",\n    \"name\"\n) FROM STDIN WITH BINARY\n"
    );
}

#[test]
fn copy_from_sql_escapes_quotes_in_identifiers() {
    let pct = PgCreateTable::from_name_and_columns(
        String::from("odd\"name"),
        &vec![col("a", DataType::Int32, false)],
    );
    let sql = copy_from_sql(&pct, "BINARY").unwrap();
    assert_eq!(
        sql,
        "COPY \"odd\"\"name\" (\n    \"a\"\n) FROM STDIN WITH BINARY\n"
    );
}

#[test]
fn create_table_sql_lists_types_and_constraints() {
    let mut pct = PgCreateTable::from_name_and_columns(
        String::from("people"),
        &vec![
            col("id", DataType::Int64, false),
            col("ok", DataType::Bool, true),
            Column {
                name: String::from("tags"),
                data_type: DataType::Array(Box::new(DataType::Text)),
                is_nullable: true,
            },
        ],
    );
    assert_eq!(
        create_table_sql(&pct),
        "CREATE TABLE \"people\" (\n    \"id\" bigint NOT NULL,\n    \"ok\" boolean,\n    \"tags\" text[]\n)\n"
    );
    pct.if_not_exists = true;
    assert_eq!(
        create_table_sql(&pct),
        "CREATE TABLE IF NOT EXISTS \"people\" (\n    \"id\" bigint NOT NULL,\n    \"ok\" boolean,\n    \"tags\" text[]\n)\n"
    );
}

#[test]
fn drop_table_sql_quotes_the_name() {
    assert_eq!(drop_table_sql("people"), "DROP TABLE IF EXISTS \"people\"");
}

#[test]
fn lifecycle_primitives_drop_create_prepare() {
    let mut conn = Destination { tables: vec![] };
    let pct = PgCreateTable::from_name_and_columns(
        String::from("t"),
        &vec![col("a", DataType::Int32, false)],
    );
    // Creating twice without a guard is a lifecycle error.
    create_table(&mut conn, &pct).unwrap();
    match create_table(&mut conn, &pct) {
        Err(Error::TableAlreadyExists { table }) => assert_eq!(table, "t"),
        _ => panic!("expected a lifecycle error"),
    }
    // Dropping is idempotent and cannot fail.
    drop_table_if_exists(&mut conn, "t").unwrap();
    drop_table_if_exists(&mut conn, "t").unwrap();
    assert_eq!(conn.tables.len(), 0);
    // Prepare under Append creates the missing table with a guard.
    let pct2 = PgCreateTable::from_name_and_columns(
        String::from("t"),
        &vec![col("a", DataType::Int32, false)],
    );
    prepare_table(&mut conn, pct2, IfExists::Append).unwrap();
    assert_eq!(conn.tables.len(), 1);
    assert_eq!(conn.tables[0].rows.len(), 0);
}
