use dbcrossbar::destination::{copy_from, Destination};
use dbcrossbar::error::Error;
use dbcrossbar::orchestrator::{
    find_gs_temp_dir, local_data_helper, plan_transfer, TemporaryStorage, TransferPlan,
};
use dbcrossbar::locator::{BigQueryLocator, Locator, TableName};
use dbcrossbar::schema::{Column, DataType, IfExists, Table};
use dbcrossbar::values::PgValue;
use dbcrossbar::write_local::{write_local_data_helper, CsvStream};

fn col(name: &str, data_type: DataType, is_nullable: bool) -> Column {
    Column { name: String::from(name), data_type, is_nullable }
}

fn schema() -> Table {
    Table {
        name: String::from("events"),
        columns: vec![col("seq", DataType::Int32, false), col("tag", DataType::Text, false)],
    }
}

fn stream(name: &str, payload: &[u8]) -> CsvStream {
    CsvStream { name: String::from(name), chunks: vec![payload.to_vec()] }
}

fn seqs(conn: &Destination) -> Vec<i32> {
    conn.tables[0]
        .rows
        .iter()
        .map(|row| match row[0] {
            PgValue::Int32(v) => v,
            _ => panic!("wrong type"),
        })
        .collect()
}

#[test]
fn streams_commit_fully_and_in_order() {
    let mut conn = Destination { tables: vec![] };
    let data = vec![
        stream("s1", b"1,a\n2,a\n"),
        stream("s2", b"3,b\n"),
        stream("s3", b"4,c\n5,c\n"),
    ];
    write_local_data_helper(&mut conn, String::from("events"), &schema(), &data, IfExists::Overwrite)
        .unwrap();
    // All of S1 precedes any of S2, which precedes any of S3.
    assert_eq!(seqs(&conn), vec![1, 2, 3, 4, 5]);
}

#[test]
fn chunked_streams_concatenate_in_order() {
    let mut conn = Destination { tables: vec![] };
    let data = vec![CsvStream {
        name: String::from("s1"),
        chunks: vec![b"1,".to_vec(), b"a\n2".to_vec(), b",b\n".to_vec()],
    }];
    write_local_data_helper(&mut conn, String::from("events"), &schema(), &data, IfExists::Overwrite)
        .unwrap();
    assert_eq!(seqs(&conn), vec![1, 2]);
}

#[test]
fn cancelling_between_streams_leaves_a_clean_prefix() {
    // A transfer cancelled after S1 completes and before S2 starts is one
    // that only ever fed S1 to the destination.
    let mut full = Destination { tables: vec![] };
    write_local_data_helper(
        &mut full,
        String::from("events"),
        &schema(),
        &vec![stream("s1", b"1,a\n2,a\n"), stream("s2", b"3,b\n")],
        IfExists::Overwrite,
    )
    .unwrap();
    let mut cancelled = Destination { tables: vec![] };
    write_local_data_helper(
        &mut cancelled,
        String::from("events"),
        &schema(),
        &vec![stream("s1", b"1,a\n2,a\n")],
        IfExists::Overwrite,
    )
    .unwrap();
    // Exactly S1's rows: no torn S2.
    assert_eq!(seqs(&cancelled), vec![1, 2]);
    assert_eq!(seqs(&full), vec![1, 2, 3]);
}

#[test]
fn a_failing_stream_stops_the_load_after_committed_prefix() {
    let mut conn = Destination { tables: vec![] };
    let data = vec![
        stream("s1", b"1,a\n"),
        stream("s2", b"not-a-number,b\n"),
        stream("s3", b"3,c\n"),
    ];
    let r = write_local_data_helper(
        &mut conn,
        String::from("events"),
        &schema(),
        &data,
        IfExists::Overwrite,
    );
    assert!(matches!(r, Err(Error::InvalidValue { .. })));
    // S1 committed whole; nothing of S2 or S3 is visible.
    assert_eq!(seqs(&conn), vec![1]);
}

#[test]
fn direct_transfer_is_planned_exactly_when_kinds_allow_it() {
    let bq = Locator::parse("bigquery:p:d.t").unwrap();
    let gs = Locator::parse("gs://bucket/data/").unwrap();
    let temp = TemporaryStorage { locations: vec![String::from("gs://bucket/tmp/")] };
    assert!(matches!(plan_transfer(&gs, &bq, &temp), Ok(TransferPlan::Direct)));
    assert!(matches!(plan_transfer(&bq, &gs, &temp), Ok(TransferPlan::Direct)));
    // Same-kind pairs have no direct path: the staged path is taken.
    match plan_transfer(&bq, &bq, &temp) {
        Ok(TransferPlan::Staged { temp: t }) => assert_eq!(t.bucket, "bucket"),
        _ => panic!("expected the staged fallback"),
    }
}

#[test]
fn staged_fallback_requires_temporary_storage() {
    let bq = Locator::parse("bigquery:p:d.t").unwrap();
    let none = TemporaryStorage { locations: vec![] };
    assert!(matches!(plan_transfer(&bq, &bq, &none), Err(Error::NoTemporaryStorage)));
    let unusable = TemporaryStorage { locations: vec![String::from("bigquery:p:d.t")] };
    assert!(matches!(plan_transfer(&bq, &bq, &unusable), Err(Error::NoTemporaryStorage)));
}

#[test]
fn temp_dir_resolver_picks_the_first_object_storage_location() {
    let storage = TemporaryStorage {
        locations: vec![
            String::from("bigquery:not:usable.here"),
            String::from("gs://stage/area/"),
        ],
    };
    let g = find_gs_temp_dir(&storage).unwrap();
    assert_eq!(g.bucket, "stage");
    assert_eq!(g.path, "area/");
}

#[test]
fn warehouse_extraction_stages_through_object_storage() {
    let source = BigQueryLocator {
        table_name: TableName {
            project: String::from("p"),
            dataset: String::from("d"),
            table: String::from("t"),
        },
    };
    let storage = TemporaryStorage { locations: vec![String::from("gs://stage/run/")] };
    let plan = local_data_helper(&source, &storage).unwrap();
    assert_eq!(plan.stage_to.bucket, "stage");
    let none = TemporaryStorage { locations: vec![] };
    assert!(matches!(local_data_helper(&source, &none), Err(Error::NoTemporaryStorage)));
}

#[test]
fn load_into_a_missing_table_is_reported() {
    let mut conn = Destination { tables: vec![] };
    match copy_from(&mut conn, "ghost", "", &vec![]) {
        Err(Error::NoSuchTable { table }) => assert_eq!(table, "ghost"),
        _ => panic!("expected a missing-table error"),
    }
    assert!(conn.tables.is_empty());
}

#[test]
fn error_messages_carry_their_context() {
    let e = Error::TableAlreadyExists { table: String::from("people") };
    assert_eq!(e.message(), "table already exists: people");
    assert_eq!(
        Error::NoTemporaryStorage.message(),
        "no temporary storage is configured for the staged transfer path"
    );
}
