use dbcrossbar::error::Error;
use dbcrossbar::locator::{BigQueryLocator, GsLocator, Locator, LocatorKind, TableName};

fn parse_ok(s: &str) -> Locator {
    match Locator::parse(s) {
        Ok(l) => l,
        Err(_) => panic!("expected {} to parse", s),
    }
}

#[test]
fn bigquery_address_round_trip() {
    let l = parse_ok("bigquery:my-project:my_dataset.my_table");
    assert_eq!(l.render(), "bigquery:my-project:my_dataset.my_table");
    match &l {
        Locator::BigQuery(b) => {
            assert_eq!(b.table_name.project, "my-project");
            assert_eq!(b.table_name.dataset, "my_dataset");
            assert_eq!(b.table_name.table, "my_table");
        },
        _ => panic!("wrong kind"),
    }
}

#[test]
fn bigquery_table_part_may_hold_dots() {
    let l = parse_ok("bigquery:p:d.t.v");
    assert_eq!(l.render(), "bigquery:p:d.t.v");
    match &l {
        Locator::BigQuery(b) => {
            assert_eq!(b.table_name.dataset, "d");
            assert_eq!(b.table_name.table, "t.v");
        },
        _ => panic!("wrong kind"),
    }
}

#[test]
fn gs_address_round_trip() {
    let l = parse_ok("gs://my-bucket/staging/run1/");
    assert_eq!(l.render(), "gs://my-bucket/staging/run1/");
    match &l {
        Locator::Gs(g) => {
            assert_eq!(g.bucket, "my-bucket");
            assert_eq!(g.path, "staging/run1/");
        },
        _ => panic!("wrong kind"),
    }
}

#[test]
fn gs_bucket_root_round_trip() {
    let l = parse_ok("gs://bucket/");
    assert_eq!(l.render(), "gs://bucket/");
}

#[test]
fn render_then_parse_gives_the_address_back() {
    let l = Locator::BigQuery(BigQueryLocator {
        table_name: TableName {
            project: String::from("p1"),
            dataset: String::from("d1"),
            table: String::from("t1"),
        },
    });
    let s = l.render();
    let back = parse_ok(s.as_str());
    assert_eq!(back.render(), s);
}

#[test]
fn malformed_addresses_are_rejected() {
    for s in [
        "ftp://x/y",
        "bigquery:",
        "bigquery:nodataset",
        "bigquery::d.t",
        "bigquery:p:.t",
        "bigquery:p:d.",
        "gs://",
        "gs://bucketonly",
        "gs://bucket/file-not-a-directory",
    ] {
        match Locator::parse(s) {
            Err(Error::AddressParse { address }) => assert_eq!(address, s),
            Err(_) => panic!("wrong error for {}", s),
            Ok(_) => panic!("expected {} to be rejected", s),
        }
    }
}

#[test]
fn bigquery_from_str_accepts_only_warehouse_addresses() {
    let b = BigQueryLocator::from_str("bigquery:p:d.t").unwrap();
    assert_eq!(b.table_name.project, "p");
    assert_eq!(b.table_name.dataset, "d");
    assert_eq!(b.table_name.table, "t");
    assert!(matches!(
        BigQueryLocator::from_str("gs://bucket/"),
        Err(Error::AddressParse { .. })
    ));
    assert!(matches!(
        BigQueryLocator::from_str("bigquery:broken"),
        Err(Error::AddressParse { .. })
    ));
}

#[test]
fn capability_depends_only_on_kinds() {
    let bq1 = parse_ok("bigquery:p:d.t");
    let bq2 = parse_ok("bigquery:other:set.tab");
    let gs1 = parse_ok("gs://a/");
    let gs2 = parse_ok("gs://b/deep/path/");
    // Same pair of kinds, different instances: same answer.
    assert_eq!(
        bq1.supports_write_remote_data(&gs1),
        bq2.supports_write_remote_data(&gs2)
    );
    assert_eq!(
        gs1.supports_write_remote_data(&bq1),
        gs2.supports_write_remote_data(&bq2)
    );
    assert!(bq1.supports_write_remote_data(&gs2));
    assert!(gs2.supports_write_remote_data(&bq1));
    assert!(!bq1.supports_write_remote_data(&bq2));
    assert!(!gs1.supports_write_remote_data(&gs2));
    assert!(matches!(bq1.kind(), LocatorKind::BigQuery));
    assert!(matches!(gs1.kind(), LocatorKind::Gs));
}

#[test]
fn bigquery_locator_accepts_only_object_storage_sources() {
    let bq = BigQueryLocator {
        table_name: TableName {
            project: String::from("p"),
            dataset: String::from("d"),
            table: String::from("t"),
        },
    };
    let gs = parse_ok("gs://bucket/");
    let other = parse_ok("bigquery:p2:d2.t2");
    assert!(bq.supports_write_remote_data(&gs));
    assert!(!bq.supports_write_remote_data(&other));
    let staging = GsLocator { bucket: String::from("b"), path: String::new() };
    assert_eq!(Locator::Gs(staging).render(), "gs://b/");
}
