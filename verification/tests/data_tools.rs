use jobseeker::exports::{daily_csv, export_file_name, export_file_name_now, export_is_blank, export_needed, latest_export, latest_temp_name, StoredAdFields};
use jobseeker::maintenance::{
    backup_path, backup_path_at, cleared_status, db_placement, default_export_dir, default_false, default_status,
    fix_fields_backup_name, is_missing_field_error, migration_backup_name_at, missing_fields, partition_new, pick_db_path, pretty_line,
    timestamped_backup_name, timestamped_backup_name_at, DbPlacement, DumpFields, FieldDefault,
};
use jobseeker::merge::{canonical_rows_for_export, merge_counts, merge_csv, plan_merge, timestamped_name, timestamped_name_at, MergeAction, Record, StoredState};

fn s(x: &str) -> String {
    x.to_string()
}

fn fields(id: &str, status: Option<i64>, applied: Option<&str>) -> StoredAdFields {
    StoredAdFields {
        id: Some(s(id)),
        headline: Some(s("Dev, senior")),
        employer_name: Some(s("Acme")),
        city: None,
        publication_date: Some(s("2026-01-01")),
        status,
        applied_at: applied.map(s),
    }
}

fn record(id: &str, applied: Option<&str>, status: Option<i64>) -> Record {
    Record {
        id: s(id),
        headline: Some(s("H")),
        employer_name: None,
        city: Some(s("Lund")),
        publication_date: Some(s("2026-01-01")),
        applied_at: applied.map(s),
        status,
        bookmarked_at: None,
        internal_created_at: Some(s("2025-12-01")),
    }
}

#[test]
fn csv_fields_are_quoted_as_each_tool_does() {
    assert_eq!(jobseeker::exports::quote_csv_field("plain"), "plain");
    assert_eq!(jobseeker::exports::quote_csv_field("a,b"), "\"a,b\"");
    assert_eq!(jobseeker::exports::quote_csv_field("say \"hi\""), "\"say \"\"hi\"\"\"");
    assert_eq!(jobseeker::exports::quote_csv_field("cr\r"), "\"cr\r\"");
    assert_eq!(jobseeker::merge::quote_csv_field("cr\r"), "cr\r");
    assert_eq!(jobseeker::merge::quote_csv_field("nl\n"), "\"nl\n\"");
}

#[test]
fn daily_export_lists_applied_jobs() {
    let entries = vec![
        Some(fields("1", Some(4), None)),
        Some(fields("2", Some(2), None)),
        None,
        Some(fields("3", None, Some(" 2026-01-05 "))),
    ];
    assert_eq!(
        daily_csv(&entries, None),
        "id,headline,employer_name,city,publication_date,applied_at\n1,\"Dev, senior\",Acme,,2026-01-01,\n3,\"Dev, senior\",Acme,,2026-01-01,2026-01-05\n"
    );
    assert_eq!(
        daily_csv(&entries, Some(1)),
        "id,headline,employer_name,city,publication_date,applied_at\n1,\"Dev, senior\",Acme,,2026-01-01,\n"
    );
    assert_eq!(daily_csv(&entries, Some(0)), "id,headline,employer_name,city,publication_date,applied_at\n");
    assert_eq!(daily_csv(&entries, Some(5)), daily_csv(&entries, None));
}

#[test]
fn newest_export_file_is_found() {
    let names = vec![s("applied-20260101-100000.csv"), s("latest.csv"), s("applied-20260102-090000.csv"), s("applied-x.txt")];
    assert_eq!(latest_export(&names, "applied-"), Some(2));
    assert_eq!(latest_export(&vec![s("latest.csv")], "applied-"), None);
}

#[test]
fn export_is_written_only_when_changed() {
    assert!(export_needed(None, "a"));
    assert!(export_needed(Some("a"), "b"));
    assert!(!export_needed(Some("a"), "a"));
    assert!(export_is_blank("  \n"));
    assert!(!export_is_blank("x"));
    assert_eq!(export_file_name("20260101-120000"), "applied-20260101-120000.csv");
    assert_eq!(latest_temp_name("20260101-120000"), ".latest.tmp.20260101-120000");
    let (name, stamp) = export_file_name_now();
    assert_eq!(name, format!("applied-{}.csv", stamp));
    assert_eq!(stamp.len(), 15);
    assert!(stamp.chars().enumerate().all(|(i, c)| if i == 8 { c == '-' } else { c.is_ascii_digit() }));
    assert!(stamp.as_str() >= "19700101-000000");
}

#[test]
fn merge_export_is_in_canonical_order() {
    let recs = vec![
        record("b", Some("2026-01-01"), None),
        record("a", None, Some(4)),
        record("c", Some("2026-02-01"), None),
        record("d", None, Some(2)),
        record("0", None, Some(4)),
    ];
    let rows = canonical_rows_for_export(&recs);
    let ids: Vec<&str> = rows.iter().map(|r| r[0].as_str()).collect();
    assert_eq!(ids, vec!["c", "b", "0", "a"]);
    let csv = merge_csv(&recs);
    assert!(csv.starts_with("id,headline,employer_name,city,publication_date,applied_at\nc,H,,Lund,2026-01-01,2026-02-01\n"));
}

#[test]
fn merge_plan_inserts_updates_or_keeps() {
    let r = record("x", Some("2026-01-01"), Some(2));
    match plan_merge(&None, &r) {
        MergeAction::Insert(n) => {
            assert_eq!(n.id, "x");
            assert_eq!(n.status, 4);
            assert_eq!(n.headline, "H");
        },
        _ => panic!("expected an insert"),
    }
    let same = StoredState { applied_at: Some(s("2026-01-01")), status: Some(2) };
    assert!(matches!(plan_merge(&Some(same), &r), MergeAction::Keep));
    let old = StoredState { applied_at: None, status: Some(2) };
    let a = plan_merge(&Some(old), &r);
    assert!(matches!(&a, MergeAction::Update { applied_at: Some(t), status: 4 } if t == "2026-01-01"));
    assert_eq!(merge_counts(&vec![a, MergeAction::Keep, plan_merge(&None, &r)]), (1, 1));
}

#[test]
fn merging_twice_changes_nothing_more() {
    let r = record("x", None, Some(4));
    let first = plan_merge(&Some(StoredState { applied_at: None, status: Some(1) }), &r);
    let after = match first {
        MergeAction::Update { applied_at, status } => StoredState { applied_at, status: Some(status) },
        _ => panic!("expected an update"),
    };
    assert!(matches!(plan_merge(&Some(after), &r), MergeAction::Keep));
}

#[test]
fn merge_file_names() {
    assert_eq!(timestamped_name_at("applied", "20260101120000"), "applied_20260101120000.csv");
    let n = timestamped_name("applied");
    assert!(n.starts_with("applied_") && n.ends_with(".csv"));
    assert_eq!(n.len(), "applied_".len() + 14 + 4);
    let stamp = &n["applied_".len().."applied_".len() + 14];
    assert!(stamp.chars().all(|c| c.is_ascii_digit()));
    let month: u32 = stamp[4..6].parse().unwrap();
    let hour: u32 = stamp[8..10].parse().unwrap();
    assert!((1..=12).contains(&month) && hour <= 23);
}

#[test]
fn maintenance_defaults_and_names() {
    assert_eq!(cleared_status(true), 2);
    assert_eq!(cleared_status(false), 0);
    assert!(!default_false());
    assert_eq!(default_status(), 0);
    assert_eq!(timestamped_backup_name_at("/d/jobseeker.db", 17), "/d/jobseeker.db.fix_applied.bak.17");
    assert_eq!(backup_path_at("jobseeker.db", 5), "jobseeker.db.sqlite.bak.5");
    assert_eq!(fix_fields_backup_name("a.db", 9), "a.db.fix_fields.bak.9");
    assert_eq!(migration_backup_name_at("a.db", 0), "a.db.bak.0");
    let b = backup_path("x.db");
    assert!(b.starts_with("x.db.sqlite.bak.") && b.len() > "x.db.sqlite.bak.".len());
    let t = timestamped_backup_name("x.db");
    assert!(t.starts_with("x.db.fix_applied.bak."));
}

#[test]
fn export_dir_sits_beside_the_database() {
    assert_eq!(default_export_dir("/home/u/data/jobseeker.db"), "/home/u/data/exports");
    assert_eq!(default_export_dir("jobseeker.db"), "exports");
    assert_eq!(default_export_dir("/"), "./exports");
    assert_eq!(pick_db_path(Some(s("cli.db")), Some(s("user.db"))), "cli.db");
    assert_eq!(pick_db_path(None, Some(s("user.db"))), "user.db");
    assert_eq!(pick_db_path(None, None), "jobseeker.db");
}

#[test]
fn database_placement_at_startup() {
    assert_eq!(db_placement(true, true, true, false), DbPlacement::UseDestination);
    assert_eq!(db_placement(false, false, true, false), DbPlacement::UseDestination);
    assert_eq!(db_placement(false, true, true, false), DbPlacement::MoveLocal);
    assert_eq!(db_placement(false, true, false, true), DbPlacement::MigrateLocal);
    assert_eq!(db_placement(false, true, false, false), DbPlacement::BackupLocal);
}

#[test]
fn missing_fields_get_defaults() {
    let present = vec![s("id"), s("status"), s("rating")];
    let missing = missing_fields(&present);
    let names: Vec<&str> = missing.iter().map(|(n, _)| *n).collect();
    assert!(names.contains(&"is_read"));
    assert!(!names.contains(&"status"));
    assert!(!names.contains(&"rating"));
    assert!(missing.iter().any(|(n, d)| *n == "is_read" && *d == FieldDefault::False));
}

#[test]
fn dump_lines_and_new_jobs() {
    let f = DumpFields { headline: Some(s("Two\nlines")), status: Some(-3), bookmarked_at: None, applied_at: Some(s("2026")), internal_created_at: None };
    assert_eq!(
        pretty_line("9", &f),
        "ID=9 | status=-3 | headline=\"Two lines\" | bookmarked_at= | applied_at=2026 | internal_created_at="
    );
    let empty = DumpFields { headline: None, status: None, bookmarked_at: None, applied_at: None, internal_created_at: None };
    assert_eq!(
        pretty_line("", &empty),
        "ID= | status=<no status> | headline=\"<no headline>\" | bookmarked_at= | applied_at= | internal_created_at="
    );
    let (fresh, dup) = partition_new(&vec![s("a"), s("b"), s("c")], &vec![s("b")]);
    assert_eq!(fresh, vec![0, 2]);
    assert_eq!(dup, vec![1]);
}

#[test]
fn only_missing_field_errors_are_mended() {
    assert!(is_missing_field_error("missing field `is_read` at line 1 column 40"));
    assert!(!is_missing_field_error("invalid type: string \"x\", expected u8 at line 1 column 9"));
}
