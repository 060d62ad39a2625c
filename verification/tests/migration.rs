use jobseeker::migration::{
    check_migration, december_ids, internal_month_is_dec, same_ids, sql_december, stored_ad_from_row,
    stored_ad_from_row_at, stored_application_from_row, stored_application_from_row_at, DbFormat, MigrationError,
    MigrationResult, SqliteAdRow, SqliteApplicationRow, StoredJobAd,
};

fn row(id: &str) -> SqliteAdRow {
    SqliteAdRow {
        id: id.to_string(),
        headline: "H".to_string(),
        description: Some("D".to_string()),
        employer_name: None,
        employer_workplace: None,
        application_url: None,
        webpage_url: Some("http://w".to_string()),
        publication_date: None,
        last_application_date: None,
        occupation_label: None,
        city: Some("Lund".to_string()),
        municipality: None,
        working_hours_label: None,
        qualifications: None,
        additional_information: None,
        is_read: None,
        rating: None,
        bookmarked_at: None,
        internal_created_at: None,
        search_keyword: None,
        status: None,
        applied_at: None,
    }
}

fn stored(id: &str, created: &str) -> StoredJobAd {
    let mut r = row(id);
    r.internal_created_at = Some(created.to_string());
    stored_ad_from_row_at(r, "2000-01-01T00:00:00+00:00")
}

#[test]
fn database_files_are_recognised_by_their_header() {
    assert_eq!(DbFormat::from_header(b"SQLite format 3\0"), DbFormat::Sqlite);
    assert_eq!(DbFormat::from_header(b"redb\x1a\x0a\xa9\x0d"), DbFormat::Redb);
    assert_eq!(DbFormat::from_header(b"SQLite"), DbFormat::Unknown);
    assert_eq!(DbFormat::from_header(b""), DbFormat::Unknown);
    assert_eq!(DbFormat::from_header(b"PK\x03\x04"), DbFormat::Unknown);
}

#[test]
fn rows_become_stored_ads() {
    let mut r = row("1");
    r.internal_created_at = Some("2025-12-01T10:00:00+00:00".to_string());
    r.is_read = Some(2);
    r.rating = Some(7);
    r.status = Some(4);
    let s = stored_ad_from_row_at(r, "NOW");
    assert_eq!(s.id, "1");
    assert_eq!(s.headline, "H");
    assert_eq!(s.description.as_deref(), Some("D"));
    assert_eq!(s.city.as_deref(), Some("Lund"));
    assert_eq!(s.publication_date, "2025-12-01T10:00:00+00:00");
    assert_eq!(s.internal_created_at, "2025-12-01T10:00:00+00:00");
    assert!(s.is_read);
    assert_eq!(s.rating, Some(7));
    assert_eq!(s.status, 4);

    let mut r = row("2");
    r.publication_date = Some("2025-01-01".to_string());
    r.rating = Some(300);
    r.status = Some(4294967297);
    r.is_read = Some(0);
    let s = stored_ad_from_row_at(r, "NOW");
    assert_eq!(s.publication_date, "2025-01-01");
    assert_eq!(s.internal_created_at, "NOW");
    assert_eq!(s.rating, None);
    assert_eq!(s.status, 1);
    assert!(!s.is_read);

    let s = stored_ad_from_row_at(row("3"), "NOW");
    assert_eq!(s.publication_date, "NOW");
    assert_eq!(s.status, 0);
    assert_eq!(s.rating, None);
    let mut neg = row("4");
    neg.rating = Some(-1);
    assert_eq!(stored_ad_from_row_at(neg, "NOW").rating, None);

    let live = stored_ad_from_row(row("5"));
    assert_eq!(live.publication_date, live.internal_created_at);
    assert!(!live.internal_created_at.is_empty());
}

#[test]
fn rows_become_stored_applications() {
    let a = stored_application_from_row_at(SqliteApplicationRow { job_id: "j".to_string(), content: None, updated_at: None }, "NOW");
    assert_eq!((a.job_id.as_str(), a.content.as_str(), a.updated_at.as_str()), ("j", "", "NOW"));
    let b = stored_application_from_row(SqliteApplicationRow {
        job_id: "k".to_string(),
        content: Some("Brev".to_string()),
        updated_at: Some("T".to_string()),
    });
    assert_eq!((b.job_id.as_str(), b.content.as_str(), b.updated_at.as_str()), ("k", "Brev", "T"));
}

#[test]
fn december_ids_are_collected_once() {
    let ads = vec![
        stored("a", "2025-12-03T10:00:00+00:00"),
        stored("b", "2025-11-03T10:00:00Z"),
        stored("c", "not a time"),
        stored("a", "2024-12-31T23:59:59+01:00"),
        stored("d", "2023-12-01T00:00:00Z"),
    ];
    let ids = december_ids(&ads);
    assert_eq!(ids, vec!["a".to_string(), "d".to_string()]);
    assert!(same_ids(&ids, &vec!["d".to_string(), "a".to_string(), "a".to_string()]));
    assert!(!same_ids(&ids, &vec!["a".to_string()]));
    assert!(december_ids(&Vec::new()).is_empty());
    let r = MigrationResult { ads: ads.len(), apps: 0, december_ids: ids };
    assert_eq!(r.december_ids.len(), 2);
}

#[test]
fn migration_checks_come_in_order() {
    assert_eq!(check_migration(false, true, false, false), Err(MigrationError::SourceMissing));
    assert_eq!(check_migration(true, true, true, true), Err(MigrationError::DestinationExists));
    assert_eq!(check_migration(true, false, true, false), Err(MigrationError::MissingTables));
    assert_eq!(check_migration(true, false, false, true), Err(MigrationError::MissingTables));
    assert_eq!(check_migration(true, false, true, true), Ok(()));
}

#[test]
fn dump_tool_december_check() {
    assert!(internal_month_is_dec(Some("2025-12-01T10:00:00Z")));
    assert!(internal_month_is_dec(Some("2025-12")));
    assert!(!internal_month_is_dec(Some("2025-11-01T10:00:00Z")));
    assert!(!internal_month_is_dec(Some("2025-1x-01")));
    assert!(!internal_month_is_dec(Some("short")));
    assert!(!internal_month_is_dec(None));
}

#[test]
fn sql_december_check() {
    assert!(sql_december(Some("2025-12-01")));
    assert!(!sql_december(Some("2025-11-01")));
    assert!(!sql_december(Some("2025-1")));
    assert!(!sql_december(None));
}
