use jobseeker::models::{AdStatus, Employer, JobAd, Timestamp, WorkplaceAddress};
use jobseeker::reports::{
    activity_report, export_month, mail_body, mailto_link, month_after_offset, month_stats, report_delivery,
    report_file_name, stats_month, swedish_month_name, ReportDelivery,
};

fn ts(secs: i64) -> Timestamp {
    Timestamp { secs, nanos: 0 }
}

fn ad(id: &str, date: &str, status: Option<AdStatus>) -> JobAd {
    JobAd {
        id: id.to_string(),
        headline: format!("Job {}", id),
        description: None,
        employer: None,
        application_details: None,
        webpage_url: None,
        publication_date: date.to_string(),
        last_application_date: None,
        occupation: None,
        workplace_address: None,
        working_hours_type: None,
        must_have: None,
        nice_to_have: None,
        driving_license_required: false,
        is_read: false,
        rating: None,
        bookmarked_at: None,
        internal_created_at: ts(0),
        updated_at: ts(0),
        search_keyword: None,
        status,
        applied_at: None,
        profile_id: String::new(),
    }
}

fn with_keyword(mut a: JobAd, kw: &str) -> JobAd {
    a.search_keyword = Some(kw.to_string());
    a
}

#[test]
fn month_names_are_swedish() {
    assert_eq!(swedish_month_name(1), "Januari");
    assert_eq!(swedish_month_name(5), "Maj");
    assert_eq!(swedish_month_name(12), "December");
    assert_eq!(swedish_month_name(0), "");
    assert_eq!(swedish_month_name(13), "");
}

#[test]
fn active_month_is_read_with_defaults() {
    assert_eq!(stats_month("2026-03"), Some((2026, 3)));
    assert_eq!(stats_month("2026-xx"), Some((2026, 1)));
    assert_eq!(stats_month("yy-04"), Some((2026, 4)));
    assert_eq!(stats_month("2026"), None);
    assert_eq!(stats_month("2025-1-2"), None);
    assert_eq!(export_month("2025-11"), (2025, 11));
    assert_eq!(export_month("2025-11-30"), (2025, 11));
}

#[test]
fn month_navigation_wraps_years() {
    let back = month_after_offset("2026-01", -1);
    assert_eq!(back.key, "2025-12");
    assert_eq!(back.display, "December 2025");
    assert_eq!((back.year, back.month), (2025, 12));
    let fwd = month_after_offset("2026-12", 1);
    assert_eq!(fwd.key, "2027-01");
    assert_eq!(fwd.display, "Januari 2027");
    let same = month_after_offset("2026-05", 0);
    assert_eq!(same.key, "2026-05");
    assert_eq!(same.display, "Maj 2026");
    let far = month_after_offset("2026-03", -27);
    assert_eq!(far.key, "2023-12");
    let junk = month_after_offset("abc", 2);
    assert_eq!(junk.key, "2026-03");
    assert_eq!(junk.display, "Mars 2026");
}

#[test]
fn month_navigation_forward_then_back_returns() {
    for k in [-30, -13, -1, 0, 1, 11, 12, 25] {
        let there = month_after_offset("2026-03", k);
        let back = month_after_offset(&there.key, -k);
        assert_eq!(back.key, "2026-03");
    }
}

#[test]
fn month_stats_counts_and_ranks_keywords() {
    let ads = vec![
        with_keyword(ad("1", "2026-03-01", Some(AdStatus::Applied)), "a"),
        with_keyword(ad("2", "2026-03-02", Some(AdStatus::Bookmarked)), "c"),
        with_keyword(ad("3", "2026-03-03", Some(AdStatus::Applied)), "a"),
        with_keyword(ad("4", "2026-03-04", Some(AdStatus::ThumbsUp)), "b"),
        with_keyword(ad("5", "2026-03-05", Some(AdStatus::Rejected)), "c"),
        with_keyword(ad("6", "2026-03-06", None), "a"),
        ad("7", "2026-03-07", Some(AdStatus::New)),
    ];
    let s = month_stats(&ads);
    assert_eq!(s.total, 7);
    assert_eq!(s.applied, 2);
    assert_eq!(s.bookmarked, 1);
    assert_eq!(s.thumbsup, 1);
    assert_eq!(s.rejected, 1);
    let top: Vec<(String, i32)> = s.top_keywords.into_iter().map(|k| (k.name, k.count)).collect();
    assert_eq!(top, vec![("a".to_string(), 3), ("c".to_string(), 2), ("b".to_string(), 1)]);
}

#[test]
fn month_stats_keeps_ten_keywords() {
    let mut ads = Vec::new();
    for i in 0..12 {
        for _ in 0..(i + 1) {
            ads.push(with_keyword(ad("x", "2026-01-01", None), &format!("k{}", i)));
        }
    }
    let s = month_stats(&ads);
    assert_eq!(s.top_keywords.len(), 10);
    assert_eq!(s.top_keywords[0].name, "k11");
    assert_eq!(s.top_keywords[0].count, 12);
    assert_eq!(s.top_keywords[9].name, "k2");
    let empty = month_stats(&Vec::new());
    assert_eq!(empty.total, 0);
    assert!(empty.top_keywords.is_empty());
}

#[test]
fn activity_report_with_parameters_only() {
    let r = activity_report("Mars 2026", "it", "1283", "1280, 1281", true, false, false, &None, &None);
    assert_eq!(
        r,
        "AKTIVITETSRAPPORT - MARS 2026\n==========================================\n\nSÖKPARAMETRAR:\n• Sökord: it\n• Prio 1: Helsingborg\n• Prio 2: Malmö, Lund\n\n\nGenererad via Jobseeker 2026\n"
    );
}

#[test]
fn activity_report_with_jobs_and_analysis() {
    let mut applied = ad("1", "2026-01-01", Some(AdStatus::Applied));
    applied.headline = "Dev".to_string();
    applied.employer = Some(Employer { name: Some("Acme".to_string()), workplace: None });
    applied.workplace_address = Some(WorkplaceAddress { city: Some("Helsingborg".to_string()), municipality: None });
    applied.webpage_url = Some("http://x".to_string());
    applied.applied_at = Some(ts(1767225600));
    let mut undated = ad("2", "2026-01-02", Some(AdStatus::Applied));
    undated.headline = "Ops".to_string();
    let reviewed = vec![applied.clone(), ad("3", "2026-01-03", Some(AdStatus::Rejected))];
    let r = activity_report("Januari 2026", "", "", "", false, true, true, &Some(vec![applied, undated]), &Some(reviewed));
    assert_eq!(
        r,
        "AKTIVITETSRAPPORT - JANUARI 2026\n==========================================\n\n\
SÖKTA JOBB (2 st):\n• 2026-01-01: Acme, Dev (Helsingborg)\n  Länk: http://x\n• Okänt datum: , Ops ()\n\n\
AKTIVITETSANALYS:\n• Totalt granskade: 2\n• Konvertering: 1 sökta, 1 avvisade\n\
\nGenererad via Jobseeker 2026\n"
    );
    let skipped = activity_report("Januari 2026", "", "", "", false, true, true, &None, &None);
    assert_eq!(skipped, "AKTIVITETSRAPPORT - JANUARI 2026\n==========================================\n\n\nGenererad via Jobseeker 2026\n");
}

#[test]
fn long_reports_are_not_put_in_the_mail() {
    assert_eq!(mail_body("kort"), "kort");
    let long = "a".repeat(1501);
    assert_eq!(
        mail_body(&long),
        "Rapporten är kopierad till ditt urklipp - klistra in den här!\n\n(Texten var för lång för direktlänk: 1501 tecken)"
    );
    let exact = "ä".repeat(750);
    assert_eq!(mail_body(&exact), exact);
    let over = "ä".repeat(751);
    assert!(mail_body(&over).ends_with("1502 tecken)"));
}

#[test]
fn mailto_link_encodes_subject_and_body() {
    assert_eq!(
        mailto_link("Mars 2026", "hej då"),
        "mailto:?subject=Aktivitetsrapport%20-%20Mars%202026&body=hej%20d%C3%A5"
    );
}

#[test]
fn report_delivery_and_file_name() {
    assert_eq!(report_delivery("clipboard"), Some(ReportDelivery::Clipboard));
    assert_eq!(report_delivery("email"), Some(ReportDelivery::Email));
    assert_eq!(report_delivery("file"), Some(ReportDelivery::File));
    assert_eq!(report_delivery("fax"), None);
    assert_eq!(report_file_name("2026-03"), "jobb-rapport-2026-03.txt");
}
