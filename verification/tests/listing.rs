use jobseeker::listing::{
    after_status_change, clean_description, date_part, found_ad, job_entry, job_list, saved_jobs_message,
    search_done_message, search_inputs, search_month, search_month_now, searching_message, with_summary, JobEntry,
};
use jobseeker::models::{AdStatus, AppSettings, ApplicationDetails, Description, Employer, JobAd, Timestamp, WorkplaceAddress};

fn ts(secs: i64) -> Timestamp {
    Timestamp { secs, nanos: 0 }
}

fn ad(id: &str, date: &str, status: Option<AdStatus>) -> JobAd {
    JobAd {
        id: id.to_string(),
        headline: format!("Job {}", id),
        description: None,
        employer: None,
        application_details: None,
        webpage_url: None,
        publication_date: date.to_string(),
        last_application_date: None,
        occupation: None,
        workplace_address: None,
        working_hours_type: None,
        must_have: None,
        nice_to_have: None,
        driving_license_required: false,
        is_read: false,
        rating: None,
        bookmarked_at: None,
        internal_created_at: ts(0),
        updated_at: ts(0),
        search_keyword: None,
        status,
        applied_at: None,
        profile_id: String::new(),
    }
}

fn in_municipality(mut a: JobAd, m: &str) -> JobAd {
    a.workplace_address = Some(WorkplaceAddress { city: Some(m.to_string()), municipality: Some(m.to_string()) });
    a
}

fn entry(id: &str, status: i32) -> JobEntry {
    JobEntry {
        id: id.to_string(),
        title: String::new(),
        employer: String::new(),
        location: String::new(),
        description: String::new(),
        date: String::new(),
        apply_url: String::new(),
        rating: 0,
        status,
        status_text: String::new(),
        ai_summary: String::new(),
    }
}

fn settings() -> AppSettings {
    let mut s = AppSettings::default_at(ts(0));
    s.keywords = "it, support".to_string();
    s.locations_p1 = "1283".to_string();
    s.locations_p2 = "1280".to_string();
    s.locations_p3 = "1281".to_string();
    s
}

#[test]
fn descriptions_lose_their_markup() {
    assert_eq!(
        clean_description("<p>Hej</p><ul><li>A</li></ul><span>x</span>", false),
        "\n\nHej\n\n • A\nx"
    );
    assert_eq!(clean_description("Bra<br />lön", true), "Bra\nlön\n\nKÖRKORT:\n • Krav på körkort\n");
    assert_eq!(clean_description("a < b", false), "a < b");
    assert_eq!(clean_description("<<a>b", false), "b");
    assert_eq!(clean_description("<b>fet</b> och <strong>stark</strong>", false), "fet och stark");
}

#[test]
fn dates_are_cut_at_the_time() {
    assert_eq!(date_part("2026-01-15T10:00:00Z"), "2026-01-15");
    assert_eq!(date_part("2026-01-15"), "2026-01-15");
    assert_eq!(date_part(""), "");
}

#[test]
fn job_rows_show_the_ad() {
    let mut a = ad("42", "2026-02-03T08:00:00", Some(AdStatus::ThumbsUp));
    a.employer = Some(Employer { name: Some("Acme".to_string()), workplace: None });
    a.workplace_address = Some(WorkplaceAddress { city: Some("Lund".to_string()), municipality: Some("Lund".to_string()) });
    a.description = Some(Description { text: Some("<p>Text</p>".to_string()) });
    a.application_details = Some(ApplicationDetails { url: Some("http://apply".to_string()) });
    a.rating = Some(7);
    let e = job_entry(&a);
    assert_eq!(e.id, "42");
    assert_eq!(e.title, "Job 42");
    assert_eq!(e.employer, "Acme");
    assert_eq!(e.location, "Lund");
    assert_eq!(e.description, "\n\nText");
    assert_eq!(e.date, "2026-02-03");
    assert_eq!(e.apply_url, "http://apply");
    assert_eq!(e.rating, 7);
    assert_eq!(e.status, 3);
    assert_eq!(e.ai_summary, "");
}

#[test]
fn job_list_is_newest_first_and_stable() {
    let ads = vec![
        ad("a", "2026-01-02T10:00:00", None),
        ad("b", "2026-01-05T09:00:00", Some(AdStatus::Applied)),
        ad("c", "2026-01-02T23:00:00", Some(AdStatus::Applied)),
        ad("d", "2026-01-03", None),
    ];
    let (rows, applied) = job_list(ads, None, &Vec::new());
    let ids: Vec<String> = rows.iter().map(|r| r.id.clone()).collect();
    assert_eq!(ids, vec!["b", "d", "a", "c"]);
    assert_eq!(applied, 2);
}

#[test]
fn priority_lists_keep_their_municipalities() {
    let ads = vec![
        in_municipality(ad("h", "2026-01-01", None), "HELSINGBORG"),
        in_municipality(ad("m", "2026-01-02", Some(AdStatus::Applied)), "Malmö"),
        ad("n", "2026-01-03", None),
    ];
    let codes = vec!["1283".to_string(), "9999".to_string()];
    let (rows, applied) = job_list(ads.clone(), Some(1), &codes);
    let ids: Vec<String> = rows.iter().map(|r| r.id.clone()).collect();
    assert_eq!(ids, vec!["h"]);
    assert_eq!(applied, 1);
    let (all, _) = job_list(ads.clone(), None, &codes);
    assert_eq!(all.len(), 3);
    let (unknown, _) = job_list(ads, Some(1), &vec!["9999".to_string()]);
    assert_eq!(unknown.len(), 3);
}

#[test]
fn search_inputs_follow_the_priority() {
    let s = settings();
    let (q, l) = search_inputs(Some("rust".to_string()), Some(2), &s);
    assert_eq!((q.as_str(), l.as_str()), ("rust", ""));
    let (q, l) = search_inputs(None, Some(2), &s);
    assert_eq!((q.as_str(), l.as_str()), ("it, support", "1280"));
    let (_, l) = search_inputs(None, Some(3), &s);
    assert_eq!(l, "1281");
    let (_, l) = search_inputs(None, Some(7), &s);
    assert_eq!(l, "1283");
    let (q, l) = search_inputs(None, None, &s);
    assert_eq!((q.as_str(), l.as_str()), ("", ""));
}

#[test]
fn search_month_falls_back_to_now() {
    assert_eq!(search_month(Some("2026-04"), 2020, 1), (2026, 4));
    assert_eq!(search_month(Some("x-y"), 2020, 7), (2020, 7));
    assert_eq!(search_month(Some("2026"), 2020, 7), (2020, 7));
    assert_eq!(search_month(None, 2020, 7), (2020, 7));
    let (_, m) = search_month_now(None);
    assert!((1..=12).contains(&m));
    assert_eq!(search_month_now(Some("2024-09")), (2024, 9));
}

#[test]
fn search_messages() {
    assert_eq!(searching_message(Some(2)), "Söker efter nytt... (Visar sparade jobb för P2");
    assert_eq!(searching_message(None), "Söker efter nytt... (Visar sparade jobb för P0");
    assert_eq!(saved_jobs_message("Lund"), "Visar sparade jobb för Lund. Söker efter nytt...");
    assert_eq!(search_done_message(3), "Klar! Hittade 3 nya annonser.");
    assert_eq!(search_done_message(0), "Inga nya annonser hittades just nu.");
}

#[test]
fn found_ads_are_marked_or_rejected() {
    let mut a = ad("1", "2026-01-01", None);
    a.headline = "Barnvakt sökes".to_string();
    let words = vec!["barnvakt".to_string()];
    assert!(found_ad(a.clone(), "it", "p1", &words).is_none());
    let kept = found_ad(ad("2", "2026-01-01", None), "it", "p1", &words).unwrap();
    assert_eq!(kept.search_keyword.as_deref(), Some("it"));
    assert_eq!(kept.profile_id, "p1");
    assert_eq!(kept.id, "2");
}

#[test]
fn rows_change_in_place() {
    let rows = vec![entry("a", 0), entry("b", 0), entry("b", 2)];
    let s = with_summary(rows.clone(), "b", "kärna".to_string());
    assert_eq!(s[1].ai_summary, "kärna");
    assert_eq!(s[2].ai_summary, "");
    assert_eq!(s[0].ai_summary, "");
    let same = with_summary(rows.clone(), "z", "x".to_string());
    assert!(same.iter().all(|r| r.ai_summary.is_empty()));

    let rejected = after_status_change(rows.clone(), "b", 1);
    let ids: Vec<&str> = rejected.iter().map(|r| r.id.as_str()).collect();
    assert_eq!(ids, vec!["a", "b"]);
    assert_eq!(rejected[1].status, 2);
    let applied = after_status_change(rows.clone(), "a", 4);
    assert_eq!(applied[0].status, 4);
    assert_eq!(applied.len(), 3);
    let none = after_status_change(rows, "z", 1);
    assert_eq!(none.len(), 3);
}
