use jobseeker::document::{officer_report_paragraphs, officer_report_paragraphs_at, DocRun, ParaAlign, ReportDraft};
use jobseeker::logs::{LogBuffer, SystemLog, MAX_LOG_ENTRIES};
use jobseeker::models::{Description, Employer, JobAd, Timestamp};
use jobseeker::platform::{check_response_code, http_get, request_all_files_access};
use jobseeker::ranking::{parse_rating, rating_model, rating_prompt, rating_request, rating_system_message, RATING_MAX_TOKENS};
use jobseeker::search::{add_unseen, search_requests, search_url};
use jobseeker::session::{
    after_failed_copy, crash_notice, default_profile, doc_file_name, first_sync_action, new_profile, profile_startup,
    sync_folder, ProfileStartup, SyncAction,
};

fn ts(secs: i64) -> Timestamp {
    Timestamp { secs, nanos: 0 }
}

fn ad(id: &str) -> JobAd {
    JobAd {
        id: id.to_string(),
        headline: format!("Job {}", id),
        description: None,
        employer: None,
        application_details: None,
        webpage_url: None,
        publication_date: "2026-01-01T08:00:00".to_string(),
        last_application_date: None,
        occupation: None,
        workplace_address: None,
        working_hours_type: None,
        must_have: None,
        nice_to_have: None,
        driving_license_required: false,
        is_read: false,
        rating: None,
        bookmarked_at: None,
        internal_created_at: ts(0),
        updated_at: ts(0),
        search_keyword: None,
        status: None,
        applied_at: None,
        profile_id: String::new(),
    }
}

fn texts(p: &jobseeker::document::DocParagraph) -> Vec<String> {
    p.runs
        .iter()
        .map(|r| match r {
            DocRun::Text(t) => t.clone(),
            DocRun::Break => "<br>".to_string(),
        })
        .collect()
}

#[test]
fn officer_report_layout() {
    let mut first = ad("1");
    first.employer = Some(Employer { name: Some("Acme".to_string()), workplace: None });
    let selected = vec![
        Some(ReportDraft { ad: first, draft: Some("Hej\n\nVänligen".to_string()) }),
        None,
        Some(ReportDraft { ad: ad("3"), draft: None }),
    ];
    let paras = officer_report_paragraphs_at("2026-01-01 10:00", &selected);
    let all: Vec<Vec<String>> = paras.iter().map(texts).collect();
    let rule = "─".repeat(60);
    let e: Vec<String> = Vec::new();
    let t = |x: &str| vec![x.to_string()];
    assert_eq!(
        all,
        vec![
            t("Handläggarrapport"),
            t("Genererad: 2026-01-01 10:00"),
            e.clone(),
            t("Ansökan 1"),
            t("Företag: Acme"),
            t("Publicerad: 2026-01-01"),
            e.clone(),
            t("Ansökningstext:"),
            t("Hej"),
            e.clone(),
            t("Vänligen"),
            e.clone(),
            vec![rule.clone()],
            e.clone(),
            t("Ansökan 3"),
            t("Företag: Okänd arbetsgivare"),
            t("Publicerad: 2026-01-01"),
            e.clone(),
            vec![rule.clone()],
            t("Detta dokument är en sammanställning av ansökningar till Arbetsförmedlingen."),
        ]
    );
    assert_eq!(paras[0].align, Some(ParaAlign::Center));
    assert_eq!(paras[0].size, Some(28));
    assert!(paras[0].bold);
    assert_eq!(paras[3].size, Some(18));
    assert!(paras[7].bold);
    let live = officer_report_paragraphs(&Vec::new());
    assert_eq!(live.len(), 6);
    assert!(texts(&live[1])[0].starts_with("Genererad: 20"));
    let date = texts(&live[1])[0]["Genererad: ".len()..].to_string();
    assert_eq!(date.len(), 16);
    assert!(date.chars().enumerate().all(|(i, c)| match i {
        4 | 7 => c == '-',
        10 => c == ' ',
        13 => c == ':',
        _ => c.is_ascii_digit(),
    }));
}

#[test]
fn log_keeps_the_last_entries() {
    let mut log = LogBuffer::new();
    for i in 0..(MAX_LOG_ENTRIES + 3) {
        log.record_at("INFO", &format!("  m{}  ", i), "10:00:00");
    }
    log.record_at("ERROR", "boom", "10:00:01");
    assert_eq!(log.len(), MAX_LOG_ENTRIES);
    let errors = log.filtered("ERROR");
    assert_eq!(errors.len(), 1);
    assert_eq!(errors[0].message, "boom");
    let all = log.filtered("ALL");
    assert_eq!(all.len(), MAX_LOG_ENTRIES);
    assert_eq!(all[0].message, "m4");
    let mut small = LogBuffer::new();
    small.record_at("INFO", " a ", "t1");
    small.record("WARN", "b");
    assert_eq!(small.len(), 2);
    assert!(small.file_text().starts_with("[t1] INFO: a\n["));
    assert!(small.file_text().ends_with("] WARN: b"));
    let warn = small.filtered("WARN");
    let stamp = warn[0].timestamp.as_str();
    assert_eq!(stamp.len(), 8);
    assert!(stamp.chars().enumerate().all(|(i, c)| if i == 2 || i == 5 { c == ':' } else { c.is_ascii_digit() }));
}

#[test]
fn system_log_keeps_a_hundred_lines() {
    let mut log = SystemLog::new();
    assert_eq!(log.push(" first "), "first");
    assert_eq!(log.push("second"), "first\nsecond");
    let mut last = String::new();
    for i in 0..150 {
        last = log.push(&format!("l{}", i));
    }
    assert_eq!(last.lines().count(), 100);
    assert!(last.starts_with("l50\n"));
    assert!(last.ends_with("l149"));
}

#[test]
fn platform_services_are_refused_outside_android() {
    assert_eq!(http_get("http://x").unwrap_err().message, "Android JNI HTTP only available on Android");
    assert_eq!(request_all_files_access().unwrap_err().message, "SAF är bara tillgängligt på Android");
    assert!(check_response_code(200).is_ok());
    assert_eq!(check_response_code(404).unwrap_err().message, "HTTP error 404");
    assert_eq!(check_response_code(-1).unwrap_err().message, "HTTP error -1");
}

#[test]
fn search_requests_per_municipality() {
    let single = search_requests("it", 100, &vec!["1283".to_string()]);
    let view = |r: &Vec<(String, String)>| r.iter().map(|(a, b)| format!("{}={}", a, b)).collect::<Vec<_>>().join("&");
    assert_eq!(single.len(), 1);
    assert_eq!(view(&single[0]), "q=it&limit=100&municipality=1283");
    let none = search_requests("it", 5, &Vec::new());
    assert_eq!(view(&none[0]), "q=it&limit=5");
    let empty_code = search_requests("it", 5, &vec![String::new()]);
    assert_eq!(view(&empty_code[0]), "q=it&limit=5");
    let multi = search_requests("it", 5, &vec!["1280".to_string(), String::new(), "1281".to_string()]);
    let views: Vec<String> = multi.iter().map(view).collect();
    assert_eq!(views, vec!["q=it&limit=5&municipality=1280", "q=it&limit=5&municipality=1281"]);
    assert_eq!(search_url("https://jobsearch.api.jobtechdev.se"), "https://jobsearch.api.jobtechdev.se/search");
}

#[test]
fn gathered_ads_are_not_repeated() {
    let all = add_unseen(vec![ad("a")], vec![ad("b"), ad("a"), ad("c"), ad("b")]);
    let ids: Vec<&str> = all.iter().map(|a| a.id.as_str()).collect();
    assert_eq!(ids, vec!["a", "b", "c"]);
}

#[test]
fn rating_messages_and_answers() {
    assert_eq!(rating_model(), "llama3");
    assert_eq!(RATING_MAX_TOKENS, 10);
    assert!(rating_system_message().starts_with("You are a career advisor assistant."));
    let mut a = ad("1");
    a.headline = "Dev".to_string();
    a.description = Some(Description { text: Some("Rust".to_string()) });
    assert_eq!(
        rating_prompt(&a, "Jag kodar"),
        "Rate how well this job matches my profile. Output ONLY a single number from 1 to 10.\n\nMy Profile:\nJag kodar\n\nJob Headline: Dev\nJob Description: Rust"
    );
    let req = rating_request(&a, "Jag kodar");
    assert_eq!(req.model, "llama3");
    assert_eq!(req.max_tokens, 10);
    assert_eq!(req.system, rating_system_message());
    assert_eq!(req.user, rating_prompt(&a, "Jag kodar"));
    assert_eq!(parse_rating(" 7 "), 7);
    assert_eq!(parse_rating("Score: 8/10"), 0);
    assert_eq!(parse_rating("I'd say 9."), 9);
    assert_eq!(parse_rating("none"), 0);
}

#[test]
fn profiles_and_sync_decisions() {
    assert_eq!(profile_startup(0), ProfileStartup::CreateDefault);
    assert_eq!(profile_startup(1), ProfileStartup::UseOnly);
    assert_eq!(profile_startup(3), ProfileStartup::Pick);
    let d = default_profile(ts(5));
    assert_eq!((d.id.as_str(), d.name.as_str(), d.icon.as_str()), ("default", "Default", "👤"));
    let p = new_profile("Jobb", ts(1700000000));
    assert_eq!(p.id, "profile_1700000000");
    assert_eq!(p.name, "Jobb");
    assert_eq!(crash_notice("x"), "PREVIOUS CRASH DETECTED:\n\nx\n\n---\n\n");
    assert_eq!(sync_folder("  /sync  "), Some("/sync".to_string()));
    assert_eq!(sync_folder("   "), None);
    assert_eq!(first_sync_action(false, false), SyncAction::CopyDatabase);
    assert_eq!(first_sync_action(true, true), SyncAction::MergeViaJson);
    assert_eq!(first_sync_action(false, true), SyncAction::MergeViaJson);
    assert_eq!(first_sync_action(true, false), SyncAction::ExportJson);
    assert_eq!(after_failed_copy(false), SyncAction::ExportJson);
    assert_eq!(after_failed_copy(true), SyncAction::MergeViaJson);
    assert_eq!(doc_file_name("CV/2026", "pdf"), "CV_2026.pdf");
    assert_eq!(doc_file_name("Brev", "docx"), "Brev.md");
}
