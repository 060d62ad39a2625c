use jobseeker::document::{build_docx, DocParagraph, DocRun, ParaAlign, ParaStyle};
use jobseeker::extractor::{document_kind, get_monthly_stats, strip_xml_tags, DocumentKind};
use jobseeker::jobs::{
    action_target, active_profile_id, blacklist_words, dict_entries_for, documents_for, filter_jobs, is_blacklisted,
    legacy_settings_key, mark_main_cv, query_terms, remote_settings_win, remote_wins, settings_key, sort_profiles,
    status_number, toggled, with_rating, with_status,
};
use jobseeker::locations::{get_municipality_code, get_municipality_name, normalize_locations, parse_locations};
use jobseeker::models::{default_true, AdStatus, AppSettings, DictEntry, JobAd, Profile, Timestamp, UserDocument};
use jobseeker::summarizer::LocalAi;

fn ts(secs: i64) -> Timestamp {
    Timestamp { secs, nanos: 0 }
}

fn ad(id: &str, date: &str, status: Option<AdStatus>) -> JobAd {
    JobAd {
        id: id.to_string(),
        headline: format!("Job {}", id),
        description: None,
        employer: None,
        application_details: None,
        webpage_url: None,
        publication_date: date.to_string(),
        last_application_date: None,
        occupation: None,
        workplace_address: None,
        working_hours_type: None,
        must_have: None,
        nice_to_have: None,
        driving_license_required: false,
        is_read: false,
        rating: None,
        bookmarked_at: None,
        internal_created_at: ts(0),
        updated_at: ts(0),
        search_keyword: None,
        status,
        applied_at: None,
        profile_id: String::new(),
    }
}

fn doc(id: &str, profile: &str, main: bool) -> UserDocument {
    UserDocument {
        id: id.to_string(),
        name: id.to_string(),
        doc_type: "cv".to_string(),
        content: String::new(),
        is_main: main,
        created_at: ts(0),
        updated_at: ts(0),
        profile_id: profile.to_string(),
    }
}

#[test]
fn municipalities_by_name_and_code() {
    assert_eq!(get_municipality_code("Malmö"), Some("1280"));
    assert_eq!(get_municipality_code("HELSINGBORG"), Some("1283"));
    assert_eq!(get_municipality_code("Atlantis"), None);
    assert_eq!(get_municipality_name("1283"), Some("Helsingborg".to_string()));
    assert_eq!(get_municipality_name("1273"), Some("Östra göinge".to_string()));
    assert_eq!(get_municipality_name("9999"), None);
    assert_eq!(get_municipality_code("MALMÖ"), Some("1280"));
    assert_eq!(get_municipality_code("ÖSTRA GÖINGE"), Some("1273"));
    let codes = [
        "1283", "1292", "1284", "1260", "1276", "1277", "1257", "1278", "1275", "1282", "1214", "1231", "1261", "1280",
        "1281", "1285", "1233", "1287", "1286", "1290", "1293", "1262", "1230", "1263", "1264", "1265", "1267", "1266",
        "1270", "1291", "1272", "1273", "1271", "0180", "0126", "0182", "1480", "1481", "0380", "1980",
    ];
    for code in codes {
        let name = get_municipality_name(code).unwrap();
        assert_eq!(get_municipality_code(&name), Some(code));
    }
}

#[test]
fn location_lists_become_codes() {
    assert_eq!(parse_locations("Helsingborg, 1277, lund, okänd, "), vec!["1283", "1277", "1281"]);
    assert!(parse_locations("").is_empty());
    assert_eq!(normalize_locations("helsingborg, 1280,  , ÖSTRA göinge"), "Helsingborg, Malmö, Östra göinge");
    assert_eq!(normalize_locations("9999"), "9999");
}

#[test]
fn settings_keys_per_profile() {
    assert_eq!(settings_key(""), "current:");
    assert_eq!(settings_key("p1"), "current:p1");
    assert_ne!(settings_key("a"), settings_key("b"));
    assert_ne!(settings_key(""), legacy_settings_key());
    assert_eq!(active_profile_id(Some(String::new())), None);
    assert_eq!(active_profile_id(Some("p".to_string())), Some("p".to_string()));
    assert_eq!(active_profile_id(None), None);
}

#[test]
fn views_filter_and_sort_newest_first() {
    let mut other = ad("x", "2026-03-09", None);
    other.profile_id = "p2".to_string();
    let mut mine = vec![
        ad("a", "2026-03-01", Some(AdStatus::Applied)),
        ad("b", "2026-03-05", None),
        ad("c", "2026-02-28", Some(AdStatus::Applied)),
        ad("d", "2026-03-05", Some(AdStatus::Applied)),
    ];
    for a in mine.iter_mut() {
        a.profile_id = "p1".to_string();
    }
    mine.push(other);
    let all = filter_jobs(mine.clone(), "p1", &[], Some(2026), Some(3));
    let ids: Vec<&str> = all.iter().map(|a| a.id.as_str()).collect();
    assert_eq!(ids, vec!["b", "d", "a"]);
    let applied = filter_jobs(mine.clone(), "p1", &[AdStatus::Applied], None, None);
    let ids: Vec<&str> = applied.iter().map(|a| a.id.as_str()).collect();
    assert_eq!(ids, vec!["d", "a", "c"]);
    let new_only = filter_jobs(mine.clone(), "", &[AdStatus::New], None, None);
    let ids: Vec<&str> = new_only.iter().map(|a| a.id.as_str()).collect();
    assert_eq!(ids, vec!["x", "b"]);
}

#[test]
fn status_changes_and_toggles() {
    assert_eq!(action_target("reject"), Some(AdStatus::Rejected));
    assert_eq!(action_target("save"), Some(AdStatus::Bookmarked));
    assert_eq!(action_target("thumbsup"), Some(AdStatus::ThumbsUp));
    assert_eq!(action_target("apply"), Some(AdStatus::Applied));
    assert_eq!(action_target("open"), None);
    assert_eq!(toggled(Some(AdStatus::Applied), AdStatus::Applied), None);
    assert_eq!(toggled(None, AdStatus::Applied), Some(AdStatus::Applied));
    assert_eq!(toggled(toggled(Some(AdStatus::Rejected), AdStatus::Bookmarked), AdStatus::Bookmarked), None);
    assert_eq!(status_number(Some(AdStatus::Applied)), 4);
    assert_eq!(status_number(None), 0);
    let a = with_status(ad("1", "2026-01-01", None), Some(AdStatus::Applied), ts(99));
    assert_eq!(a.status, Some(AdStatus::Applied));
    assert_eq!(a.updated_at, ts(99));
    assert_eq!(a.applied_at, Some(ts(99)));
    let r = with_rating(ad("1", "2026-01-01", None), 4, ts(7));
    assert_eq!(r.rating, Some(4));
    assert_eq!(r.updated_at, ts(7));
    let mut read = ad("2", "2026-01-02", Some(AdStatus::Applied));
    read.is_read = true;
    read.webpage_url = Some("https://example.se/2".to_string());
    read.applied_at = Some(ts(5));
    let kept = with_status(read.clone(), Some(AdStatus::Bookmarked), ts(8));
    assert!(kept.is_read);
    assert_eq!(kept.webpage_url, read.webpage_url);
    assert_eq!(kept.applied_at, Some(ts(5)));
    assert_eq!(kept.status, Some(AdStatus::Bookmarked));
    let rated = with_rating(read.clone(), 9, ts(9));
    assert!(rated.is_read);
    assert_eq!(rated.status, Some(AdStatus::Applied));
    assert_eq!(rated.webpage_url, read.webpage_url);
}

#[test]
fn documents_entries_and_profiles() {
    let docs = vec![doc("a", "p1", true), doc("b", "p1", false), doc("c", "p2", true)];
    let marked = mark_main_cv(docs.clone(), "b", ts(3));
    let mains: Vec<bool> = marked.iter().map(|d| d.is_main).collect();
    assert_eq!(mains, vec![false, true, false]);
    let mine = documents_for(docs.clone(), "p1");
    assert_eq!(mine.len(), 2);
    assert_eq!(documents_for(docs, "").len(), 3);
    let entries = vec![
        DictEntry { key: "k".to_string(), value: "v".to_string(), updated_at: ts(0), profile_id: "p2".to_string() },
        DictEntry { key: "l".to_string(), value: "w".to_string(), updated_at: ts(0), profile_id: "p1".to_string() },
    ];
    assert_eq!(dict_entries_for(entries, "p1").len(), 1);
    let profiles = vec![
        Profile { id: "b".to_string(), name: "B".to_string(), icon: String::new(), created_at: ts(5), updated_at: ts(5) },
        Profile { id: "a".to_string(), name: "A".to_string(), icon: String::new(), created_at: ts(1), updated_at: ts(1) },
    ];
    let sorted = sort_profiles(profiles);
    assert_eq!(sorted[0].id, "a");
}

#[test]
fn remote_changes_win_only_when_newer() {
    assert!(remote_wins(ts(5), None));
    assert!(remote_wins(ts(5), Some(ts(4))));
    assert!(!remote_wins(ts(5), Some(ts(5))));
    assert!(!remote_settings_win(ts(5), None));
    assert!(remote_settings_win(ts(6), Some(ts(5))));
}

#[test]
fn queries_and_blacklists() {
    assert_eq!(query_terms(" it , \"support\",, "), vec!["it", "support"]);
    let words = blacklist_words("Barnvakt, ,NANNY");
    assert_eq!(words, vec!["barnvakt", "nanny"]);
    let mut a = ad("1", "2026-01-01", None);
    a.headline = "Nanny sökes".to_string();
    assert!(is_blacklisted(&a, &words));
    assert!(!is_blacklisted(&ad("2", "2026-01-01", None), &words));
}

#[test]
fn documents_are_read_by_kind() {
    assert_eq!(document_kind("PDF"), DocumentKind::Pdf);
    assert_eq!(document_kind("docx"), DocumentKind::Docx);
    assert_eq!(document_kind("odt"), DocumentKind::Odt);
    assert_eq!(document_kind("Md"), DocumentKind::PlainText);
    assert_eq!(document_kind("rtf"), DocumentKind::Unsupported("Formatet .rtf stöds inte ännu".to_string()));
    assert_eq!(strip_xml_tags("<w:p><w:t>Hej</w:t></w:p><w:t>där</w:t>"), "Hej där");
    assert_eq!(strip_xml_tags("  a\n\tb  "), "a b");
}

#[test]
fn monthly_stats_of_applied_jobs() {
    let ads = vec![
        ad("1", "2026-01-05", Some(AdStatus::Applied)),
        ad("2", "2025-12-24", Some(AdStatus::Applied)),
        ad("3", "2026-01-09", Some(AdStatus::Applied)),
        ad("4", "2026-01-10", Some(AdStatus::Rejected)),
    ];
    let stats = get_monthly_stats(&ads);
    let got: Vec<(String, usize)> = stats.into_iter().map(|m| (m.month, m.count)).collect();
    assert_eq!(got, vec![("2025-12".to_string(), 1), ("2026-01".to_string(), 2)]);
}

#[test]
fn summaries_pick_the_core() {
    let ai = LocalAi::new().unwrap();
    assert_eq!(
        ai.extractive_summarize("Du kommer att ansvara för projekt och driva utvecklingen.").unwrap(),
        "ROLLEN:\n • Du kommer att ansvara för projekt och driva utvecklingen."
    );
    assert_eq!(ai.extractive_summarize("").unwrap(), "Kunde inte analysera innehållet.");
    assert_eq!(ai.extractive_summarize("hej hopp i lingonskogen.").unwrap(), "Ingen kärna identifierad.");
}

#[test]
fn status_codes_and_names_round_trip() {
    for s in [AdStatus::New, AdStatus::Rejected, AdStatus::Bookmarked, AdStatus::ThumbsUp, AdStatus::Applied] {
        assert_eq!(AdStatus::from_code(s.code() as u64), s);
        assert_eq!(AdStatus::from_name(s.name()), s);
    }
    assert_eq!(AdStatus::from_code(99), AdStatus::New);
    assert_eq!(AdStatus::from_name("Okänd"), AdStatus::New);
    assert!(default_true());
    let s = AppSettings::default_at(ts(1));
    assert_eq!(s.updated_at, ts(1));
    assert!(ts(2).after(ts(1)));
    assert!(!ts(1).after(ts(1)));
}

fn zip_with(name: &str, text: &str) -> Vec<u8> {
    let mut w = zip::ZipWriter::new(std::io::Cursor::new(Vec::new()));
    w.start_file(name, zip::write::SimpleFileOptions::default()).unwrap();
    std::io::Write::write_all(&mut w, text.as_bytes()).unwrap();
    w.finish().unwrap().into_inner()
}

#[test]
fn office_documents_give_their_text() {
    let docx = zip_with("word/document.xml", "<w:document><w:p><w:t>Hej</w:t></w:p><w:p><w:t>där</w:t></w:p></w:document>");
    assert_eq!(jobseeker::extractor::text_of_docx(&docx), Ok("Hej där".to_string()));
    assert_eq!(
        jobseeker::extractor::text_of_odt(&docx),
        Err("Kunde inte hitta content.xml i ODT-filen".to_string())
    );
    let odt = zip_with("content.xml", "<office:text><text:p>Brev</text:p></office:text>");
    assert_eq!(jobseeker::extractor::text_of_odt(&odt), Ok("Brev".to_string()));
    assert!(jobseeker::extractor::text_of_docx(b"not a zip").is_err());
}

#[test]
fn word_documents_are_built_from_paragraphs() {
    let paras = jobseeker::document::markdown_to_docx_paragraphs("# Titel\n\nText");
    let doc = jobseeker::document::build_docx(&paras);
    let mut out = std::io::Cursor::new(Vec::new());
    doc.build().pack(&mut out).unwrap();
    let bytes = out.into_inner();
    let xml_text = jobseeker::extractor::text_of_docx(&bytes).unwrap();
    assert!(xml_text.contains("Titel"));
    assert!(xml_text.contains("Text"));
    assert_eq!(jobseeker::document::style_name(jobseeker::document::ParaStyle::Heading2), "Heading2");
}

#[test]
fn word_document_body_follows_the_paragraphs() {
    let paras = vec![
        DocParagraph {
            style: Some(ParaStyle::Heading1),
            align: Some(ParaAlign::Center),
            size: Some(28),
            bold: true,
            runs: vec![DocRun::Text("Rubrik\nett".to_string()), DocRun::Break, DocRun::Text("två & <x>\r".to_string())],
        },
        DocParagraph { style: None, align: None, size: None, bold: false, runs: vec![] },
    ];
    let doc = build_docx(&paras);
    let children = &doc.document.children;
    assert_eq!(children.len(), 2);
    match &children[0] {
        docx_rs::DocumentChild::Paragraph(p) => {
            assert_eq!(p.property.style.as_ref().map(|s| s.val.clone()), Some("Heading1".to_string()));
            assert!(p.property.alignment.is_some());
            assert!(p.property.run_property.sz.is_some());
            assert!(p.property.run_property.bold.is_some());
            assert_eq!(p.children.len(), 3);
            match &p.children[0] {
                docx_rs::ParagraphChild::Run(r) => match &r.children[0] {
                    docx_rs::RunChild::Text(t) => assert_eq!(t.text, "Rubrikett"),
                    _ => panic!("expected a text run"),
                },
                _ => panic!("expected a run"),
            }
            match &p.children[1] {
                docx_rs::ParagraphChild::Run(r) => assert!(matches!(r.children[0], docx_rs::RunChild::Break(_))),
                _ => panic!("expected a run"),
            }
            match &p.children[2] {
                docx_rs::ParagraphChild::Run(r) => match &r.children[0] {
                    docx_rs::RunChild::Text(t) => assert_eq!(t.text, "två &amp; &lt;x&gt;"),
                    _ => panic!("expected a text run"),
                },
                _ => panic!("expected a run"),
            }
        }
        _ => panic!("expected a paragraph"),
    }
    match &children[1] {
        docx_rs::DocumentChild::Paragraph(p) => {
            assert!(p.property.style.is_none());
            assert!(p.property.alignment.is_none());
            assert!(p.property.run_property.sz.is_none());
            assert!(p.property.run_property.bold.is_none());
            assert!(p.children.is_empty());
        }
        _ => panic!("expected a paragraph"),
    }
}

#[test]
fn unix_seconds_now_is_after_the_year_2020() {
    let s = jobseeker::maintenance::unix_secs_now();
    assert!(s > 1_577_836_800);
    assert!(s <= i64::MAX as u64);
}
