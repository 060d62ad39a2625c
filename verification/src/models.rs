//! The records the application stores: job ads, settings, documents,
//! dictionary entries and profiles.
//!
//! Points in time are held as a [`Timestamp`] (seconds and nanoseconds since
//! the Unix epoch, UTC) so that the logic can compare them.

use vstd::prelude::*;
use crate::text::{chars_of, decimal, digit_char, seq_eq};

verus! {

/// The user's verdict on a job ad.
#[derive(Debug, Clone, Copy, PartialEq, Eq, Structural)]
pub enum AdStatus {
    New,
    Rejected,
    Bookmarked,
    ThumbsUp,
    Applied,
}

impl AdStatus {
    /// The number stored for a status (its discriminant).
    pub open spec fn code_spec(self) -> u8 {
        match self {
            AdStatus::New => 0,
            AdStatus::Rejected => 1,
            AdStatus::Bookmarked => 2,
            AdStatus::ThumbsUp => 3,
            AdStatus::Applied => 4,
        }
    }

    pub open spec fn from_code_spec(v: u64) -> AdStatus {
        if v == 1 {
            AdStatus::Rejected
        } else if v == 2 {
            AdStatus::Bookmarked
        } else if v == 3 {
            AdStatus::ThumbsUp
        } else if v == 4 {
            AdStatus::Applied
        } else {
            AdStatus::New
        }
    }

    /// The variant name, as the status is written in JSON.
    pub open spec fn name_spec(self) -> Seq<char> {
        match self {
            AdStatus::New => "New"@,
            AdStatus::Rejected => "Rejected"@,
            AdStatus::Bookmarked => "Bookmarked"@,
            AdStatus::ThumbsUp => "ThumbsUp"@,
            AdStatus::Applied => "Applied"@,
        }
    }

    pub open spec fn from_name_spec(v: Seq<char>) -> AdStatus {
        if v == "Rejected"@ {
            AdStatus::Rejected
        } else if v == "Bookmarked"@ {
            AdStatus::Bookmarked
        } else if v == "ThumbsUp"@ {
            AdStatus::ThumbsUp
        } else if v == "Applied"@ {
            AdStatus::Applied
        } else {
            AdStatus::New
        }
    }

    #[verifier::when_used_as_spec(code_spec)]
    pub fn code(self) -> (c: u8)
        ensures
            c == self.code_spec(),
    {
        match self {
            AdStatus::New => 0,
            AdStatus::Rejected => 1,
            AdStatus::Bookmarked => 2,
            AdStatus::ThumbsUp => 3,
            AdStatus::Applied => 4,
        }
    }

    /// Reads a status from its number; unknown numbers read as `New`.
    pub fn from_code(v: u64) -> (s: AdStatus)
        ensures
            s == Self::from_code_spec(v),
    {
        if v == 1 {
            AdStatus::Rejected
        } else if v == 2 {
            AdStatus::Bookmarked
        } else if v == 3 {
            AdStatus::ThumbsUp
        } else if v == 4 {
            AdStatus::Applied
        } else {
            AdStatus::New
        }
    }

    pub fn name(self) -> (n: &'static str)
        ensures
            n@ == self.name_spec(),
    {
        match self {
            AdStatus::New => "New",
            AdStatus::Rejected => "Rejected",
            AdStatus::Bookmarked => "Bookmarked",
            AdStatus::ThumbsUp => "ThumbsUp",
            AdStatus::Applied => "Applied",
        }
    }

    /// Reads a status from its name; unknown names read as `New`.
    pub fn from_name(v: &str) -> (s: AdStatus)
        ensures
            s == Self::from_name_spec(v@),
    {
        let c = chars_of(v);
        let rejected = chars_of("Rejected");
        let bookmarked = chars_of("Bookmarked");
        let thumbs = chars_of("ThumbsUp");
        let applied = chars_of("Applied");
        if seq_eq(c.as_slice(), rejected.as_slice()) {
            AdStatus::Rejected
        } else if seq_eq(c.as_slice(), bookmarked.as_slice()) {
            AdStatus::Bookmarked
        } else if seq_eq(c.as_slice(), thumbs.as_slice()) {
            AdStatus::ThumbsUp
        } else if seq_eq(c.as_slice(), applied.as_slice()) {
            AdStatus::Applied
        } else {
            AdStatus::New
        }
    }
}

/// Reading back the number of a status gives the status.
pub proof fn lemma_status_code_roundtrip(s: AdStatus)
    ensures
        AdStatus::from_code_spec(s.code_spec() as u64) == s,
{
}

/// Reading back the name of a status gives the status.
pub proof fn lemma_status_name_roundtrip(s: AdStatus)
    ensures
        AdStatus::from_name_spec(s.name_spec()) == s,
{
    reveal_strlit("New");
    reveal_strlit("Rejected");
    reveal_strlit("Bookmarked");
    reveal_strlit("ThumbsUp");
    reveal_strlit("Applied");
    assert("New"@.len() == 3 && "Rejected"@.len() == 8 && "Bookmarked"@.len() == 10);
    assert("ThumbsUp"@.len() == 8 && "Applied"@.len() == 7);
    assert("ThumbsUp"@[0] != "Rejected"@[0]);
}

/// A point in time: whole seconds and nanoseconds since 1970-01-01 UTC.
#[derive(Debug, Clone, Copy, PartialEq, Eq, Structural)]
pub struct Timestamp {
    pub secs: i64,
    pub nanos: u32,
}

impl Timestamp {
    /// `self` lies strictly after `other`.
    pub open spec fn after_spec(self, other: Timestamp) -> bool {
        self.secs > other.secs || (self.secs == other.secs && self.nanos > other.nanos)
    }

    #[verifier::when_used_as_spec(after_spec)]
    pub fn after(self, other: Timestamp) -> (b: bool)
        ensures
            b == self.after_spec(other),
    {
        self.secs > other.secs || (self.secs == other.secs && self.nanos > other.nanos)
    }
}

/// The current time (`chrono::Utc::now`), as seconds and sub-second
/// nanoseconds since the Unix epoch. Nothing is promised of the value.
#[verifier::external_body]
pub(crate) fn now() -> (t: Timestamp) {
    let n = chrono::Utc::now();
    Timestamp { secs: n.timestamp(), nanos: n.timestamp_subsec_nanos() }
}

/// The UTC date `YYYY-MM-DD` of a point in time as chrono writes it, or
/// `None` where chrono cannot represent the point.
pub uninterp spec fn ymd_text(secs: i64, nanos: u32) -> Option<Seq<char>>;

/// The UTC date of a point in time (`DateTime::<Utc>::from_timestamp`, then
/// `format("%Y-%m-%d")`). The result is named.
#[verifier::external_body]
pub(crate) fn ymd_of(t: Timestamp) -> (r: Option<String>)
    ensures
        r matches Some(s) ==> ymd_text(t.secs, t.nanos) == Some(s@),
        r is None ==> ymd_text(t.secs, t.nanos) is None,
{
    chrono::DateTime::<chrono::Utc>::from_timestamp(t.secs, t.nanos).map(|d| d.format("%Y-%m-%d").to_string())
}

// ---------------------------------------------------------------------------
// Time stamps as chrono writes the current UTC time.
// ---------------------------------------------------------------------------

/// The fields of the current UTC time as `chrono::Utc::now` can give them:
/// the clock is read as seconds since the Unix epoch (chrono panics before
/// it), so the year is from 1970 to chrono's last year, and the second has
/// no leap second (the nanoseconds are below one second).
pub open spec fn utc_fields(y: int, mo: int, d: int, h: int, mi: int, s: int) -> bool {
    &&& 1970 <= y <= 262143
    &&& 1 <= mo <= 12
    &&& 1 <= d <= 31
    &&& 0 <= h <= 23
    &&& 0 <= mi <= 59
    &&& 0 <= s <= 59
}

/// A number from 0 to 99 as two digits (chrono's `%m`, `%d`, `%H`, `%M`,
/// `%S`).
pub open spec fn two_digits(n: int) -> Seq<char> {
    seq![digit_char(n / 10), digit_char(n % 10)]
}

/// A year as chrono's `%Y` writes it: four digits up to 9999, and `+`
/// before the digits after that.
pub open spec fn year_text(y: int) -> Seq<char> {
    if y <= 9999 {
        seq![digit_char(y / 1000), digit_char((y / 100) % 10), digit_char((y / 10) % 10), digit_char(y % 10)]
    } else {
        "+"@ + decimal(y as nat)
    }
}

/// `%Y%m%d%H%M%S`.
pub open spec fn compact_stamp(y: int, mo: int, d: int, h: int, mi: int, s: int) -> Seq<char> {
    year_text(y) + two_digits(mo) + two_digits(d) + two_digits(h) + two_digits(mi) + two_digits(s)
}

/// `%Y%m%d-%H%M%S`.
pub open spec fn dashed_stamp(y: int, mo: int, d: int, h: int, mi: int, s: int) -> Seq<char> {
    year_text(y) + two_digits(mo) + two_digits(d) + "-"@ + two_digits(h) + two_digits(mi) + two_digits(s)
}

/// `%Y-%m-%d %H:%M`.
pub open spec fn minute_stamp(y: int, mo: int, d: int, h: int, mi: int) -> Seq<char> {
    year_text(y) + "-"@ + two_digits(mo) + "-"@ + two_digits(d) + " "@ + two_digits(h) + ":"@ + two_digits(mi)
}

/// `%H:%M:%S`.
pub open spec fn clock_stamp(h: int, mi: int, s: int) -> Seq<char> {
    two_digits(h) + ":"@ + two_digits(mi) + ":"@ + two_digits(s)
}

/// A text of the form `%Y%m%d%H%M%S` of some UTC time.
pub open spec fn is_compact_stamp(t: Seq<char>) -> bool {
    exists|y: int, mo: int, d: int, h: int, mi: int, s: int|
        utc_fields(y, mo, d, h, mi, s) && t == #[trigger] compact_stamp(y, mo, d, h, mi, s)
}

/// A text of the form `%Y%m%d-%H%M%S` of some UTC time.
pub open spec fn is_dashed_stamp(t: Seq<char>) -> bool {
    exists|y: int, mo: int, d: int, h: int, mi: int, s: int|
        utc_fields(y, mo, d, h, mi, s) && t == #[trigger] dashed_stamp(y, mo, d, h, mi, s)
}

/// A text of the form `%Y-%m-%d %H:%M` of some UTC time.
pub open spec fn is_minute_stamp(t: Seq<char>) -> bool {
    exists|y: int, mo: int, d: int, h: int, mi: int|
        utc_fields(y, mo, d, h, mi, 0) && t == #[trigger] minute_stamp(y, mo, d, h, mi)
}

/// A text of the form `%H:%M:%S` of some time of day.
pub open spec fn is_clock_stamp(t: Seq<char>) -> bool {
    exists|h: int, mi: int, s: int|
        0 <= h <= 23 && 0 <= mi <= 59 && 0 <= s <= 59 && t == #[trigger] clock_stamp(h, mi, s)
}

#[derive(Debug, Clone)]
pub struct WorkingHours {
    pub label: Option<String>,
}

#[derive(Debug, Clone)]
pub struct Description {
    pub text: Option<String>,
}

#[derive(Debug, Clone)]
pub struct Employer {
    pub name: Option<String>,
    pub workplace: Option<String>,
}

#[derive(Debug, Clone)]
pub struct ApplicationDetails {
    pub url: Option<String>,
}

#[derive(Debug, Clone)]
pub struct Occupation {
    pub label: Option<String>,
}

#[derive(Debug, Clone)]
pub struct WorkplaceAddress {
    pub city: Option<String>,
    pub municipality: Option<String>,
}

#[derive(Debug, Clone)]
pub struct Skill {
    pub label: String,
}

#[derive(Debug, Clone)]
pub struct Language {
    pub label: String,
}

#[derive(Debug, Clone)]
pub struct WorkExperience {
    pub label: String,
}

#[derive(Debug, Clone)]
pub struct Requirements {
    pub skills: Vec<Skill>,
    pub languages: Vec<Language>,
    pub work_experiences: Vec<WorkExperience>,
}

/// A job ad as fetched from the job search service and kept by the user.
#[derive(Debug, Clone)]
pub struct JobAd {
    pub id: String,
    pub headline: String,
    pub description: Option<Description>,
    pub employer: Option<Employer>,
    pub application_details: Option<ApplicationDetails>,
    pub webpage_url: Option<String>,
    pub publication_date: String,
    pub last_application_date: Option<String>,
    pub occupation: Option<Occupation>,
    pub workplace_address: Option<WorkplaceAddress>,
    pub working_hours_type: Option<WorkingHours>,
    pub must_have: Option<Requirements>,
    pub nice_to_have: Option<Requirements>,
    pub driving_license_required: bool,
    pub is_read: bool,
    pub rating: Option<u8>,
    pub bookmarked_at: Option<Timestamp>,
    pub internal_created_at: Timestamp,
    pub updated_at: Timestamp,
    pub search_keyword: Option<String>,
    pub status: Option<AdStatus>,
    pub applied_at: Option<Timestamp>,
    pub profile_id: String,
}

/// The user's settings, one set per profile.
#[derive(Debug, Clone)]
pub struct AppSettings {
    pub keywords: String,
    pub blacklist_keywords: String,
    pub locations_p1: String,
    pub locations_p2: String,
    pub locations_p3: String,
    pub my_profile: String,
    pub ollama_url: String,
    pub sync_path: String,
    pub app_min_count: i32,
    pub app_goal_count: i32,
    pub show_motivation: bool,
    pub main_cv_id: String,
    pub show_dev_logs: bool,
    pub auto_extract: bool,
    pub updated_at: Timestamp,
    pub profile_id: String,
}

/// The value a missing `auto_extract` setting takes.
pub fn default_true() -> (b: bool)
    ensures
        b,
{
    true
}

impl AppSettings {
    /// The settings of a new user (what `Default` gives), stamped with the
    /// given time.
    pub fn default_at(updated_at: Timestamp) -> (s: AppSettings)
        ensures
            s.keywords@.len() == 0,
            s.blacklist_keywords@.len() == 0,
            s.locations_p1@.len() == 0,
            s.locations_p2@.len() == 0,
            s.locations_p3@.len() == 0,
            s.my_profile@.len() == 0,
            s.ollama_url@ == "http://localhost:11434/v1"@,
            s.sync_path@.len() == 0,
            s.app_min_count == 6,
            s.app_goal_count == 12,
            s.show_motivation,
            s.main_cv_id@.len() == 0,
            !s.show_dev_logs,
            s.auto_extract,
            s.updated_at == updated_at,
            s.profile_id@.len() == 0,
    {
        AppSettings {
            keywords: String::new(),
            blacklist_keywords: String::new(),
            locations_p1: String::new(),
            locations_p2: String::new(),
            locations_p3: String::new(),
            my_profile: String::new(),
            ollama_url: "http://localhost:11434/v1".to_owned(),
            sync_path: String::new(),
            app_min_count: 6,
            app_goal_count: 12,
            show_motivation: true,
            main_cv_id: String::new(),
            show_dev_logs: false,
            auto_extract: default_true(),
            updated_at,
            profile_id: String::new(),
        }
    }
}

impl Default for AppSettings {
    /// The settings of a new user, stamped with the current time.
    fn default() -> (s: AppSettings)
        ensures
            s.keywords@.len() == 0,
            s.ollama_url@ == "http://localhost:11434/v1"@,
            s.app_min_count == 6,
            s.app_goal_count == 12,
            s.show_motivation,
            !s.show_dev_logs,
            s.auto_extract,
            s.profile_id@.len() == 0,
    {
        AppSettings::default_at(now())
    }
}

/// A user document: a CV, a cover letter or another text.
#[derive(Debug, Clone)]
pub struct UserDocument {
    pub id: String,
    pub name: String,
    pub doc_type: String,
    pub content: String,
    pub is_main: bool,
    pub created_at: Timestamp,
    pub updated_at: Timestamp,
    pub profile_id: String,
}

/// An entry of the user's knowledge base.
#[derive(Debug, Clone)]
pub struct DictEntry {
    pub key: String,
    pub value: String,
    pub updated_at: Timestamp,
    pub profile_id: String,
}

/// A user profile; settings, ads, documents and entries belong to one.
#[derive(Debug, Clone)]
pub struct Profile {
    pub id: String,
    pub name: String,
    pub icon: String,
    pub created_at: Timestamp,
    pub updated_at: Timestamp,
}

} // verus!
