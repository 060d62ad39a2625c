//! Moving an SQLite database of the application into the key-value store:
//! recognising a database file by its first bytes, turning the rows read
//! from SQLite into stored records, and collecting the ids of the jobs that
//! were stored in December (inspected once the move is done).

use vstd::prelude::*;
use chrono::Datelike;
use crate::text::{chars_of, copy_range, parse_u32, parse_u32_spec, char_utf8_width, utf8_len, utf8_width};

verus! {

// ---------------------------------------------------------------------------
// Recognising a database file.
// ---------------------------------------------------------------------------

/// What a database file looks like from its header.
#[derive(Debug, Clone, Copy, PartialEq, Eq, Structural)]
pub enum DbFormat {
    Sqlite,
    Redb,
    Unknown,
}

/// The bytes `SQLite format 3` that open every SQLite database.
pub open spec fn sqlite_magic() -> Seq<u8> {
    seq![83u8, 81u8, 76u8, 105u8, 116u8, 101u8, 32u8, 102u8, 111u8, 114u8, 109u8, 97u8, 116u8, 32u8, 51u8]
}

/// The bytes `redb` that open every Redb database.
pub open spec fn redb_magic() -> Seq<u8> {
    seq![114u8, 101u8, 100u8, 98u8]
}

pub open spec fn has_prefix(s: Seq<u8>, p: Seq<u8>) -> bool {
    p.len() <= s.len() && s.subrange(0, p.len() as int) == p
}

/// The format that the first bytes of a file announce.
pub open spec fn format_of_header(head: Seq<u8>) -> DbFormat {
    if has_prefix(head, sqlite_magic()) {
        DbFormat::Sqlite
    } else if has_prefix(head, redb_magic()) {
        DbFormat::Redb
    } else {
        DbFormat::Unknown
    }
}

fn starts_with_bytes(s: &[u8], p: &[u8]) -> (b: bool)
    ensures
        b == has_prefix(s@, p@),
{
    if p.len() > s.len() {
        return false;
    }
    let mut i: usize = 0;
    while i < p.len()
        invariant
            i <= p.len() <= s.len(),
            forall|j: int| 0 <= j < i ==> s@[j] == p@[j],
        decreases p.len() - i,
    {
        if s[i] != p[i] {
            assert(s@.subrange(0, p@.len() as int)[i as int] != p@[i as int]);
            return false;
        }
        i = i + 1;
    }
    assert(s@.subrange(0, p@.len() as int) =~= p@);
    true
}

impl DbFormat {
    /// Reads the format from the first bytes of a file (at most sixteen are
    /// read; fewer when the file is shorter).
    pub fn from_header(head: &[u8]) -> (f: DbFormat)
        ensures
            f == format_of_header(head@),
    {
        let sqlite: Vec<u8> = vec![83u8, 81u8, 76u8, 105u8, 116u8, 101u8, 32u8, 102u8, 111u8, 114u8, 109u8, 97u8, 116u8, 32u8, 51u8];
        let redb: Vec<u8> = vec![114u8, 101u8, 100u8, 98u8];
        assert(sqlite@ =~= sqlite_magic());
        assert(redb@ =~= redb_magic());
        if starts_with_bytes(head, sqlite.as_slice()) {
            DbFormat::Sqlite
        } else if starts_with_bytes(head, redb.as_slice()) {
            DbFormat::Redb
        } else {
            DbFormat::Unknown
        }
    }
}

// ---------------------------------------------------------------------------
// Rows read from SQLite and the records stored from them.
// ---------------------------------------------------------------------------

/// One row of the SQLite `job_ads` table, as read: a column that the table
/// lacks, or a NULL, reads as `None` (`headline` reads as empty).
pub struct SqliteAdRow {
    pub id: String,
    pub headline: String,
    pub description: Option<String>,
    pub employer_name: Option<String>,
    pub employer_workplace: Option<String>,
    pub application_url: Option<String>,
    pub webpage_url: Option<String>,
    pub publication_date: Option<String>,
    pub last_application_date: Option<String>,
    pub occupation_label: Option<String>,
    pub city: Option<String>,
    pub municipality: Option<String>,
    pub working_hours_label: Option<String>,
    pub qualifications: Option<String>,
    pub additional_information: Option<String>,
    pub is_read: Option<i64>,
    pub rating: Option<i64>,
    pub bookmarked_at: Option<String>,
    pub internal_created_at: Option<String>,
    pub search_keyword: Option<String>,
    pub status: Option<i64>,
    pub applied_at: Option<String>,
}

/// A job ad as the key-value store keeps it (as JSON, keyed by `id`).
#[derive(Debug, Clone)]
pub struct StoredJobAd {
    pub id: String,
    pub headline: String,
    pub description: Option<String>,
    pub employer_name: Option<String>,
    pub employer_workplace: Option<String>,
    pub application_url: Option<String>,
    pub webpage_url: Option<String>,
    pub publication_date: String,
    pub last_application_date: Option<String>,
    pub occupation_label: Option<String>,
    pub city: Option<String>,
    pub municipality: Option<String>,
    pub working_hours_label: Option<String>,
    pub qualifications: Option<String>,
    pub additional_information: Option<String>,
    pub is_read: bool,
    pub rating: Option<u8>,
    pub bookmarked_at: Option<String>,
    pub internal_created_at: String,
    pub search_keyword: Option<String>,
    pub status: i32,
    pub applied_at: Option<String>,
}

/// One row of the SQLite `job_applications` table, as read.
pub struct SqliteApplicationRow {
    pub job_id: String,
    pub content: Option<String>,
    pub updated_at: Option<String>,
}

/// An application letter as the key-value store keeps it (keyed by `job_id`).
#[derive(Debug, Clone)]
pub struct StoredApplication {
    pub job_id: String,
    pub content: String,
    pub updated_at: String,
}

/// The text of an optional string, or `d` when there is none.
pub open spec fn text_or(o: Option<String>, d: Seq<char>) -> Seq<char> {
    match o {
        Some(s) => s@,
        None => d,
    }
}

/// The rating kept from a stored number: only values from 0 to 255 are kept.
pub open spec fn rating_of(v: Option<i64>) -> Option<u8> {
    match v {
        Some(x) => if 0 <= x <= 255 { Some(x as u8) } else { None },
        None => None,
    }
}

/// `r` is the record stored from `row`, where `now` is the time written
/// where the row has no date.
pub open spec fn ad_converted(row: SqliteAdRow, now: Seq<char>, r: StoredJobAd) -> bool {
    &&& r.id == row.id
    &&& r.headline == row.headline
    &&& r.description == row.description
    &&& r.employer_name == row.employer_name
    &&& r.employer_workplace == row.employer_workplace
    &&& r.application_url == row.application_url
    &&& r.webpage_url == row.webpage_url
    &&& r.publication_date@ == (match row.publication_date {
        Some(p) => p@,
        None => text_or(row.internal_created_at, now),
    })
    &&& r.last_application_date == row.last_application_date
    &&& r.occupation_label == row.occupation_label
    &&& r.city == row.city
    &&& r.municipality == row.municipality
    &&& r.working_hours_label == row.working_hours_label
    &&& r.qualifications == row.qualifications
    &&& r.additional_information == row.additional_information
    &&& r.is_read == (match row.is_read {
        Some(v) => v != 0,
        None => false,
    })
    &&& r.rating == rating_of(row.rating)
    &&& r.bookmarked_at == row.bookmarked_at
    &&& r.internal_created_at@ == text_or(row.internal_created_at, now)
    &&& r.search_keyword == row.search_keyword
    &&& r.status == (match row.status {
        Some(v) => v as i32,
        None => 0i32,
    })
    &&& r.applied_at == row.applied_at
}

/// The current time in RFC 3339 form (`chrono::Utc::now().to_rfc3339()`).
/// Nothing is stated of the value: it is the clock's.
#[verifier::external_body]
fn now_rfc3339() -> (s: String) {
    chrono::Utc::now().to_rfc3339()
}

/// Turns a row of `job_ads` into the stored record, writing `now` where the
/// row has no publication or creation date.
pub fn stored_ad_from_row_at(row: SqliteAdRow, now: &str) -> (r: StoredJobAd)
    ensures
        ad_converted(row, now@, r),
{
    let ghost row0 = row;
    let created_text: String = match &row.internal_created_at {
        Some(c) => c.clone(),
        None => now.to_string(),
    };
    let publication_date: String = match row.publication_date {
        Some(p) => p,
        None => created_text.clone(),
    };
    let is_read = match row.is_read {
        Some(v) => v != 0,
        None => false,
    };
    let rating: Option<u8> = match row.rating {
        Some(x) => if 0 <= x && x <= 255 { Some(x as u8) } else { None },
        None => None,
    };
    let status: i32 = match row.status {
        Some(v) => v as i32,
        None => 0,
    };
    StoredJobAd {
        id: row.id,
        headline: row.headline,
        description: row.description,
        employer_name: row.employer_name,
        employer_workplace: row.employer_workplace,
        application_url: row.application_url,
        webpage_url: row.webpage_url,
        publication_date,
        last_application_date: row.last_application_date,
        occupation_label: row.occupation_label,
        city: row.city,
        municipality: row.municipality,
        working_hours_label: row.working_hours_label,
        qualifications: row.qualifications,
        additional_information: row.additional_information,
        is_read,
        rating,
        bookmarked_at: row.bookmarked_at,
        internal_created_at: created_text,
        search_keyword: row.search_keyword,
        status,
        applied_at: row.applied_at,
    }
}

/// Turns a row of `job_ads` into the stored record, writing the current time
/// where the row has no publication or creation date.
pub fn stored_ad_from_row(row: SqliteAdRow) -> (r: StoredJobAd)
    ensures
        exists|now: Seq<char>| #[trigger] ad_converted(row, now, r),
{
    let now = now_rfc3339();
    let r = stored_ad_from_row_at(row, now.as_str());
    assert(ad_converted(row, now@, r));
    r
}

/// Turns a row of `job_applications` into the stored record: missing content
/// reads as empty, a missing update time as `now`.
pub fn stored_application_from_row_at(row: SqliteApplicationRow, now: &str) -> (r: StoredApplication)
    ensures
        r.job_id == row.job_id,
        r.content@ == text_or(row.content, Seq::empty()),
        r.updated_at@ == text_or(row.updated_at, now@),
{
    let content = match row.content {
        Some(c) => c,
        None => String::new(),
    };
    let updated_at = match row.updated_at {
        Some(u) => u,
        None => now.to_string(),
    };
    StoredApplication { job_id: row.job_id, content, updated_at }
}

/// Turns a row of `job_applications` into the stored record, writing the
/// current time where the row has no update time.
pub fn stored_application_from_row(row: SqliteApplicationRow) -> (r: StoredApplication)
    ensures
        r.job_id == row.job_id,
        r.content@ == text_or(row.content, Seq::empty()),
        row.updated_at is Some ==> r.updated_at@ == row.updated_at->0@,
{
    let now = now_rfc3339();
    stored_application_from_row_at(row, now.as_str())
}

// ---------------------------------------------------------------------------
// Months of stored times.
// ---------------------------------------------------------------------------

/// The month (1 to 12) of an RFC 3339 time, or `None` where the text is not
/// one, as chrono reads it.
pub uninterp spec fn rfc3339_month_of(s: Seq<char>) -> Option<u32>;

/// The month of an RFC 3339 time (`DateTime::parse_from_rfc3339` and then
/// `Datelike::month`). The result is named; chrono documents a month as a
/// number from 1 to 12.
#[verifier::external_body]
fn rfc3339_month(s: &str) -> (m: Option<u32>)
    ensures
        m == rfc3339_month_of(s@),
        m matches Some(v) ==> 1 <= v <= 12,
{
    chrono::DateTime::parse_from_rfc3339(s).ok().map(|d| d.month())
}

/// Whether the ad was stored in December, going by its creation time.
pub open spec fn stored_in_december(ad: StoredJobAd) -> bool {
    rfc3339_month_of(ad.internal_created_at@) == Some(12u32)
}

pub open spec fn id_texts(ids: Seq<String>) -> Seq<Seq<char>> {
    ids.map_values(|s: String| s@)
}

/// The ids of the ads stored in December, as a set.
pub open spec fn december_set(ads: Seq<StoredJobAd>) -> Set<Seq<char>> {
    Set::new(|id: Seq<char>| exists|j: int| 0 <= j < ads.len() && #[trigger] ads[j].id@ == id && stored_in_december(ads[j]))
}

fn contains_id(ids: &Vec<String>, id: &str) -> (b: bool)
    ensures
        b == id_texts(ids@).contains(id@),
{
    let mut i: usize = 0;
    while i < ids.len()
        invariant
            i <= ids.len(),
            forall|j: int| 0 <= j < i ==> ids@[j]@ != id@,
        decreases ids.len() - i,
    {
        if crate::text::str_eq(ids[i].as_str(), id) {
            assert(id_texts(ids@)[i as int] == id@);
            return true;
        }
        i = i + 1;
    }
    assert(!id_texts(ids@).contains(id@)) by {
        if id_texts(ids@).contains(id@) {
            let k = choose|k: int| 0 <= k < id_texts(ids@).len() && id_texts(ids@)[k] == id@;
            assert(ids@[k]@ == id@);
        }
    }
    false
}

/// The ids of the ads stored in December, each once, in the order in which
/// they first occur.
pub fn december_ids(ads: &Vec<StoredJobAd>) -> (r: Vec<String>)
    ensures
        id_texts(r@).no_duplicates(),
        id_texts(r@).to_set() == december_set(ads@),
{
    let mut r: Vec<String> = Vec::new();
    let mut i: usize = 0;
    while i < ads.len()
        invariant
            i <= ads.len(),
            id_texts(r@).no_duplicates(),
            id_texts(r@).to_set() == december_set(ads@.subrange(0, i as int)),
        decreases ads.len() - i,
    {
        let ghost prev = r@;
        let m = rfc3339_month(ads[i].internal_created_at.as_str());
        let dec = match m {
            Some(v) => v == 12,
            None => false,
        };
        let ghost sub = ads@.subrange(0, i as int);
        let ghost next = ads@.subrange(0, i + 1);
        if dec && !contains_id(&r, ads[i].id.as_str()) {
            r.push(ads[i].id.clone());
            assert(id_texts(r@) =~= id_texts(prev).push(ads@[i as int].id@));
        }
        assert(id_texts(r@).to_set() =~= december_set(next)) by {
            assert forall|id: Seq<char>| #[trigger] december_set(next).contains(id) implies id_texts(r@).to_set().contains(id) by {
                let j = choose|j: int| 0 <= j < next.len() && #[trigger] next[j].id@ == id && stored_in_december(next[j]);
                if j < i {
                    assert(sub[j] == next[j]);
                    assert(december_set(sub).contains(id));
                    assert(id_texts(prev).to_set().contains(id));
                    let k = choose|k: int| 0 <= k < id_texts(prev).len() && id_texts(prev)[k] == id;
                    assert(id_texts(r@)[k] == id);
                } else {
                    if !id_texts(prev).contains(id) {
                        assert(id_texts(r@)[prev.len() as int] == id);
                    } else {
                        let k = choose|k: int| 0 <= k < id_texts(prev).len() && id_texts(prev)[k] == id;
                        assert(id_texts(r@)[k] == id);
                    }
                }
            }
            assert forall|id: Seq<char>| id_texts(r@).to_set().contains(id) implies #[trigger] december_set(next).contains(id) by {
                let k = choose|k: int| 0 <= k < id_texts(r@).len() && id_texts(r@)[k] == id;
                if k < prev.len() {
                    assert(id_texts(prev)[k] == id);
                    assert(id_texts(prev).to_set().contains(id));
                    assert(december_set(sub).contains(id));
                    let j = choose|j: int| 0 <= j < sub.len() && #[trigger] sub[j].id@ == id && stored_in_december(sub[j]);
                    assert(next[j] == sub[j]);
                } else {
                    assert(next[i as int] == ads@[i as int]);
                    assert(next[i as int].id@ == id);
                }
            }
        }
        i = i + 1;
    }
    assert(ads@.subrange(0, ads.len() as int) =~= ads@);
    r
}

/// Whether two lists of ids hold the same ids (as sets).
pub fn same_ids(a: &Vec<String>, b: &Vec<String>) -> (r: bool)
    ensures
        r == (id_texts(a@).to_set() == id_texts(b@).to_set()),
{
    let mut i: usize = 0;
    while i < a.len()
        invariant
            i <= a.len(),
            forall|j: int| 0 <= j < i ==> id_texts(b@).contains(#[trigger] id_texts(a@)[j]),
        decreases a.len() - i,
    {
        if !contains_id(b, a[i].as_str()) {
            assert(id_texts(a@).to_set().contains(id_texts(a@)[i as int]));
            return false;
        }
        i = i + 1;
    }
    let mut k: usize = 0;
    while k < b.len()
        invariant
            k <= b.len(),
            forall|j: int| 0 <= j < a.len() ==> id_texts(b@).contains(#[trigger] id_texts(a@)[j]),
            forall|j: int| 0 <= j < k ==> id_texts(a@).contains(#[trigger] id_texts(b@)[j]),
        decreases b.len() - k,
    {
        if !contains_id(a, b[k].as_str()) {
            assert(id_texts(b@).to_set().contains(id_texts(b@)[k as int]));
            return false;
        }
        k = k + 1;
    }
    assert(id_texts(a@).to_set() =~= id_texts(b@).to_set()) by {
        assert forall|id: Seq<char>| id_texts(a@).to_set().contains(id) implies id_texts(b@).to_set().contains(id) by {
            let j = choose|j: int| 0 <= j < id_texts(a@).len() && id_texts(a@)[j] == id;
        }
        assert forall|id: Seq<char>| id_texts(b@).to_set().contains(id) implies id_texts(a@).to_set().contains(id) by {
            let j = choose|j: int| 0 <= j < id_texts(b@).len() && id_texts(b@)[j] == id;
        }
    }
    true
}

/// What a migration did: how many ads and applications the new store holds,
/// and the ids of the ads that were stored in December (each once).
pub struct MigrationResult {
    pub ads: usize,
    pub apps: usize,
    pub december_ids: Vec<String>,
}

/// Why a migration does not start.
#[derive(Debug, Clone, Copy, PartialEq, Eq, Structural)]
pub enum MigrationError {
    /// The SQLite database to read does not exist.
    SourceMissing,
    /// Something already stands where the new store would be written.
    DestinationExists,
    /// The SQLite database lacks `job_ads` or `job_applications`.
    MissingTables,
}

/// The checks made before a migration, in the order in which they are made.
pub fn check_migration(
    source_exists: bool,
    destination_exists: bool,
    has_job_ads: bool,
    has_job_applications: bool,
) -> (r: Result<(), MigrationError>)
    ensures
        !source_exists ==> r == Err::<(), MigrationError>(MigrationError::SourceMissing),
        source_exists && destination_exists ==> r == Err::<(), MigrationError>(MigrationError::DestinationExists),
        source_exists && !destination_exists && !(has_job_ads && has_job_applications)
            ==> r == Err::<(), MigrationError>(MigrationError::MissingTables),
        r is Ok <==> (source_exists && !destination_exists && has_job_ads && has_job_applications),
{
    if !source_exists {
        Err(MigrationError::SourceMissing)
    } else if destination_exists {
        Err(MigrationError::DestinationExists)
    } else if !has_job_ads || !has_job_applications {
        Err(MigrationError::MissingTables)
    } else {
        Ok(())
    }
}

// ---------------------------------------------------------------------------
// The December check of the dump tool: month digits at bytes 5..7.
// ---------------------------------------------------------------------------

/// Byte offset `b` falls between two characters of `s`.
pub open spec fn is_char_boundary(s: Seq<char>, b: nat) -> bool {
    exists|k: int| 0 <= k <= s.len() && #[trigger] utf8_len(s.take(k)) == b
}

/// The number of characters before byte offset `b`.
pub open spec fn char_index_at(s: Seq<char>, b: nat) -> int {
    choose|k: int| 0 <= k <= s.len() && #[trigger] utf8_len(s.take(k)) == b
}

/// The characters between byte offsets `a` and `b`.
pub open spec fn byte_slice(s: Seq<char>, a: nat, b: nat) -> Seq<char> {
    s.subrange(char_index_at(s, a), char_index_at(s, b))
}

/// Whether a stored creation time lies in December: the digits at bytes 5
/// to 7 (`YYYY-MM`) when the text is that long and they read as a number,
/// else the month of the text read as an RFC 3339 time; `false` when there
/// is no creation time.
pub open spec fn month_is_dec_spec(created: Option<Seq<char>>) -> bool {
    match created {
        None => false,
        Some(s) => {
            let quick = if utf8_len(s) >= 7 { parse_u32_spec(byte_slice(s, 5, 7)) } else { None };
            match quick {
                Some(m) => m == 12,
                None => rfc3339_month_of(s) == Some(12u32),
            }
        },
    }
}

proof fn lemma_take_step(s: Seq<char>, k: int)
    requires
        0 <= k < s.len(),
    ensures
        utf8_len(s.take(k + 1)) == utf8_len(s.take(k)) + utf8_width(s[k]),
{
    assert(s.take(k + 1).drop_last() =~= s.take(k));
}

proof fn lemma_take_strict(s: Seq<char>, k1: int, k2: int)
    requires
        0 <= k1 < k2 <= s.len(),
    ensures
        utf8_len(s.take(k1)) < utf8_len(s.take(k2)),
    decreases k2 - k1,
{
    lemma_take_step(s, k2 - 1);
    if k1 < k2 - 1 {
        lemma_take_strict(s, k1, k2 - 1);
    }
}

proof fn lemma_boundary_unique(s: Seq<char>, b: nat, k: int)
    requires
        0 <= k <= s.len(),
        utf8_len(s.take(k)) == b,
    ensures
        is_char_boundary(s, b),
        char_index_at(s, b) == k,
{
    let c = char_index_at(s, b);
    if c < k {
        lemma_take_strict(s, c, k);
    } else if c > k {
        lemma_take_strict(s, k, c);
    }
}

/// The number of characters before byte offset `b`, if it falls between two
/// characters.
fn find_char_index(s: &[char], b: usize) -> (r: Option<usize>)
    ensures
        r matches Some(k) ==> k <= s@.len() && utf8_len(s@.take(k as int)) == b,
        r is None ==> !is_char_boundary(s@, b as nat),
{
    let mut i: usize = 0;
    let mut off: usize = 0;
    assert(s@.take(0) =~= Seq::<char>::empty());
    while i < s.len() && off < b
        invariant
            i <= s.len(),
            off == utf8_len(s@.take(i as int)),
            off <= b,
            forall|k: int| 0 <= k < i ==> #[trigger] utf8_len(s@.take(k)) < b,
        decreases s.len() - i,
    {
        let w = char_utf8_width(s[i]);
        proof {
            lemma_take_step(s@, i as int);
        }
        if w > b - off {
            proof {
                assert forall|k: int| 0 <= k <= s@.len() implies #[trigger] utf8_len(s@.take(k)) != b by {
                    if k > i {
                        if k > i + 1 {
                            lemma_take_strict(s@, i + 1, k);
                        }
                    }
                }
            }
            return None;
        }
        off = off + w;
        i = i + 1;
    }
    if off == b {
        Some(i)
    } else {
        proof {
            assert forall|k: int| 0 <= k <= s@.len() implies #[trigger] utf8_len(s@.take(k)) != b by {
                if k > i {
                    lemma_take_strict(s@, i as int, k);
                }
            }
        }
        None
    }
}

/// Whether a stored creation time lies in December, as the dump tool
/// decides it. Where the text has seven bytes or more, bytes 5 and 7 must
/// fall between characters (slicing there would otherwise fail).
pub fn internal_month_is_dec(created: Option<&str>) -> (r: bool)
    requires
        created matches Some(s) ==> (utf8_len(s@) >= 7 ==> is_char_boundary(s@, 5) && is_char_boundary(s@, 7)),
    ensures
        r == month_is_dec_spec(match created { Some(s) => Some(s@), None => None }),
{
    match created {
        None => false,
        Some(s) => {
            let v = chars_of(s);
            let n = crate::text::byte_len(v.as_slice());
            proof {
                crate::text::lemma_utf8_len_bounds(s@);
            }
            if n >= 7 {
                let a = find_char_index(v.as_slice(), 5);
                let b = find_char_index(v.as_slice(), 7);
                match (a, b) {
                    (Some(ka), Some(kb)) => {
                        proof {
                            lemma_boundary_unique(s@, 5, ka as int);
                            lemma_boundary_unique(s@, 7, kb as int);
                            if ka > kb {
                                lemma_take_strict(s@, kb as int, ka as int);
                            }
                        }
                        let piece = copy_range(v.as_slice(), ka, kb);
                        match parse_u32(piece.as_slice()) {
                            Some(m) => {
                                return m == 12;
                            },
                            None => {},
                        }
                    },
                    _ => {},
                }
            }
            match rfc3339_month(s) {
                Some(m) => m == 12,
                None => false,
            }
        },
    }
}


/// Whether a creation time is in December as the migration tool's dry run
/// counts it in SQL (`substr(internal_created_at, 6, 2) = '12'`): the sixth
/// and seventh characters are `1` and `2`; no time never counts.
pub open spec fn sql_december_spec(created: Option<Seq<char>>) -> bool {
    match created {
        Some(s) => s.len() >= 7 && s[5] == '1' && s[6] == '2',
        None => false,
    }
}

pub fn sql_december(created: Option<&str>) -> (r: bool)
    ensures
        r == sql_december_spec(match created { Some(s) => Some(s@), None => None }),
{
    match created {
        Some(s) => {
            let v = chars_of(s);
            v.len() >= 7 && v[5] == '1' && v[6] == '2'
        },
        None => false,
    }
}

} // verus!

