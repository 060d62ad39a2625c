//! The decisions of the maintenance tools: clearing a wrongly set
//! application, filling in fields that old records lack, naming backups,
//! listing records, and choosing which jobs an older database adds.

use vstd::prelude::*;
use crate::text::{contains, contains_str, lowercase, trim, trim_str, to_lowercase, str_eq, starts_with_chars,
    append_chars, chars_of, decimal, push_decimal, replace, replace_chars, seq_eq, string_from_chars,
};

verus! {

/// The status a job gets when its application is cleared: `Bookmarked` (2)
/// when it was bookmarked, `New` (0) otherwise.
pub fn cleared_status(bookmarked: bool) -> (s: i64)
    ensures
        s == if bookmarked { 2i64 } else { 0i64 },
{
    if bookmarked {
        2
    } else {
        0
    }
}

/// The value a missing `is_read` field takes.
pub fn default_false() -> (b: bool)
    ensures
        !b,
{
    false
}

/// The value a missing `status` field takes (`New`).
pub fn default_status() -> (s: i32)
    ensures
        s == 0,
{
    0
}

/// `path` followed by `infix` and a number of seconds.
pub open spec fn stamped_name(path: Seq<char>, infix: Seq<char>, secs: u64) -> Seq<char> {
    path + infix + decimal(secs as nat)
}

fn stamped(path: &str, infix: &str, secs: u64) -> (r: String)
    ensures
        r@ == stamped_name(path@, infix@, secs),
{
    let mut v = chars_of(path);
    append_chars(&mut v, chars_of(infix).as_slice());
    push_decimal(&mut v, secs);
    string_from_chars(v.as_slice())
}

/// The whole seconds since the Unix epoch now, 0 before the epoch. Which
/// time it is is the clock's; the count is one of a signed 64-bit clock, so
/// it never exceeds `i64::MAX`.
pub fn unix_secs_now() -> (r: u64)
    ensures
        r <= i64::MAX,
{
    let t = crate::models::now();
    if t.secs < 0 {
        0
    } else {
        t.secs as u64
    }
}

/// The backup made of a database before applications are cleared in it,
/// stamped with the current time.
pub fn timestamped_backup_name(path: &str) -> (r: String)
    ensures
        exists|secs: u64| r@ == #[trigger] stamped_name(path@, ".fix_applied.bak."@, secs),
{
    let secs = unix_secs_now();
    let r = timestamped_backup_name_at(path, secs);
    assert(r@ == stamped_name(path@, ".fix_applied.bak."@, secs));
    r
}

/// Where an old SQLite database found next to the program is moved,
/// stamped with the current time.
pub fn backup_path(path: &str) -> (r: String)
    ensures
        exists|secs: u64| r@ == #[trigger] stamped_name(path@, ".sqlite.bak."@, secs),
{
    let secs = unix_secs_now();
    let r = backup_path_at(path, secs);
    assert(r@ == stamped_name(path@, ".sqlite.bak."@, secs));
    r
}

/// The backup made of a database before applications are cleared in it.
pub fn timestamped_backup_name_at(path: &str, secs: u64) -> (r: String)
    ensures
        r@ == stamped_name(path@, ".fix_applied.bak."@, secs),
{
    stamped(path, ".fix_applied.bak.", secs)
}

/// Where an old SQLite database found next to the program is moved.
pub fn backup_path_at(path: &str, secs: u64) -> (r: String)
    ensures
        r@ == stamped_name(path@, ".sqlite.bak."@, secs),
{
    stamped(path, ".sqlite.bak.", secs)
}

/// The backup made of a database before missing fields are added to it.
pub fn fix_fields_backup_name(path: &str, secs: u64) -> (r: String)
    ensures
        r@ == stamped_name(path@, ".fix_fields.bak."@, secs),
{
    stamped(path, ".fix_fields.bak.", secs)
}

/// The backup the migration tool makes of the SQLite database it replaces.
pub fn migration_backup_name_at(path: &str, secs: u64) -> (r: String)
    ensures
        r@ == stamped_name(path@, ".bak."@, secs),
{
    stamped(path, ".bak.", secs)
}

// ---------------------------------------------------------------------------
// Where databases and exports live.
// ---------------------------------------------------------------------------

/// The parent of a path as `std::path::Path::parent` gives it.
pub uninterp spec fn path_parent(p: Seq<char>) -> Option<Seq<char>>;

/// A path joined with a name as `std::path::Path::join` gives it.
pub uninterp spec fn path_join(base: Seq<char>, name: Seq<char>) -> Seq<char>;

/// `Path::parent` on a path given as text. The result is named.
#[verifier::external_body]
fn parent_of(p: &str) -> (r: Option<String>)
    ensures
        r matches Some(s) ==> path_parent(p@) == Some(s@),
        r is None ==> path_parent(p@) is None,
{
    std::path::Path::new(p).parent().map(|q| q.to_string_lossy().into_owned())
}

/// `Path::join` on paths given as text. The result is named.
#[verifier::external_body]
fn join_path(base: &str, name: &str) -> (r: String)
    ensures
        r@ == path_join(base@, name@),
{
    std::path::Path::new(base).join(name).to_string_lossy().into_owned()
}

/// The folder exports are written to: `exports` beside the database, or
/// `./exports` when the database path has no parent.
pub open spec fn export_dir_spec(db_path: Seq<char>) -> Seq<char> {
    match path_parent(db_path) {
        Some(p) => path_join(p, "exports"@),
        None => "./exports"@,
    }
}

pub fn default_export_dir(db_path: &str) -> (r: String)
    ensures
        r@ == export_dir_spec(db_path@),
{
    match parent_of(db_path) {
        Some(p) => join_path(p.as_str(), "exports"),
        None => "./exports".to_string(),
    }
}

/// The database a tool opens: the one named on its command line, else the
/// per-user one, else `jobseeker.db` in the current folder.
pub fn pick_db_path(cli: Option<String>, per_user: Option<String>) -> (r: String)
    ensures
        cli matches Some(c) ==> r == c,
        cli is None && per_user is Some ==> r == per_user->0,
        cli is None && per_user is None ==> r@ == "jobseeker.db"@,
{
    match cli {
        Some(c) => c,
        None => match per_user {
            Some(p) => p,
            None => "jobseeker.db".to_string(),
        },
    }
}

/// What becomes of a database found next to the program when the
/// application starts.
#[derive(Debug, Clone, Copy, PartialEq, Eq, Structural)]
pub enum DbPlacement {
    /// The per-user database is used as it is (or created on first run).
    UseDestination,
    /// The local Redb database is moved to the per-user place.
    MoveLocal,
    /// The local SQLite database is migrated into a new per-user Redb
    /// database, and the SQLite file itself is kept as a timestamped backup.
    MigrateLocal,
    /// The local file is neither Redb nor SQLite: it is moved aside to a
    /// backup and the per-user database starts empty.
    BackupLocal,
}

/// Where the database comes from at start-up: an existing per-user database is
/// kept; else a local database is moved in when it opens as Redb, migrated
/// when it is SQLite (the SQLite file kept as a backup), and backed up
/// otherwise.
pub fn db_placement(destination_exists: bool, local_exists: bool, local_opens_as_redb: bool, local_is_sqlite: bool) -> (r: DbPlacement)
    ensures
        destination_exists ==> r == DbPlacement::UseDestination,
        !destination_exists && !local_exists ==> r == DbPlacement::UseDestination,
        !destination_exists && local_exists && local_opens_as_redb ==> r == DbPlacement::MoveLocal,
        !destination_exists && local_exists && !local_opens_as_redb && local_is_sqlite ==> r == DbPlacement::MigrateLocal,
        !destination_exists && local_exists && !local_opens_as_redb && !local_is_sqlite ==> r == DbPlacement::BackupLocal,
{
    if destination_exists || !local_exists {
        DbPlacement::UseDestination
    } else if local_opens_as_redb {
        DbPlacement::MoveLocal
    } else if local_is_sqlite {
        DbPlacement::MigrateLocal
    } else {
        DbPlacement::BackupLocal
    }
}

// ---------------------------------------------------------------------------
// Answers and leftovers of the tools.
// ---------------------------------------------------------------------------

/// Whether an answer to "Proceed with the changes?" agrees: `y` or `yes`
/// in any case, around white space.
pub fn confirmed(answer: &str) -> (r: bool)
    ensures
        r == (lowercase(trim(answer@)) == "y"@ || lowercase(trim(answer@)) == "yes"@),
{
    let t = string_from_chars(trim_str(answer).as_slice());
    let low = to_lowercase(t.as_str());
    str_eq(low.as_str(), "y") || str_eq(low.as_str(), "yes")
}

/// Whether an answer to "Reset to default settings?" agrees: `y` or `Y`
/// around white space.
pub fn reset_confirmed(answer: &str) -> (r: bool)
    ensures
        r == (trim(answer@) == "y"@ || trim(answer@) == "Y"@),
{
    let t = string_from_chars(trim_str(answer).as_slice());
    str_eq(t.as_str(), "y") || str_eq(t.as_str(), "Y")
}

/// Whether a file in the working folder is a backup of the local database.
pub open spec fn is_backup_file_spec(name: Seq<char>) -> bool {
    "jobseeker.db.sqlite.bak"@.is_prefix_of(name) || "jobseeker.db.bak."@.is_prefix_of(name)
        || "jobseeker.db.backup"@.is_prefix_of(name)
}

pub fn is_backup_file(name: &str) -> (r: bool)
    ensures
        r == is_backup_file_spec(name@),
{
    let v = chars_of(name);
    starts_with_chars(v.as_slice(), chars_of("jobseeker.db.sqlite.bak").as_slice())
        || starts_with_chars(v.as_slice(), chars_of("jobseeker.db.bak.").as_slice())
        || starts_with_chars(v.as_slice(), chars_of("jobseeker.db.backup").as_slice())
}

/// The settings the reset tool writes under the legacy key.
pub fn reset_settings_json() -> (r: &'static str)
    ensures
        r@ == "{\n            \"keywords\": \"it\",\n            \"blacklist_keywords\": \"barnvakt, körkort, barnflicka, nanny, myNanny, undersköterska, parkarbetare\",\n            \"locations_p1\": \"1283, 1277, 1260, 1292, 1284, 1276, 1231, 1282, 1261\",\n            \"locations_p2\": \"1280, 1281\",\n            \"locations_p3\": \"\",\n            \"my_profile\": \"Jag är en serviceinriktad person med erfarenhet inom IT-support och kundservice.\",\n            \"ollama_url\": \"http://localhost:11434/v1\",\n            \"app_min_count\": 6,\n            \"app_goal_count\": 12,\n            \"show_motivation\": true\n        }"@,
{
    "{\n            \"keywords\": \"it\",\n            \"blacklist_keywords\": \"barnvakt, körkort, barnflicka, nanny, myNanny, undersköterska, parkarbetare\",\n            \"locations_p1\": \"1283, 1277, 1260, 1292, 1284, 1276, 1231, 1282, 1261\",\n            \"locations_p2\": \"1280, 1281\",\n            \"locations_p3\": \"\",\n            \"my_profile\": \"Jag är en serviceinriktad person med erfarenhet inom IT-support och kundservice.\",\n            \"ollama_url\": \"http://localhost:11434/v1\",\n            \"app_min_count\": 6,\n            \"app_goal_count\": 12,\n            \"show_motivation\": true\n        }"
}

/// The value a missing field is given.
#[derive(Debug, Clone, Copy, PartialEq, Eq, Structural)]
pub enum FieldDefault {
    False,
    Zero,
    Null,
}

/// The fields that old job records may lack, in the order they are checked,
/// with the value each one gets.
pub open spec fn optional_fields() -> Seq<(&'static str, FieldDefault)> {
    seq![
        ("is_read", FieldDefault::False),
        ("status", FieldDefault::Zero),
        ("rating", FieldDefault::Null),
        ("search_keyword", FieldDefault::Null),
        ("applied_at", FieldDefault::Null),
        ("bookmarked_at", FieldDefault::Null),
        ("qualifications", FieldDefault::Null),
        ("additional_information", FieldDefault::Null),
    ]
}

fn optional_fields_exec() -> (r: Vec<(&'static str, FieldDefault)>)
    ensures
        r@ == optional_fields(),
{
    vec![
        ("is_read", FieldDefault::False),
        ("status", FieldDefault::Zero),
        ("rating", FieldDefault::Null),
        ("search_keyword", FieldDefault::Null),
        ("applied_at", FieldDefault::Null),
        ("bookmarked_at", FieldDefault::Null),
        ("qualifications", FieldDefault::Null),
        ("additional_information", FieldDefault::Null),
    ]
}

pub open spec fn absent_fields(fields: Seq<(&'static str, FieldDefault)>, present: Seq<Seq<char>>) -> Seq<(&'static str, FieldDefault)>
    decreases fields.len(),
{
    if fields.len() == 0 {
        Seq::empty()
    } else if present.contains(fields.last().0@) {
        absent_fields(fields.drop_last(), present)
    } else {
        absent_fields(fields.drop_last(), present).push(fields.last())
    }
}

fn key_present(present: &Vec<String>, key: &str) -> (b: bool)
    ensures
        b == present@.map_values(|s: String| s@).contains(key@),
{
    let ghost pv = present@.map_values(|s: String| s@);
    let k = chars_of(key);
    let mut i: usize = 0;
    while i < present.len()
        invariant
            i <= present@.len(),
            pv == present@.map_values(|s: String| s@),
            k@ == key@,
            forall|j: int| 0 <= j < i ==> pv[j] != key@,
        decreases present.len() - i,
    {
        if seq_eq(chars_of(present[i].as_str()).as_slice(), k.as_slice()) {
            assert(pv[i as int] == key@);
            return true;
        }
        i = i + 1;
    }
    false
}

/// Whether a parse error of a stored ad is one that adding the missing
/// fields can mend: its message names a missing field.
pub fn is_missing_field_error(message: &str) -> (r: bool)
    ensures
        r == contains(message@, "missing field"@),
{
    contains_str(message, "missing field")
}

/// The fields a stored ad lacks, given the keys it has, with the values
/// they get when they are added.
pub fn missing_fields(present: &Vec<String>) -> (r: Vec<(&'static str, FieldDefault)>)
    ensures
        r@ == absent_fields(optional_fields(), present@.map_values(|s: String| s@)),
{
    let fields = optional_fields_exec();
    let ghost pv = present@.map_values(|s: String| s@);
    let mut r: Vec<(&'static str, FieldDefault)> = Vec::new();
    let mut i: usize = 0;
    while i < fields.len()
        invariant
            i <= fields@.len(),
            fields@ == optional_fields(),
            pv == present@.map_values(|s: String| s@),
            r@ == absent_fields(fields@.subrange(0, i as int), pv),
        decreases fields.len() - i,
    {
        assert(fields@.subrange(0, i + 1).drop_last() == fields@.subrange(0, i as int));
        let (name, d) = fields[i];
        if !key_present(present, name) {
            r.push((name, d));
        }
        i = i + 1;
    }
    assert(fields@.subrange(0, fields@.len() as int) == fields@);
    r
}

// ---------------------------------------------------------------------------
// Listing records.
// ---------------------------------------------------------------------------

/// The decimal form of a signed number.
pub open spec fn int_decimal(v: int) -> Seq<char> {
    if v < 0 {
        "-"@ + decimal((-v) as nat)
    } else {
        decimal(v as nat)
    }
}

pub fn push_i64(out: &mut Vec<char>, v: i64)
    ensures
        final(out)@ == old(out)@ + int_decimal(v as int),
{
    if v < 0 {
        out.push('-');
        proof { reveal_strlit("-"); }
        let m: u64 = ((-(v + 1)) as u64) + 1;
        push_decimal(out, m);
    } else {
        push_decimal(out, v as u64);
    }
}

/// What the dump tool reads of a stored job.
#[derive(Debug, Clone)]
pub struct DumpFields {
    pub headline: Option<String>,
    pub status: Option<i64>,
    pub bookmarked_at: Option<String>,
    pub applied_at: Option<String>,
    pub internal_created_at: Option<String>,
}

pub open spec fn or_text(o: Option<String>, d: Seq<char>) -> Seq<char> {
    match o {
        Some(s) => s@,
        None => d,
    }
}

/// One line of the dump tool's listing.
pub open spec fn pretty_line_spec(id: Seq<char>, f: DumpFields) -> Seq<char> {
    "ID="@ + id
        + " | status="@ + (match f.status { Some(v) => int_decimal(v as int), None => "<no status>"@ })
        + " | headline=\""@ + replace(or_text(f.headline, "<no headline>"@), "\n"@, " "@)
        + "\" | bookmarked_at="@ + or_text(f.bookmarked_at, Seq::empty())
        + " | applied_at="@ + or_text(f.applied_at, Seq::empty())
        + " | internal_created_at="@ + or_text(f.internal_created_at, Seq::empty())
}

fn or_text_exec(o: &Option<String>, d: &str) -> (r: Vec<char>)
    ensures
        r@ == or_text(*o, d@),
{
    match o {
        Some(s) => chars_of(s.as_str()),
        None => chars_of(d),
    }
}

pub fn pretty_line(id: &str, f: &DumpFields) -> (r: String)
    ensures
        r@ == pretty_line_spec(id@, *f),
{
    let mut v = chars_of("ID=");
    append_chars(&mut v, chars_of(id).as_slice());
    append_chars(&mut v, chars_of(" | status=").as_slice());
    match f.status {
        Some(s) => push_i64(&mut v, s),
        None => append_chars(&mut v, chars_of("<no status>").as_slice()),
    }
    append_chars(&mut v, chars_of(" | headline=\"").as_slice());
    let head = or_text_exec(&f.headline, "<no headline>");
    let nl = chars_of("\n");
    proof { reveal_strlit("\n"); }
    let clean = replace_chars(head.as_slice(), nl.as_slice(), chars_of(" ").as_slice());
    append_chars(&mut v, clean.as_slice());
    append_chars(&mut v, chars_of("\" | bookmarked_at=").as_slice());
    append_chars(&mut v, or_text_exec(&f.bookmarked_at, "").as_slice());
    append_chars(&mut v, chars_of(" | applied_at=").as_slice());
    append_chars(&mut v, or_text_exec(&f.applied_at, "").as_slice());
    append_chars(&mut v, chars_of(" | internal_created_at=").as_slice());
    append_chars(&mut v, or_text_exec(&f.internal_created_at, "").as_slice());
    proof { reveal_strlit(""); }
    string_from_chars(v.as_slice())
}

// ---------------------------------------------------------------------------
// Adding jobs from an older database.
// ---------------------------------------------------------------------------

pub open spec fn id_views(ids: Seq<String>) -> Seq<Seq<char>> {
    ids.map_values(|s: String| s@)
}

/// Splits the jobs of an older database into those the destination lacks
/// and those it already has, by id; the result
/// holds positions into `job_ids`, in order.
pub fn partition_new(job_ids: &Vec<String>, existing: &Vec<String>) -> (r: (Vec<usize>, Vec<usize>))
    ensures
        forall|k: int| 0 <= k < r.0@.len() ==> (#[trigger] r.0@[k]) < job_ids@.len()
            && !id_views(existing@).contains(job_ids@[r.0@[k] as int]@),
        forall|k: int| 0 <= k < r.1@.len() ==> (#[trigger] r.1@[k]) < job_ids@.len()
            && id_views(existing@).contains(job_ids@[r.1@[k] as int]@),
        r.0@.len() + r.1@.len() == job_ids@.len(),
        forall|a: int, b: int| 0 <= a < b < r.0@.len() ==> r.0@[a] < r.0@[b],
        forall|a: int, b: int| 0 <= a < b < r.1@.len() ==> r.1@[a] < r.1@[b],
{
    let mut fresh: Vec<usize> = Vec::new();
    let mut dup: Vec<usize> = Vec::new();
    let mut i: usize = 0;
    while i < job_ids.len()
        invariant
            i <= job_ids@.len(),
            fresh@.len() + dup@.len() == i,
            forall|k: int| 0 <= k < fresh@.len() ==> (#[trigger] fresh@[k]) < i
                && !id_views(existing@).contains(job_ids@[fresh@[k] as int]@),
            forall|k: int| 0 <= k < dup@.len() ==> (#[trigger] dup@[k]) < i
                && id_views(existing@).contains(job_ids@[dup@[k] as int]@),
            forall|a: int, b: int| 0 <= a < b < fresh@.len() ==> fresh@[a] < fresh@[b],
            forall|a: int, b: int| 0 <= a < b < dup@.len() ==> dup@[a] < dup@[b],
        decreases job_ids.len() - i,
    {
        if key_present(existing, job_ids[i].as_str()) {
            dup.push(i);
        } else {
            fresh.push(i);
        }
        i = i + 1;
    }
    (fresh, dup)
}

} // verus!
