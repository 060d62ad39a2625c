//! The decisions of the application around its data: which profile it
//! starts with, the profiles it creates, the route a synchronisation takes,
//! and the names of exported documents.

use vstd::prelude::*;
use crate::models::{Profile, Timestamp};
use crate::maintenance::{int_decimal, push_i64};
use crate::text::{append_chars, chars_of, replace, replace_chars, string_from_chars, str_eq, trim, trim_str};

verus! {

// ---------------------------------------------------------------------------
// Profiles.
// ---------------------------------------------------------------------------

/// How the application starts with the profiles it finds.
#[derive(Debug, Clone, Copy, PartialEq, Eq, Structural)]
pub enum ProfileStartup {
    /// There is none: a default profile is created and used.
    CreateDefault,
    /// There is one: it is used.
    UseOnly,
    /// There are several: the user picks one.
    Pick,
}

pub fn profile_startup(count: usize) -> (r: ProfileStartup)
    ensures
        count == 0 ==> r == ProfileStartup::CreateDefault,
        count == 1 ==> r == ProfileStartup::UseOnly,
        count > 1 ==> r == ProfileStartup::Pick,
{
    if count == 0 {
        ProfileStartup::CreateDefault
    } else if count == 1 {
        ProfileStartup::UseOnly
    } else {
        ProfileStartup::Pick
    }
}

/// The profile created when there is none, made at `now`.
pub fn default_profile(now: Timestamp) -> (p: Profile)
    ensures
        p.id@ == "default"@,
        p.name@ == "Default"@,
        p.icon@ == "👤"@,
        p.created_at == now,
        p.updated_at == now,
{
    Profile {
        id: "default".to_string(),
        name: "Default".to_string(),
        icon: "👤".to_string(),
        created_at: now,
        updated_at: now,
    }
}

/// A profile the user creates at `now`, named by the user and identified by
/// the second it was made in.
pub fn new_profile(name: &str, now: Timestamp) -> (p: Profile)
    ensures
        p.id@ == "profile_"@ + int_decimal(now.secs as int),
        p.name@ == name@,
        p.icon@ == "👤"@,
        p.created_at == now,
        p.updated_at == now,
{
    let mut id = chars_of("profile_");
    push_i64(&mut id, now.secs);
    Profile {
        id: string_from_chars(id.as_slice()),
        name: name.to_string(),
        icon: "👤".to_string(),
        created_at: now,
        updated_at: now,
    }
}

/// The system log shown after a crash, with what the crash left behind.
pub fn crash_notice(content: &str) -> (r: String)
    ensures
        r@ == "PREVIOUS CRASH DETECTED:\n\n"@ + content@ + "\n\n---\n\n"@,
{
    let mut v = chars_of("PREVIOUS CRASH DETECTED:\n\n");
    append_chars(&mut v, chars_of(content).as_slice());
    append_chars(&mut v, chars_of("\n\n---\n\n").as_slice());
    string_from_chars(v.as_slice())
}

// ---------------------------------------------------------------------------
// Synchronisation.
// ---------------------------------------------------------------------------

/// The folder synchronisation uses: the saved path, trimmed; none when it
/// is empty.
pub fn sync_folder(sync_path: &str) -> (r: Option<String>)
    ensures
        trim(sync_path@).len() == 0 ==> r is None,
        trim(sync_path@).len() > 0 ==> (r matches Some(p) && p@ == trim(sync_path@)),
{
    let t = trim_str(sync_path);
    if t.len() == 0 {
        None
    } else {
        Some(string_from_chars(t.as_slice()))
    }
}

/// What a synchronisation does with the folder.
#[derive(Debug, Clone, Copy, PartialEq, Eq, Structural)]
pub enum SyncAction {
    /// Copy the database file into the empty folder.
    CopyDatabase,
    /// Merge through the JSON file in the folder.
    MergeViaJson,
    /// Write the JSON file, to be merged through from now on.
    ExportJson,
}

/// The first step of a synchronisation: an empty folder gets a copy of the
/// database; a folder with the JSON file is merged through it; a folder
/// with only a database file gets the JSON file written.
pub fn first_sync_action(database_file_exists: bool, json_file_exists: bool) -> (r: SyncAction)
    ensures
        !database_file_exists && !json_file_exists ==> r == SyncAction::CopyDatabase,
        json_file_exists ==> r == SyncAction::MergeViaJson,
        database_file_exists && !json_file_exists ==> r == SyncAction::ExportJson,
{
    if !database_file_exists && !json_file_exists {
        SyncAction::CopyDatabase
    } else if json_file_exists {
        SyncAction::MergeViaJson
    } else {
        SyncAction::ExportJson
    }
}

/// The step after the copy into an empty folder failed.
pub fn after_failed_copy(json_file_exists: bool) -> (r: SyncAction)
    ensures
        json_file_exists ==> r == SyncAction::MergeViaJson,
        !json_file_exists ==> r == SyncAction::ExportJson,
{
    if json_file_exists {
        SyncAction::MergeViaJson
    } else {
        SyncAction::ExportJson
    }
}

// ---------------------------------------------------------------------------
// Exported documents.
// ---------------------------------------------------------------------------

/// The file a document is exported to: its name with `/` replaced by `_`,
/// with `.pdf` for the PDF format and `.md` for any other.
pub open spec fn doc_file_name_spec(name: Seq<char>, format: Seq<char>) -> Seq<char> {
    replace(name, "/"@, "_"@) + if format == "pdf"@ { ".pdf"@ } else { ".md"@ }
}

pub fn doc_file_name(name: &str, format: &str) -> (r: String)
    ensures
        r@ == doc_file_name_spec(name@, format@),
{
    proof { reveal_strlit("/"); }
    let mut v = replace_chars(chars_of(name).as_slice(), chars_of("/").as_slice(), chars_of("_").as_slice());
    if str_eq(format, "pdf") {
        append_chars(&mut v, chars_of(".pdf").as_slice());
    } else {
        append_chars(&mut v, chars_of(".md").as_slice());
    }
    string_from_chars(v.as_slice())
}

} // verus!
