//! What the application decides about stored job ads, documents, dictionary
//! entries and profiles: which ads a view shows and in what order, how a
//! status change or a rating rewrites an ad, which record wins when two
//! copies meet, and how search terms and blacklists are read.

use vstd::prelude::*;
use crate::models::{AdStatus, DictEntry, JobAd, Profile, Timestamp, UserDocument};
use crate::text::{
    chars_of, concat_str, contains, contains_str, less_chars, less_str, lowercase, list_items,
    list_items_chars, parse_i32, parse_i32_spec, parse_u32, parse_u32_spec, replace, replace_chars,
    seq_less, split, split_chars, str_eq, string_from_chars, to_lowercase,
    lemma_split_nonempty,
};

verus! {

// ---------------------------------------------------------------------------
// Settings keys.
// ---------------------------------------------------------------------------

/// The key under which a profile's settings are stored; the empty profile
/// id gives the legacy key "current:".
pub open spec fn settings_key_spec(profile_id: Seq<char>) -> Seq<char> {
    "current:"@ + profile_id
}

pub fn settings_key(profile_id: &str) -> (k: String)
    ensures
        k@ == settings_key_spec(profile_id@),
{
    concat_str("current:", profile_id)
}

/// The key that settings had before profiles existed; read when no
/// settings are stored under "current:".
pub fn legacy_settings_key() -> (k: &'static str)
    ensures
        k@ == "current"@,
{
    "current"
}

/// Distinct profiles never share a settings key, so saving the settings of
/// one profile leaves those of every other profile as they were.
pub proof fn lemma_settings_key_injective(a: Seq<char>, b: Seq<char>)
    ensures
        settings_key_spec(a) == settings_key_spec(b) ==> a == b,
{
    if settings_key_spec(a) == settings_key_spec(b) {
        let p = "current:"@;
        assert(a =~= settings_key_spec(a).skip(p.len() as int));
        assert(b =~= settings_key_spec(b).skip(p.len() as int));
    }
}

/// The legacy key differs from every profile's key, so a fallback read of
/// it never returns settings saved for a profile.
pub proof fn lemma_legacy_key_distinct(a: Seq<char>)
    ensures
        settings_key_spec(a) != "current"@,
{
    reveal_strlit("current");
    reveal_strlit("current:");
    assert(settings_key_spec(a).len() >= 8);
}

/// The id of the active profile as stored; an empty one means none.
pub fn active_profile_id(stored: Option<String>) -> (r: Option<String>)
    ensures
        stored is None ==> r is None,
        stored matches Some(s) ==> (if s@.len() == 0 { r is None } else { r == Some(s) }),
{
    match stored {
        Some(s) => {
            if s.as_str().is_empty() {
                None
            } else {
                Some(s)
            }
        },
        None => None,
    }
}

// ---------------------------------------------------------------------------
// Which ads a view shows.
// ---------------------------------------------------------------------------

/// The year in a "YYYY-MM-DD…" date: the number before the first `-`, or 0
/// when that is not a number.
pub open spec fn date_year(date: Seq<char>) -> i32 {
    match parse_i32_spec(split(date, '-')[0]) {
        Some(v) => v,
        None => 0,
    }
}

/// The month in a date, when the date has a second part: the number between
/// the first and the second `-`, or 0 when that is not a number.
pub open spec fn date_month(date: Seq<char>) -> Option<u32> {
    if split(date, '-').len() < 2 {
        None
    } else {
        match parse_u32_spec(split(date, '-')[1]) {
            Some(v) => Some(v),
            None => Some(0),
        }
    }
}

pub open spec fn status_ok(status: Option<AdStatus>, filter: Seq<AdStatus>) -> bool {
    filter.len() == 0 || match status {
        Some(s) => filter.contains(s),
        None => filter.contains(AdStatus::New),
    }
}

/// An ad is shown when it belongs to the profile (any profile for the empty
/// id), its status is among the wanted ones (an ad without status counts as
/// `New`; an empty filter wants all), and its publication date lies in the
/// wanted year and month. A date without a month part passes the month
/// test.
pub open spec fn job_selected(
    ad: JobAd,
    profile_id: Seq<char>,
    filter: Seq<AdStatus>,
    year: Option<i32>,
    month: Option<u32>,
) -> bool {
    &&& (profile_id.len() == 0 || ad.profile_id@ == profile_id)
    &&& status_ok(ad.status, filter)
    &&& (year matches Some(y) ==> date_year(ad.publication_date@) == y)
    &&& (month matches Some(m) ==> (date_month(ad.publication_date@) matches Some(dm) ==> dm == m))
}

pub open spec fn select_jobs(
    ads: Seq<JobAd>,
    profile_id: Seq<char>,
    filter: Seq<AdStatus>,
    year: Option<i32>,
    month: Option<u32>,
) -> Seq<JobAd>
    decreases ads.len(),
{
    if ads.len() == 0 {
        Seq::empty()
    } else {
        let r = select_jobs(ads.drop_last(), profile_id, filter, year, month);
        if job_selected(ads.last(), profile_id, filter, year, month) {
            r.push(ads.last())
        } else {
            r
        }
    }
}

/// Where a stable sort by publication date, newest first, puts `x` among
/// the already sorted ads: after every ad that is not older.
pub open spec fn date_pos(sorted: Seq<JobAd>, x: JobAd) -> nat
    decreases sorted.len(),
{
    if sorted.len() == 0 {
        0
    } else if seq_less(sorted[0].publication_date@, x.publication_date@) {
        0
    } else {
        1 + date_pos(sorted.drop_first(), x)
    }
}

pub proof fn lemma_date_pos_bound(sorted: Seq<JobAd>, x: JobAd)
    ensures
        date_pos(sorted, x) <= sorted.len(),
    decreases sorted.len(),
{
    if sorted.len() > 0 {
        lemma_date_pos_bound(sorted.drop_first(), x);
    }
}

/// The ads sorted by publication date, newest first; ads with the same date
/// keep their order (what a stable `sort_by` on the reversed date order
/// gives).
pub open spec fn sort_by_date_desc(s: Seq<JobAd>) -> Seq<JobAd>
    decreases s.len(),
{
    if s.len() == 0 {
        Seq::empty()
    } else {
        let r = sort_by_date_desc(s.drop_last());
        r.insert(date_pos(r, s.last()) as int, s.last())
    }
}

pub proof fn lemma_sort_len(s: Seq<JobAd>)
    ensures
        sort_by_date_desc(s).len() == s.len(),
    decreases s.len(),
{
    if s.len() > 0 {
        lemma_sort_len(s.drop_last());
        lemma_date_pos_bound(sort_by_date_desc(s.drop_last()), s.last());
    }
}

/// No ad comes after an ad published later.
pub open spec fn newest_first(r: Seq<JobAd>) -> bool {
    forall|i: int, j: int| 0 <= i < j < r.len() ==> !seq_less(r[i].publication_date@, r[j].publication_date@)
}

proof fn lemma_date_pos(sorted: Seq<JobAd>, x: JobAd)
    ensures
        date_pos(sorted, x) <= sorted.len(),
        forall|k: int| 0 <= k < date_pos(sorted, x) ==> !seq_less((#[trigger] sorted[k]).publication_date@, x.publication_date@),
        date_pos(sorted, x) < sorted.len() ==> seq_less(sorted[date_pos(sorted, x) as int].publication_date@, x.publication_date@),
    decreases sorted.len(),
{
    if sorted.len() > 0 && !seq_less(sorted[0].publication_date@, x.publication_date@) {
        lemma_date_pos(sorted.drop_first(), x);
        assert forall|k: int| 0 <= k < date_pos(sorted, x) implies !seq_less((#[trigger] sorted[k]).publication_date@, x.publication_date@) by {
            if k > 0 {
                assert(sorted[k] == sorted.drop_first()[k - 1]);
            }
        }
    }
}

/// A view's jobs are ordered newest first, and are exactly the jobs that
/// passed its filters, each as often as it passed.
pub proof fn lemma_sort_by_date_desc(s: Seq<JobAd>)
    ensures
        sort_by_date_desc(s).len() == s.len(),
        newest_first(sort_by_date_desc(s)),
        sort_by_date_desc(s).to_multiset() == s.to_multiset(),
    decreases s.len(),
{
    if s.len() > 0 {
        let r = sort_by_date_desc(s.drop_last());
        let x = s.last();
        lemma_sort_by_date_desc(s.drop_last());
        lemma_date_pos(r, x);
        let p = date_pos(r, x) as int;
        let q = r.insert(p, x);
        r.insert_ensures(p, x);
        assert forall|i: int, j: int| 0 <= i < j < q.len() implies !seq_less(q[i].publication_date@, q[j].publication_date@) by {
            if j < p {
            } else if j == p {
                assert(q[i] == r[i]);
            } else if i < p {
                assert(q[i] == r[i]);
                assert(q[j] == r[j - 1]);
            } else if i == p {
                assert(q[j] == r[j - 1]);
                let a = r[p].publication_date@;
                let b = r[j - 1].publication_date@;
                let c = x.publication_date@;
                crate::text::lemma_seq_less_total(a, b);
                crate::text::lemma_seq_less_transitive(c, b, a);
                crate::text::lemma_seq_less_transitive(c, a, c);
                crate::text::lemma_seq_less_irreflexive(c);
                if p < j - 1 {
                    assert(!seq_less(a, b));
                }
            } else {
                assert(q[i] == r[i - 1]);
                assert(q[j] == r[j - 1]);
            }
        }
        vstd::seq_lib::to_multiset_insert(r, p, x);
        vstd::seq_lib::to_multiset_build(s.drop_last(), x);
        assert(s.drop_last().push(x) =~= s);
        assert(q.to_multiset() == r.to_multiset().insert(x));
        assert(r.to_multiset() == s.drop_last().to_multiset());
        assert(s.to_multiset() == s.drop_last().to_multiset().insert(x));
    } else {
        assert(s =~= Seq::<JobAd>::empty());
        assert(sort_by_date_desc(s) =~= Seq::<JobAd>::empty());
    }
}

fn status_in(filter: &[AdStatus], s: AdStatus) -> (b: bool)
    ensures
        b == filter@.contains(s),
{
    let mut i: usize = 0;
    while i < filter.len()
        invariant
            i <= filter@.len(),
            forall|j: int| 0 <= j < i ==> filter@[j] != s,
        decreases filter.len() - i,
    {
        if filter[i] == s {
            assert(filter@[i as int] == s);
            return true;
        }
        i = i + 1;
    }
    false
}

/// The ads a view keeps all passed its filters.
proof fn lemma_select_jobs_selected(ads: Seq<JobAd>, profile_id: Seq<char>, filter: Seq<AdStatus>, year: Option<i32>, month: Option<u32>)
    ensures
        forall|x: JobAd| select_jobs(ads, profile_id, filter, year, month).contains(x)
            ==> job_selected(x, profile_id, filter, year, month),
    decreases ads.len(),
{
    if ads.len() > 0 {
        lemma_select_jobs_selected(ads.drop_last(), profile_id, filter, year, month);
        let r = select_jobs(ads.drop_last(), profile_id, filter, year, month);
        assert forall|x: JobAd| select_jobs(ads, profile_id, filter, year, month).contains(x)
            implies job_selected(x, profile_id, filter, year, month) by {
            if job_selected(ads.last(), profile_id, filter, year, month) {
                let s = r.push(ads.last());
                let k = choose|k: int| 0 <= k < s.len() && s[k] == x;
                if k < r.len() {
                    assert(r[k] == x);
                }
            }
        }
    }
}

/// Every ad a view lists for a year was published in that year, whatever
/// month is asked for: the part of its publication date before the first
/// `-` reads as that year (an unreadable part counts as year 0). For a
/// month, an ad whose date has a month part was published in that month
/// (an unreadable month part counts as month 0). Every listed ad belongs to
/// the profile (any profile for the empty id) and has a wanted status.
pub proof fn lemma_listed_jobs_match_filters(
    ads: Seq<JobAd>,
    profile_id: Seq<char>,
    filter: Seq<AdStatus>,
    year: Option<i32>,
    month: Option<u32>,
    x: JobAd,
)
    requires
        sort_by_date_desc(select_jobs(ads, profile_id, filter, year, month)).contains(x),
    ensures
        year matches Some(y) ==> (match parse_i32_spec(split(x.publication_date@, '-')[0]) {
            Some(v) => v == y,
            None => y == 0,
        }),
        month matches Some(m) ==> (split(x.publication_date@, '-').len() >= 2 ==> (match parse_u32_spec(split(x.publication_date@, '-')[1]) {
            Some(v) => v == m,
            None => m == 0,
        })),
        profile_id.len() == 0 || x.profile_id@ == profile_id,
        filter.len() == 0 || filter.contains(match x.status { Some(s) => s, None => AdStatus::New }),
        ads.contains(x),
{
    let s = select_jobs(ads, profile_id, filter, year, month);
    lemma_sort_by_date_desc(s);
    let sorted = sort_by_date_desc(s);
    assert(sorted.to_multiset().count(x) > 0) by {
        let k = choose|k: int| 0 <= k < sorted.len() && sorted[k] == x;
        sorted.to_multiset_ensures();
    }
    s.to_multiset_ensures();
    assert(s.contains(x));
    lemma_select_jobs_selected(ads, profile_id, filter, year, month);
    lemma_select_jobs_in(ads, profile_id, filter, year, month);
    assert(job_selected(x, profile_id, filter, year, month));
    let d = x.publication_date@;
    if year is Some {
        assert(date_year(d) == year->0);
    }
    if month is Some && split(d, '-').len() >= 2 {
        assert(date_month(d) is Some);
    }
}

/// The ads a view keeps are among the stored ads.
proof fn lemma_select_jobs_in(ads: Seq<JobAd>, profile_id: Seq<char>, filter: Seq<AdStatus>, year: Option<i32>, month: Option<u32>)
    ensures
        forall|x: JobAd| select_jobs(ads, profile_id, filter, year, month).contains(x) ==> ads.contains(x),
    decreases ads.len(),
{
    if ads.len() > 0 {
        lemma_select_jobs_in(ads.drop_last(), profile_id, filter, year, month);
        let r = select_jobs(ads.drop_last(), profile_id, filter, year, month);
        assert forall|x: JobAd| select_jobs(ads, profile_id, filter, year, month).contains(x) implies ads.contains(x) by {
            let s = select_jobs(ads, profile_id, filter, year, month);
            let k = choose|k: int| 0 <= k < s.len() && s[k] == x;
            if job_selected(ads.last(), profile_id, filter, year, month) && k == r.len() {
                assert(ads[ads.len() - 1] == x);
            } else {
                assert(r[k] == x);
                assert(r.contains(x));
                assert(ads.drop_last().contains(x));
                let j = choose|j: int| 0 <= j < ads.drop_last().len() && ads.drop_last()[j] == x;
                assert(ads[j] == ads.drop_last()[j]);
            }
        }
    }
}

/// Whether one ad passes the view's filters.
pub fn job_passes(
    ad: &JobAd,
    profile_id: &str,
    status_filter: &[AdStatus],
    year: Option<i32>,
    month: Option<u32>,
) -> (b: bool)
    ensures
        b == job_selected(*ad, profile_id@, status_filter@, year, month),
{
    if !profile_id.is_empty() && !str_eq(ad.profile_id.as_str(), profile_id) {
        return false;
    }
    if status_filter.len() > 0 {
        let ok = match ad.status {
            Some(s) => status_in(status_filter, s),
            None => status_in(status_filter, AdStatus::New),
        };
        if !ok {
            return false;
        }
    }
    let parts = split_chars(chars_of(ad.publication_date.as_str()).as_slice(), '-');
    proof { lemma_split_nonempty(ad.publication_date@, '-'); }
    match year {
        Some(y) => {
            let v = match parse_i32(parts[0].as_slice()) {
                Some(v) => v,
                None => 0,
            };
            if v != y {
                return false;
            }
        },
        None => {},
    }
    match month {
        Some(m) => {
            if parts.len() >= 2 {
                let v = match parse_u32(parts[1].as_slice()) {
                    Some(v) => v,
                    None => 0,
                };
                if v != m {
                    return false;
                }
            }
        },
        None => {},
    }
    true
}

/// Keeps the stored ads a view shows and sorts them newest first.
pub fn filter_jobs(
    ads: Vec<JobAd>,
    profile_id: &str,
    status_filter: &[AdStatus],
    year: Option<i32>,
    month: Option<u32>,
) -> (r: Vec<JobAd>)
    ensures
        r@ == sort_by_date_desc(select_jobs(ads@, profile_id@, status_filter@, year, month)),
{
    let ghost all = ads@;
    let mut rest = ads;
    let mut result: Vec<JobAd> = Vec::new();
    let ghost mut i: int = 0;
    while rest.len() > 0
        invariant
            0 <= i <= all.len(),
            rest@ == all.skip(i),
            result@ == sort_by_date_desc(select_jobs(all.subrange(0, i), profile_id@, status_filter@, year, month)),
        decreases rest@.len(),
    {
        let ad = rest.remove(0);
        assert(ad == all[i]);
        assert(all.subrange(0, i + 1).drop_last() == all.subrange(0, i));
        assert(all.subrange(0, i + 1).last() == ad);
        assert(rest@ == all.skip(i + 1));
        let ghost sel_old = select_jobs(all.subrange(0, i), profile_id@, status_filter@, year, month);
        let ghost sel_new = select_jobs(all.subrange(0, i + 1), profile_id@, status_filter@, year, month);
        if job_passes(&ad, profile_id, status_filter, year, month) {
            assert(sel_new == sel_old.push(ad));
            assert(sel_new.drop_last() == sel_old);
            let ghost sorted = result@;
            let mut j: usize = 0;
            assert(sorted.skip(0) == sorted);
            while j < result.len() && !less_str(result[j].publication_date.as_str(), ad.publication_date.as_str())
                invariant
                    j <= result@.len(),
                    result@ == sorted,
                    date_pos(sorted, ad) == j + date_pos(sorted.skip(j as int), ad),
                decreases result.len() - j,
            {
                assert(sorted.skip(j as int).drop_first() == sorted.skip(j + 1));
                j = j + 1;
            }
            assert(date_pos(sorted, ad) == j);
            result.insert(j, ad);
            assert(result@ == sort_by_date_desc(sel_new));
        } else {
            assert(sel_new == sel_old);
        }
        proof { i = i + 1; }
    }
    assert(all.subrange(0, all.len() as int) == all);
    result
}

// ---------------------------------------------------------------------------
// Status and rating changes.
// ---------------------------------------------------------------------------

/// The ad after its status is set: the status is
/// replaced, the ad is stamped as updated, and an ad set to `Applied` is
/// stamped as applied for; every other field is kept.
pub fn with_status(ad: JobAd, status: Option<AdStatus>, now: Timestamp) -> (r: JobAd)
    ensures
        r == (JobAd {
            status: status,
            updated_at: now,
            applied_at: if status == Some(AdStatus::Applied) { Some(now) } else { ad.applied_at },
            ..ad
        }),
{
    let mut ad = ad;
    ad.status = status;
    ad.updated_at = now;
    if status == Some(AdStatus::Applied) {
        ad.applied_at = Some(now);
    }
    ad
}

/// The ad after it is rated: the rating is replaced
/// and the ad is stamped as updated; every other field is kept.
pub fn with_rating(ad: JobAd, rating: u8, now: Timestamp) -> (r: JobAd)
    ensures
        r == (JobAd { rating: Some(rating), updated_at: now, ..ad }),
{
    let mut ad = ad;
    ad.rating = Some(rating);
    ad.updated_at = now;
    ad
}

/// The status an action of the job list asks for, if it asks for one.
pub open spec fn action_target_spec(action: Seq<char>) -> Option<AdStatus> {
    if action == "reject"@ {
        Some(AdStatus::Rejected)
    } else if action == "save"@ {
        Some(AdStatus::Bookmarked)
    } else if action == "thumbsup"@ {
        Some(AdStatus::ThumbsUp)
    } else if action == "apply"@ {
        Some(AdStatus::Applied)
    } else {
        None
    }
}

pub fn action_target(action: &str) -> (r: Option<AdStatus>)
    ensures
        r == action_target_spec(action@),
{
    if str_eq(action, "reject") {
        Some(AdStatus::Rejected)
    } else if str_eq(action, "save") {
        Some(AdStatus::Bookmarked)
    } else if str_eq(action, "thumbsup") {
        Some(AdStatus::ThumbsUp)
    } else if str_eq(action, "apply") {
        Some(AdStatus::Applied)
    } else {
        None
    }
}

/// Pressing a status button again takes the status back off.
pub open spec fn toggled_spec(current: Option<AdStatus>, target: AdStatus) -> Option<AdStatus> {
    if current == Some(target) {
        None
    } else {
        Some(target)
    }
}

pub fn toggled(current: Option<AdStatus>, target: AdStatus) -> (r: Option<AdStatus>)
    ensures
        r == toggled_spec(current, target),
{
    if current == Some(target) {
        None
    } else {
        Some(target)
    }
}

/// Pressing the same status button twice leaves an ad without status, or
/// with that status, as it was.
pub proof fn lemma_toggle_twice(current: Option<AdStatus>, target: AdStatus)
    requires
        current is None || current == Some(target),
    ensures
        toggled_spec(toggled_spec(current, target), target) == current,
{
}

/// The number a list entry shows for a status (no status shows as 0).
pub fn status_number(status: Option<AdStatus>) -> (n: i32)
    ensures
        n == match status {
            Some(s) => s.code_spec() as i32,
            None => 0i32,
        },
{
    match status {
        Some(s) => s.code() as i32,
        None => 0,
    }
}

// ---------------------------------------------------------------------------
// Documents, dictionary entries and profiles.
// ---------------------------------------------------------------------------

/// The documents after one is chosen as the main CV:
/// exactly the documents with that id are main, and every document is
/// stamped as updated.
pub fn mark_main_cv(docs: Vec<UserDocument>, id: &str, now: Timestamp) -> (r: Vec<UserDocument>)
    ensures
        r@.len() == docs@.len(),
        forall|k: int| 0 <= k < r@.len() ==> {
            &&& (#[trigger] r@[k]).is_main == (docs@[k].id@ == id@)
            &&& r@[k].updated_at == now
            &&& r@[k].id == docs@[k].id
            &&& r@[k].name == docs@[k].name
            &&& r@[k].doc_type == docs@[k].doc_type
            &&& r@[k].content == docs@[k].content
            &&& r@[k].created_at == docs@[k].created_at
            &&& r@[k].profile_id == docs@[k].profile_id
        },
{
    let ghost all = docs@;
    let mut rest = docs;
    let mut r: Vec<UserDocument> = Vec::new();
    while rest.len() > 0
        invariant
            r@.len() + rest@.len() == all.len(),
            rest@ == all.skip(r@.len() as int),
            forall|k: int| 0 <= k < r@.len() ==> {
                &&& (#[trigger] r@[k]).is_main == (all[k].id@ == id@)
                &&& r@[k].updated_at == now
                &&& r@[k].id == all[k].id
                &&& r@[k].name == all[k].name
                &&& r@[k].doc_type == all[k].doc_type
                &&& r@[k].content == all[k].content
                &&& r@[k].created_at == all[k].created_at
                &&& r@[k].profile_id == all[k].profile_id
            },
        decreases rest@.len(),
    {
        let ghost k = r@.len() as int;
        let mut d = rest.remove(0);
        assert(d == all[k]);
        assert(rest@ == all.skip(k + 1));
        d.is_main = str_eq(d.id.as_str(), id);
        d.updated_at = now;
        r.push(d);
    }
    r
}

pub open spec fn belongs(owner: Seq<char>, profile_id: Seq<char>) -> bool {
    profile_id.len() == 0 || owner == profile_id
}

pub open spec fn docs_for(docs: Seq<UserDocument>, profile_id: Seq<char>) -> Seq<UserDocument>
    decreases docs.len(),
{
    if docs.len() == 0 {
        Seq::empty()
    } else if belongs(docs.last().profile_id@, profile_id) {
        docs_for(docs.drop_last(), profile_id).push(docs.last())
    } else {
        docs_for(docs.drop_last(), profile_id)
    }
}

/// The documents of a profile, all of them for the empty id.
pub fn documents_for(docs: Vec<UserDocument>, profile_id: &str) -> (r: Vec<UserDocument>)
    ensures
        r@ == docs_for(docs@, profile_id@),
{
    let ghost all = docs@;
    let mut rest = docs;
    let mut r: Vec<UserDocument> = Vec::new();
    let ghost mut i: int = 0;
    while rest.len() > 0
        invariant
            0 <= i <= all.len(),
            rest@ == all.skip(i),
            r@ == docs_for(all.subrange(0, i), profile_id@),
        decreases rest@.len(),
    {
        let d = rest.remove(0);
        assert(d == all[i]);
        assert(all.subrange(0, i + 1).drop_last() == all.subrange(0, i));
        assert(rest@ == all.skip(i + 1));
        if profile_id.is_empty() || str_eq(d.profile_id.as_str(), profile_id) {
            r.push(d);
        }
        proof { i = i + 1; }
    }
    assert(all.subrange(0, all.len() as int) == all);
    r
}

pub open spec fn entries_for(entries: Seq<DictEntry>, profile_id: Seq<char>) -> Seq<DictEntry>
    decreases entries.len(),
{
    if entries.len() == 0 {
        Seq::empty()
    } else if belongs(entries.last().profile_id@, profile_id) {
        entries_for(entries.drop_last(), profile_id).push(entries.last())
    } else {
        entries_for(entries.drop_last(), profile_id)
    }
}

/// The dictionary entries of a profile, all of them for the empty id.
pub fn dict_entries_for(entries: Vec<DictEntry>, profile_id: &str) -> (r: Vec<DictEntry>)
    ensures
        r@ == entries_for(entries@, profile_id@),
{
    let ghost all = entries@;
    let mut rest = entries;
    let mut r: Vec<DictEntry> = Vec::new();
    let ghost mut i: int = 0;
    while rest.len() > 0
        invariant
            0 <= i <= all.len(),
            rest@ == all.skip(i),
            r@ == entries_for(all.subrange(0, i), profile_id@),
        decreases rest@.len(),
    {
        let d = rest.remove(0);
        assert(d == all[i]);
        assert(all.subrange(0, i + 1).drop_last() == all.subrange(0, i));
        assert(rest@ == all.skip(i + 1));
        if profile_id.is_empty() || str_eq(d.profile_id.as_str(), profile_id) {
            r.push(d);
        }
        proof { i = i + 1; }
    }
    assert(all.subrange(0, all.len() as int) == all);
    r
}

/// Where a stable sort by creation time, oldest first, puts `x`: after every
/// profile that was not created later.
pub open spec fn created_pos(sorted: Seq<Profile>, x: Profile) -> nat
    decreases sorted.len(),
{
    if sorted.len() == 0 {
        0
    } else if sorted[0].created_at.after_spec(x.created_at) {
        0
    } else {
        1 + created_pos(sorted.drop_first(), x)
    }
}

/// The profiles in order of creation, oldest first; profiles created at the
/// same time keep their order.
pub open spec fn sort_by_created(s: Seq<Profile>) -> Seq<Profile>
    decreases s.len(),
{
    if s.len() == 0 {
        Seq::empty()
    } else {
        let r = sort_by_created(s.drop_last());
        r.insert(created_pos(r, s.last()) as int, s.last())
    }
}

pub proof fn lemma_created_pos_bound(sorted: Seq<Profile>, x: Profile)
    ensures
        created_pos(sorted, x) <= sorted.len(),
    decreases sorted.len(),
{
    if sorted.len() > 0 {
        lemma_created_pos_bound(sorted.drop_first(), x);
    }
}

/// Orders profiles by creation time, oldest first.
pub fn sort_profiles(profiles: Vec<Profile>) -> (r: Vec<Profile>)
    ensures
        r@ == sort_by_created(profiles@),
{
    let ghost all = profiles@;
    let mut rest = profiles;
    let mut result: Vec<Profile> = Vec::new();
    let ghost mut i: int = 0;
    while rest.len() > 0
        invariant
            0 <= i <= all.len(),
            rest@ == all.skip(i),
            result@ == sort_by_created(all.subrange(0, i)),
        decreases rest@.len(),
    {
        let p = rest.remove(0);
        assert(p == all[i]);
        assert(all.subrange(0, i + 1).drop_last() == all.subrange(0, i));
        assert(all.subrange(0, i + 1).last() == p);
        assert(rest@ == all.skip(i + 1));
        let ghost sorted = result@;
        let mut j: usize = 0;
        assert(sorted.skip(0) == sorted);
        while j < result.len() && !result[j].created_at.after(p.created_at)
            invariant
                j <= result@.len(),
                result@ == sorted,
                created_pos(sorted, p) == j + created_pos(sorted.skip(j as int), p),
            decreases result.len() - j,
        {
            assert(sorted.skip(j as int).drop_first() == sorted.skip(j + 1));
            j = j + 1;
        }
        assert(created_pos(sorted, p) == j);
        result.insert(j, p);
        proof { i = i + 1; }
    }
    assert(all.subrange(0, all.len() as int) == all);
    result
}

// ---------------------------------------------------------------------------
// Synchronisation: which copy wins.
// ---------------------------------------------------------------------------

/// A job ad or document from the sync file replaces the local copy when
/// there is no local copy or when it was updated later.
pub open spec fn remote_wins_spec(remote_updated: Timestamp, local_updated: Option<Timestamp>) -> bool {
    match local_updated {
        Some(l) => remote_updated.after_spec(l),
        None => true,
    }
}

pub fn remote_wins(remote_updated: Timestamp, local_updated: Option<Timestamp>) -> (b: bool)
    ensures
        b == remote_wins_spec(remote_updated, local_updated),
{
    match local_updated {
        Some(l) => remote_updated.after(l),
        None => true,
    }
}

/// Settings from the sync file replace the local ones only when local
/// settings exist and are older.
pub fn remote_settings_win(remote_updated: Timestamp, local_updated: Option<Timestamp>) -> (b: bool)
    ensures
        b == (local_updated matches Some(l) && remote_updated.after_spec(l)),
{
    match local_updated {
        Some(l) => remote_updated.after(l),
        None => false,
    }
}

/// Of two copies, at most one wins over the other.
pub proof fn lemma_merge_antisymmetric(a: Timestamp, b: Timestamp)
    ensures
        !(remote_wins_spec(a, Some(b)) && remote_wins_spec(b, Some(a))),
        remote_wins_spec(a, Some(a)) == false,
{
}

// ---------------------------------------------------------------------------
// Search terms and blacklists.
// ---------------------------------------------------------------------------

/// The search terms of a comma-separated keyword list, with double quotes
/// removed.
pub open spec fn query_terms_spec(raw: Seq<char>) -> Seq<Seq<char>> {
    list_items(raw, ',').map_values(|s: Seq<char>| replace(s, "\""@, Seq::empty()))
}

pub fn query_terms(raw: &str) -> (r: Vec<String>)
    ensures
        r@.len() == query_terms_spec(raw@).len(),
        forall|k: int| 0 <= k < r@.len() ==> #[trigger] r@[k]@ == query_terms_spec(raw@)[k],
{
    let items = list_items_chars(chars_of(raw).as_slice(), ',');
    let quote = chars_of("\"");
    proof { reveal_strlit("\""); }
    let none: Vec<char> = Vec::new();
    let mut r: Vec<String> = Vec::new();
    let mut i: usize = 0;
    while i < items.len()
        invariant
            i <= items@.len(),
            items@.len() == list_items(raw@, ',').len(),
            forall|k: int| 0 <= k < items@.len() ==> #[trigger] items@[k]@ == list_items(raw@, ',')[k],
            quote@ == "\""@,
            none@.len() == 0,
            quote@.len() > 0,
            r@.len() == i,
            forall|k: int| 0 <= k < i ==> #[trigger] r@[k]@ == query_terms_spec(raw@)[k],
        decreases items.len() - i,
    {
        let t = replace_chars(items[i].as_slice(), quote.as_slice(), none.as_slice());
        assert(none@ == Seq::<char>::empty());
        r.push(string_from_chars(t.as_slice()));
        i = i + 1;
    }
    r
}

/// The words of a blacklist: trimmed, in lower case, empty ones dropped.
pub open spec fn blacklist_words_spec(s: Seq<char>) -> Seq<Seq<char>> {
    crate::locations::without_empty(split(s, ',').map_values(|p: Seq<char>| lowercase(crate::text::trim(p))))
}

pub fn blacklist_words(s: &str) -> (r: Vec<String>)
    ensures
        r@.len() == blacklist_words_spec(s@).len(),
        forall|k: int| 0 <= k < r@.len() ==> #[trigger] r@[k]@ == blacklist_words_spec(s@)[k],
{
    let pieces = split_chars(chars_of(s).as_slice(), ',');
    let ghost mapped = split(s@, ',').map_values(|p: Seq<char>| lowercase(crate::text::trim(p)));
    let mut r: Vec<String> = Vec::new();
    let mut i: usize = 0;
    while i < pieces.len()
        invariant
            i <= pieces@.len(),
            pieces@.len() == split(s@, ',').len(),
            forall|k: int| 0 <= k < pieces@.len() ==> #[trigger] pieces@[k]@ == split(s@, ',')[k],
            mapped == split(s@, ',').map_values(|p: Seq<char>| lowercase(crate::text::trim(p))),
            r@.len() == crate::locations::without_empty(mapped.subrange(0, i as int)).len(),
            forall|k: int| 0 <= k < r@.len() ==> #[trigger] r@[k]@ == crate::locations::without_empty(mapped.subrange(0, i as int))[k],
        decreases pieces.len() - i,
    {
        assert(mapped.subrange(0, i + 1).drop_last() == mapped.subrange(0, i as int));
        let t = crate::text::trim_chars(pieces[i].as_slice());
        let low = to_lowercase(string_from_chars(t.as_slice()).as_str());
        if !low.as_str().is_empty() {
            r.push(low);
        }
        i = i + 1;
    }
    assert(mapped.subrange(0, pieces@.len() as int) == mapped);
    r
}

/// The text an ad is searched in: its description, if it has one.
pub open spec fn description_text(ad: JobAd) -> Option<Seq<char>> {
    match ad.description {
        Some(d) => match d.text {
            Some(t) => Some(t@),
            None => None,
        },
        None => None,
    }
}

/// An ad is blacklisted when a blacklist word occurs in its headline or in
/// its description, both taken in lower case.
pub open spec fn is_blacklisted_spec(ad: JobAd, words: Seq<Seq<char>>) -> bool {
    exists|k: int| 0 <= k < words.len() && (contains(lowercase(ad.headline@), #[trigger] words[k])
        || (description_text(ad) matches Some(t) && contains(lowercase(t), words[k])))
}

pub fn is_blacklisted(ad: &JobAd, words: &Vec<String>) -> (b: bool)
    ensures
        b == is_blacklisted_spec(*ad, words@.map_values(|w: String| w@)),
{
    let ghost ws = words@.map_values(|w: String| w@);
    let head = to_lowercase(ad.headline.as_str());
    let desc: Option<String> = match &ad.description {
        Some(d) => match &d.text {
            Some(t) => Some(to_lowercase(t.as_str())),
            None => None,
        },
        None => None,
    };
    let mut i: usize = 0;
    while i < words.len()
        invariant
            i <= words@.len(),
            ws == words@.map_values(|w: String| w@),
            head@ == lowercase(ad.headline@),
            desc is Some <==> description_text(*ad) is Some,
            desc matches Some(dl) ==> dl@ == lowercase(description_text(*ad)->0),
            forall|k: int| 0 <= k < i ==> !(contains(lowercase(ad.headline@), #[trigger] ws[k])
                || (description_text(*ad) matches Some(t) && contains(lowercase(t), ws[k]))),
        decreases words.len() - i,
    {
        let w = words[i].as_str();
        let hit = contains_str(head.as_str(), w) || match &desc {
            Some(dl) => contains_str(dl.as_str(), w),
            None => false,
        };
        if hit {
            assert(ws[i as int] == w@);
            return true;
        }
        i = i + 1;
    }
    false
}

} // verus!
