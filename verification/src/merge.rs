//! The merge tool: the applied jobs it exports as CSV, in a canonical
//! order, and the plan by which it merges applied jobs from an older
//! database into the destination database.

use vstd::prelude::*;
use crate::exports::{csv_header, csv_document, csv_of, opt_text, quote_chars, quote_field, text_or_empty};
use crate::text::string_from_chars;
use crate::models::is_compact_stamp;
use crate::text::{chars_of, less_chars, seq_less, lemma_seq_less_asymmetric, lemma_seq_less_transitive, lemma_seq_less_total, lemma_seq_less_irreflexive};

verus! {

// ---------------------------------------------------------------------------
// The merge tool's export.
// ---------------------------------------------------------------------------

/// Quotes one field as the merge tool writes it: a field holding a comma,
/// a quote or `\n` is quoted (`\r` alone is not).
pub fn quote_csv_field(s: &str) -> (r: String)
    ensures
        r@ == quote_field(s@, false),
{
    let v = chars_of(s);
    let q = quote_chars(v.as_slice(), false);
    string_from_chars(q.as_slice())
}

/// An applied job as the merge tool sees it, in either database.
#[derive(Debug, Clone)]
pub struct Record {
    pub id: String,
    pub headline: Option<String>,
    pub employer_name: Option<String>,
    pub city: Option<String>,
    pub publication_date: Option<String>,
    pub applied_at: Option<String>,
    pub status: Option<i64>,
    pub bookmarked_at: Option<String>,
    pub internal_created_at: Option<String>,
}

pub open spec fn record_exported(r: Record) -> bool {
    r.applied_at is Some || r.status == Some(4i64)
}

pub open spec fn record_row(r: Record) -> Seq<Seq<char>> {
    seq![
        r.id@,
        text_or_empty(r.headline),
        text_or_empty(r.employer_name),
        text_or_empty(r.city),
        text_or_empty(r.publication_date),
        text_or_empty(r.applied_at),
    ]
}

/// The export order of two rows: rows with an application time first,
/// latest time first; rows with equal times, or both without, by id.
pub open spec fn row_before(a: Seq<Seq<char>>, b: Seq<Seq<char>>) -> bool {
    if a[5].len() == 0 && b[5].len() == 0 {
        seq_less(a[0], b[0])
    } else if a[5].len() == 0 {
        false
    } else if b[5].len() == 0 {
        true
    } else {
        seq_less(b[5], a[5]) || (a[5] == b[5] && seq_less(a[0], b[0]))
    }
}

/// Where a stable sort puts `x` among sorted rows: before the first row
/// that `x` goes before.
pub open spec fn row_pos(sorted: Seq<Seq<Seq<char>>>, x: Seq<Seq<char>>) -> nat
    decreases sorted.len(),
{
    if sorted.len() == 0 {
        0
    } else if row_before(x, sorted[0]) {
        0
    } else {
        1 + row_pos(sorted.drop_first(), x)
    }
}

pub open spec fn sort_rows(s: Seq<Seq<Seq<char>>>) -> Seq<Seq<Seq<char>>>
    decreases s.len(),
{
    if s.len() == 0 {
        Seq::empty()
    } else {
        let r = sort_rows(s.drop_last());
        r.insert(row_pos(r, s.last()) as int, s.last())
    }
}

pub open spec fn exported_rows(records: Seq<Record>) -> Seq<Seq<Seq<char>>>
    decreases records.len(),
{
    if records.len() == 0 {
        Seq::empty()
    } else if record_exported(records.last()) {
        exported_rows(records.drop_last()).push(record_row(records.last()))
    } else {
        exported_rows(records.drop_last())
    }
}

/// The rows of the merge tool's export, in export order.
pub open spec fn canonical_rows_spec(records: Seq<Record>) -> Seq<Seq<Seq<char>>> {
    sort_rows(exported_rows(records))
}

pub proof fn lemma_row_pos_bound(sorted: Seq<Seq<Seq<char>>>, x: Seq<Seq<char>>)
    ensures
        row_pos(sorted, x) <= sorted.len(),
    decreases sorted.len(),
{
    if sorted.len() > 0 {
        lemma_row_pos_bound(sorted.drop_first(), x);
    }
}

fn row_before_exec(a: &Vec<String>, b: &Vec<String>) -> (r: bool)
    requires
        a@.len() == 6,
        b@.len() == 6,
    ensures
        r == row_before(a@.map_values(|f: String| f@), b@.map_values(|f: String| f@)),
{
    let a5 = chars_of(a[5].as_str());
    let b5 = chars_of(b[5].as_str());
    let a0 = chars_of(a[0].as_str());
    let b0 = chars_of(b[0].as_str());
    if a5.len() == 0 && b5.len() == 0 {
        less_chars(a0.as_slice(), b0.as_slice())
    } else if a5.len() == 0 {
        false
    } else if b5.len() == 0 {
        true
    } else {
        less_chars(b5.as_slice(), a5.as_slice())
            || (crate::text::seq_eq(a5.as_slice(), b5.as_slice()) && less_chars(a0.as_slice(), b0.as_slice()))
    }
}

pub open spec fn row_views(rows: Seq<Vec<String>>) -> Seq<Seq<Seq<char>>> {
    rows.map_values(|row: Vec<String>| row@.map_values(|f: String| f@))
}

pub fn canonical_rows_for_export(records: &Vec<Record>) -> (r: Vec<Vec<String>>)
    ensures
        row_views(r@) == canonical_rows_spec(records@),
        forall|k: int| 0 <= k < r@.len() ==> (#[trigger] r@[k])@.len() == 6,
{
    let mut sorted: Vec<Vec<String>> = Vec::new();
    let mut i: usize = 0;
    while i < records.len()
        invariant
            i <= records@.len(),
            row_views(sorted@) == sort_rows(exported_rows(records@.subrange(0, i as int))),
            forall|k: int| 0 <= k < sorted@.len() ==> (#[trigger] sorted@[k])@.len() == 6,
        decreases records.len() - i,
    {
        let ghost pre = records@.subrange(0, i as int);
        assert(records@.subrange(0, i + 1).drop_last() == pre);
        assert(records@.subrange(0, i + 1).last() == records@[i as int]);
        let rec = &records[i];
        let exported = match rec.applied_at {
            Some(_) => true,
            None => rec.status == Some(4i64),
        };
        if exported {
            let mut row: Vec<String> = Vec::new();
            row.push(rec.id.clone());
            row.push(opt_text(&rec.headline));
            row.push(opt_text(&rec.employer_name));
            row.push(opt_text(&rec.city));
            row.push(opt_text(&rec.publication_date));
            row.push(opt_text(&rec.applied_at));
            let ghost x = row@.map_values(|f: String| f@);
            assert(x =~= record_row(*rec));
            let ghost sv = row_views(sorted@);
            let mut j: usize = 0;
            assert(sv.skip(0) == sv);
            while j < sorted.len() && !row_before_exec(&row, &sorted[j])
                invariant
                    j <= sorted@.len(),
                    sv == row_views(sorted@),
                    row@.len() == 6,
                    x == row@.map_values(|f: String| f@),
                    forall|k: int| 0 <= k < sorted@.len() ==> (#[trigger] sorted@[k])@.len() == 6,
                    row_pos(sv, x) == j + row_pos(sv.skip(j as int), x),
                decreases sorted.len() - j,
            {
                assert(sv.skip(j as int)[0] == sv[j as int]);
                assert(sv.skip(j as int).drop_first() == sv.skip(j + 1));
                j = j + 1;
            }
            proof {
                if j < sorted@.len() {
                    assert(sv.skip(j as int)[0] == sv[j as int]);
                }
            }
            assert(row_pos(sv, x) == j);
            let ghost before = sorted@;
            sorted.insert(j, row);
            assert(row_views(sorted@) =~= sv.insert(j as int, x));
            assert(exported_rows(records@.subrange(0, i + 1)) == exported_rows(pre).push(x));
            assert(exported_rows(records@.subrange(0, i + 1)).drop_last() == exported_rows(pre));
            assert forall|k: int| 0 <= k < sorted@.len() implies (#[trigger] sorted@[k])@.len() == 6 by {
                if k < j {
                    assert(sorted@[k] == before[k]);
                } else if k > j {
                    assert(sorted@[k] == before[k - 1]);
                }
            }
        } else {
            assert(exported_rows(records@.subrange(0, i + 1)) == exported_rows(pre));
        }
        i = i + 1;
    }
    assert(records@.subrange(0, records@.len() as int) == records@);
    sorted
}

/// The merge tool's CSV: the canonical rows under the header.
pub fn merge_csv(records: &Vec<Record>) -> (r: String)
    ensures
        r@ == csv_document(canonical_rows_spec(records@), false),
{
    let rows = canonical_rows_for_export(records);
    csv_of(&rows, false)
}

} // verus!

verus! {

// ---------------------------------------------------------------------------
// Merging applied jobs into the destination database.
// ---------------------------------------------------------------------------

/// What the destination database holds for a job the merge tool brings in.
#[derive(Debug, Clone)]
pub struct StoredState {
    pub applied_at: Option<String>,
    pub status: Option<i64>,
}

/// A job record the merge tool writes where the destination has none.
#[derive(Debug, Clone)]
pub struct NewRecord {
    pub id: String,
    pub headline: String,
    pub employer_name: Option<String>,
    pub city: Option<String>,
    pub publication_date: String,
    pub applied_at: Option<String>,
    pub status: i64,
    pub internal_created_at: Option<String>,
}

/// What the merge tool does for one record.
#[derive(Debug, Clone)]
pub enum MergeAction {
    /// The destination already agrees.
    Keep,
    /// Set the application time (remove it for `None`) and the status.
    Update { applied_at: Option<String>, status: i64 },
    /// Write a new record.
    Insert(NewRecord),
}

pub open spec fn opt_view(o: Option<String>) -> Option<Seq<char>> {
    match o {
        Some(s) => Some(s@),
        None => None,
    }
}

pub open spec fn or_zero(o: Option<i64>) -> i64 {
    match o {
        Some(v) => v,
        None => 0,
    }
}

/// A record with an application time is stored as applied (4); otherwise
/// its own status is kept.
pub open spec fn merged_status(r: Record) -> i64 {
    if r.applied_at is Some { 4 } else { or_zero(r.status) }
}

/// The destination must change when its application time or its status
/// differs from the record's.
pub open spec fn needs_update(e: StoredState, r: Record) -> bool {
    opt_view(e.applied_at) != opt_view(r.applied_at) || or_zero(e.status) != or_zero(r.status)
}

/// Whether an action is the right one for a record, given what is stored
/// under its id.
pub open spec fn merge_action_ok(e: Option<StoredState>, r: Record, a: MergeAction) -> bool {
    match e {
        Some(st) => if needs_update(st, r) {
            a matches MergeAction::Update { applied_at, status } && opt_view(applied_at) == opt_view(r.applied_at)
                && status == merged_status(r)
        } else {
            a is Keep
        },
        None => a matches MergeAction::Insert(n) && {
            &&& n.id@ == r.id@
            &&& n.headline@ == text_or_empty(r.headline)
            &&& opt_view(n.employer_name) == opt_view(r.employer_name)
            &&& opt_view(n.city) == opt_view(r.city)
            &&& n.publication_date@ == text_or_empty(r.publication_date)
            &&& opt_view(n.applied_at) == opt_view(r.applied_at)
            &&& n.status == merged_status(r)
            &&& opt_view(n.internal_created_at) == opt_view(r.internal_created_at)
        },
    }
}

fn opt_text_eq(a: &Option<String>, b: &Option<String>) -> (r: bool)
    ensures
        r == (opt_view(*a) == opt_view(*b)),
{
    match (a, b) {
        (Some(x), Some(y)) => crate::text::str_eq(x.as_str(), y.as_str()),
        (None, None) => true,
        _ => false,
    }
}

pub fn plan_merge(existing: &Option<StoredState>, r: &Record) -> (a: MergeAction)
    ensures
        merge_action_ok(*existing, *r, a),
{
    let rs: i64 = match r.status {
        Some(v) => v,
        None => 0,
    };
    let status: i64 = match r.applied_at {
        Some(_) => 4,
        None => rs,
    };
    match existing {
        Some(st) => {
            let es: i64 = match st.status {
                Some(v) => v,
                None => 0,
            };
            if !opt_text_eq(&st.applied_at, &r.applied_at) || es != rs {
                MergeAction::Update { applied_at: r.applied_at.clone(), status }
            } else {
                MergeAction::Keep
            }
        },
        None => MergeAction::Insert(NewRecord {
            id: r.id.clone(),
            headline: opt_text(&r.headline),
            employer_name: r.employer_name.clone(),
            city: r.city.clone(),
            publication_date: opt_text(&r.publication_date),
            applied_at: r.applied_at.clone(),
            status,
            internal_created_at: r.internal_created_at.clone(),
        }),
    }
}

pub open spec fn count_inserts(actions: Seq<MergeAction>) -> nat
    decreases actions.len(),
{
    if actions.len() == 0 {
        0
    } else {
        count_inserts(actions.drop_last()) + if actions.last() is Insert { 1nat } else { 0nat }
    }
}

pub open spec fn count_updates(actions: Seq<MergeAction>) -> nat
    decreases actions.len(),
{
    if actions.len() == 0 {
        0
    } else {
        count_updates(actions.drop_last()) + if actions.last() is Update { 1nat } else { 0nat }
    }
}

/// The numbers of inserted and updated records that the merge reports.
pub fn merge_counts(actions: &Vec<MergeAction>) -> (r: (usize, usize))
    ensures
        r.0 == count_inserts(actions@),
        r.1 == count_updates(actions@),
{
    let mut ins: usize = 0;
    let mut upd: usize = 0;
    let mut i: usize = 0;
    while i < actions.len()
        invariant
            i <= actions@.len(),
            ins == count_inserts(actions@.subrange(0, i as int)),
            upd == count_updates(actions@.subrange(0, i as int)),
            ins + upd <= i,
        decreases actions.len() - i,
    {
        assert(actions@.subrange(0, i + 1).drop_last() == actions@.subrange(0, i as int));
        match &actions[i] {
            MergeAction::Insert(_) => { ins = ins + 1; },
            MergeAction::Update { .. } => { upd = upd + 1; },
            MergeAction::Keep => {},
        }
        i = i + 1;
    }
    assert(actions@.subrange(0, actions@.len() as int) == actions@);
    (ins, upd)
}

/// What the destination holds for the record after the action.
pub open spec fn state_after(e: Option<StoredState>, a: MergeAction) -> Option<StoredState> {
    match a {
        MergeAction::Keep => e,
        MergeAction::Update { applied_at, status } => Some(StoredState { applied_at, status: Some(status) }),
        MergeAction::Insert(n) => Some(StoredState { applied_at: n.applied_at, status: Some(n.status) }),
    }
}

/// Merging the same record a second time changes nothing, for a record
/// whose status agrees with its application time (no time, or status 4).
pub proof fn lemma_merge_idempotent(e: Option<StoredState>, r: Record, a: MergeAction)
    requires
        merge_action_ok(e, r, a),
        r.applied_at is None || or_zero(r.status) == 4,
    ensures
        merge_action_ok(state_after(e, a), r, MergeAction::Keep),
{
}


/// The name of a merge export made at the time stamped `stamp`.
pub fn timestamped_name_at(prefix: &str, stamp: &str) -> (r: String)
    ensures
        r@ == prefix@ + "_"@ + stamp@ + ".csv"@,
{
    let mut v = chars_of(prefix);
    crate::text::append_chars(&mut v, chars_of("_").as_slice());
    crate::text::append_chars(&mut v, chars_of(stamp).as_slice());
    crate::text::append_chars(&mut v, chars_of(".csv").as_slice());
    string_from_chars(v.as_slice())
}

/// The time stamp of a merge export: the current UTC time
/// (`Utc::now()`) formatted `%Y%m%d%H%M%S`. Which time it is is the
/// clock's; the form is chrono's.
#[verifier::external_body]
fn merge_stamp_now() -> (r: String)
    ensures
        is_compact_stamp(r@),
{
    chrono::Utc::now().format("%Y%m%d%H%M%S").to_string()
}

/// The name of a merge export made now.
pub fn timestamped_name(prefix: &str) -> (r: String)
    ensures
        exists|stamp: Seq<char>| is_compact_stamp(stamp) && r@ == #[trigger] (prefix@ + "_"@ + stamp + ".csv"@),
{
    let stamp = merge_stamp_now();
    let r = timestamped_name_at(prefix, stamp.as_str());
    assert(r@ == prefix@ + "_"@ + stamp@ + ".csv"@);
    r
}

} // verus!

