//! CSV exports of the jobs the user has applied for, as the daily export
//! and the merge tool write them, and the choice of the newest export file.

use vstd::prelude::*;
use crate::models::is_dashed_stamp;
use crate::text::{
    append_chars, chars_of, char_in, ends_with_chars, join, less_chars, replace, replace_chars,
    seq_less, starts_with_chars, string_from_chars, trim, trim_chars, lemma_seq_less_asymmetric,
    lemma_seq_less_transitive, lemma_seq_less_total, lemma_seq_less_irreflexive,
};

verus! {

// ---------------------------------------------------------------------------
// Quoting.
// ---------------------------------------------------------------------------

/// A field quoted for CSV: a field holding a quote, a comma or a line break
/// (`\r` too when `cr_special`) is put in quotes with its quotes doubled.
pub open spec fn quote_field(s: Seq<char>, cr_special: bool) -> Seq<char> {
    if s.contains('"') || s.contains(',') || s.contains('\n') || (cr_special && s.contains('\r')) {
        "\""@ + replace(s, "\""@, "\"\""@) + "\""@
    } else {
        s
    }
}

pub(crate) fn quote_chars(s: &[char], cr_special: bool) -> (r: Vec<char>)
    ensures
        r@ == quote_field(s@, cr_special),
{
    if char_in(s, '"') || char_in(s, ',') || char_in(s, '\n') || (cr_special && char_in(s, '\r')) {
        let q = chars_of("\"");
        let qq = chars_of("\"\"");
        proof { reveal_strlit("\""); }
        let mut r = chars_of("\"");
        let body = replace_chars(s, q.as_slice(), qq.as_slice());
        append_chars(&mut r, body.as_slice());
        append_chars(&mut r, q.as_slice());
        r
    } else {
        let r = crate::text::copy_range(s, 0, s.len());
        assert(s@.subrange(0, s@.len() as int) == s@);
        r
    }
}

/// Quotes one field as the daily export writes it: a field holding a
/// quote, a comma, `\n` or `\r` is quoted.
pub fn quote_csv_field(s: &str) -> (r: String)
    ensures
        r@ == quote_field(s@, true),
{
    let v = chars_of(s);
    let q = quote_chars(v.as_slice(), true);
    string_from_chars(q.as_slice())
}

/// One CSV row: the quoted fields separated by commas.
pub open spec fn csv_line(fields: Seq<Seq<char>>, cr_special: bool) -> Seq<char> {
    join(fields.map_values(|f: Seq<char>| quote_field(f, cr_special)), ","@)
}

/// The header line of both exports.
pub open spec fn csv_header() -> Seq<char> {
    "id,headline,employer_name,city,publication_date,applied_at\n"@
}

/// A CSV document: the header, then each row followed by a line break.
pub open spec fn csv_document(rows: Seq<Seq<Seq<char>>>, cr_special: bool) -> Seq<char>
    decreases rows.len(),
{
    if rows.len() == 0 {
        csv_header()
    } else {
        csv_document(rows.drop_last(), cr_special) + csv_line(rows.last(), cr_special) + "\n"@
    }
}

fn csv_line_of(fields: &Vec<String>, cr_special: bool) -> (r: Vec<char>)
    ensures
        r@ == csv_line(fields@.map_values(|f: String| f@), cr_special),
{
    let ghost fv = fields@.map_values(|f: String| f@);
    let mut quoted: Vec<Vec<char>> = Vec::new();
    let mut i: usize = 0;
    while i < fields.len()
        invariant
            i <= fields@.len(),
            fv == fields@.map_values(|f: String| f@),
            quoted@.len() == i,
            forall|k: int| 0 <= k < i ==> #[trigger] quoted@[k]@ == quote_field(fv[k], cr_special),
        decreases fields.len() - i,
    {
        quoted.push(quote_chars(chars_of(fields[i].as_str()).as_slice(), cr_special));
        i = i + 1;
    }
    assert(quoted@.map_values(|p: Vec<char>| p@) =~= fv.map_values(|f: Seq<char>| quote_field(f, cr_special)));
    crate::text::join_chars(&quoted, chars_of(",").as_slice())
}

/// Writes rows as a CSV document.
pub fn csv_of(rows: &Vec<Vec<String>>, cr_special: bool) -> (r: String)
    ensures
        r@ == csv_document(rows@.map_values(|row: Vec<String>| row@.map_values(|f: String| f@)), cr_special),
{
    let ghost rv = rows@.map_values(|row: Vec<String>| row@.map_values(|f: String| f@));
    let mut out = chars_of("id,headline,employer_name,city,publication_date,applied_at\n");
    let mut i: usize = 0;
    assert(rv.subrange(0, 0) == Seq::<Seq<Seq<char>>>::empty());
    while i < rows.len()
        invariant
            i <= rows@.len(),
            rv == rows@.map_values(|row: Vec<String>| row@.map_values(|f: String| f@)),
            out@ == csv_document(rv.subrange(0, i as int), cr_special),
        decreases rows.len() - i,
    {
        assert(rv.subrange(0, i + 1).drop_last() == rv.subrange(0, i as int));
        assert(rv.subrange(0, i + 1).last() == rows@[i as int]@.map_values(|f: String| f@));
        let line = csv_line_of(&rows[i], cr_special);
        append_chars(&mut out, line.as_slice());
        out.push('\n');
        proof { reveal_strlit("\n"); }
        assert(out@ == csv_document(rv.subrange(0, i + 1), cr_special));
        i = i + 1;
    }
    assert(rv.subrange(0, rows@.len() as int) == rv);
    string_from_chars(out.as_slice())
}

// ---------------------------------------------------------------------------
// The daily export.
// ---------------------------------------------------------------------------

/// What the daily export reads of one stored ad (`None` when its JSON does
/// not parse).
#[derive(Debug, Clone)]
pub struct StoredAdFields {
    pub id: Option<String>,
    pub headline: Option<String>,
    pub employer_name: Option<String>,
    pub city: Option<String>,
    pub publication_date: Option<String>,
    pub status: Option<i64>,
    pub applied_at: Option<String>,
}

pub open spec fn text_or_empty(o: Option<String>) -> Seq<char> {
    match o {
        Some(s) => s@,
        None => Seq::empty(),
    }
}

/// An ad is exported when its status is `Applied` (4) or it has an
/// application time.
pub open spec fn daily_row_selected(f: StoredAdFields) -> bool {
    (match f.status { Some(v) => v, None => 0 }) == 4 || trim(text_or_empty(f.applied_at)).len() > 0
}

pub open spec fn daily_row(f: StoredAdFields) -> Seq<Seq<char>> {
    seq![
        text_or_empty(f.id),
        text_or_empty(f.headline),
        text_or_empty(f.employer_name),
        text_or_empty(f.city),
        text_or_empty(f.publication_date),
        trim(text_or_empty(f.applied_at)),
    ]
}

/// The rows of the daily export: one for each selected ad, in order.
pub open spec fn daily_rows(entries: Seq<Option<StoredAdFields>>) -> Seq<Seq<Seq<char>>>
    decreases entries.len(),
{
    if entries.len() == 0 {
        Seq::empty()
    } else {
        let rows = daily_rows(entries.drop_last());
        match entries.last() {
            Some(f) => if daily_row_selected(f) { rows.push(daily_row(f)) } else { rows },
            None => rows,
        }
    }
}

/// At most `n` rows, the first ones, under a limit of `n`.
pub open spec fn limited(rows: Seq<Seq<Seq<char>>>, limit: Option<usize>) -> Seq<Seq<Seq<char>>> {
    match limit {
        Some(n) => if rows.len() > n { rows.take(n as int) } else { rows },
        None => rows,
    }
}

/// The CSV of the daily export: the header, then the rows of the selected
/// ads under the limit.
pub open spec fn daily_csv_spec(entries: Seq<Option<StoredAdFields>>, limit: Option<usize>) -> Seq<char> {
    csv_document(limited(daily_rows(entries), limit), true)
}

pub(crate) fn opt_text(o: &Option<String>) -> (r: String)
    ensures
        r@ == text_or_empty(*o),
{
    match o {
        Some(s) => s.clone(),
        None => String::new(),
    }
}

pub fn daily_csv(entries: &Vec<Option<StoredAdFields>>, limit: Option<usize>) -> (r: String)
    ensures
        r@ == daily_csv_spec(entries@, limit),
{
    let mut rows: Vec<Vec<String>> = Vec::new();
    let mut i: usize = 0;
    while i < entries.len()
        invariant
            i <= entries@.len(),
            rows@.map_values(|row: Vec<String>| row@.map_values(|f: String| f@)) == daily_rows(entries@.subrange(0, i as int)),
            limit matches Some(n) ==> rows@.len() <= n,
        decreases entries.len() - i,
    {
        let full = match limit {
            Some(n) => rows.len() >= n,
            None => false,
        };
        if full {
            proof {
                let all = entries@;
                lemma_daily_rows_prefix(all, i as int, all.len() as int);
                assert(all.subrange(0, all.len() as int) == all);
                let pre = daily_rows(all.subrange(0, i as int));
                let whole = daily_rows(all);
                assert(limited(whole, limit) =~= pre);
            }
            return csv_of(&rows, true);
        }
        let ghost pre = entries@.subrange(0, i as int);
        assert(entries@.subrange(0, i + 1).drop_last() == pre);
        assert(entries@.subrange(0, i + 1).last() == entries@[i as int]);
        let ghost before = rows@;
        match &entries[i] {
            Some(f) => {
                let status = match f.status {
                    Some(v) => v,
                    None => 0,
                };
                let applied = trim_chars(chars_of(opt_text(&f.applied_at).as_str()).as_slice());
                if status == 4 || applied.len() > 0 {
                    let mut row: Vec<String> = Vec::new();
                    row.push(opt_text(&f.id));
                    row.push(opt_text(&f.headline));
                    row.push(opt_text(&f.employer_name));
                    row.push(opt_text(&f.city));
                    row.push(opt_text(&f.publication_date));
                    row.push(string_from_chars(applied.as_slice()));
                    assert(row@.map_values(|x: String| x@) =~= daily_row(*f));
                    rows.push(row);
                    assert(rows@.map_values(|row: Vec<String>| row@.map_values(|f: String| f@)) =~=
                        before.map_values(|row: Vec<String>| row@.map_values(|f: String| f@)).push(daily_row(*f)));
                }
            },
            None => {},
        }
        i = i + 1;
    }
    assert(entries@.subrange(0, entries@.len() as int) == entries@);
    csv_of(&rows, true)
}

/// The rows of the first ads are the first rows of all of them.
pub proof fn lemma_daily_rows_prefix(all: Seq<Option<StoredAdFields>>, i: int, m: int)
    requires
        0 <= i <= m <= all.len(),
    ensures
        daily_rows(all.subrange(0, i)).len() <= daily_rows(all.subrange(0, m)).len(),
        daily_rows(all.subrange(0, i)) == daily_rows(all.subrange(0, m)).take(daily_rows(all.subrange(0, i)).len() as int),
    decreases m - i,
{
    if m > i {
        lemma_daily_rows_prefix(all, i, m - 1);
        assert(all.subrange(0, m).drop_last() == all.subrange(0, m - 1));
        let a = daily_rows(all.subrange(0, i));
        let b = daily_rows(all.subrange(0, m - 1));
        let c = daily_rows(all.subrange(0, m));
        assert(c == b || c == b.push(c.last()));
        assert(a =~= c.take(a.len() as int));
    } else {
        let a = daily_rows(all.subrange(0, i));
        assert(a =~= a.take(a.len() as int));
    }
}

} // verus!

verus! {

// ---------------------------------------------------------------------------
// The newest export file.
// ---------------------------------------------------------------------------

pub open spec fn is_export_name(name: Seq<char>, prefix: Seq<char>) -> bool {
    prefix.is_prefix_of(name) && ".csv"@.is_suffix_of(name)
}

/// The position of the greatest name (in the order of `str`) among the
/// names that start with `prefix` and end with ".csv"; export files carry
/// their time in the name, so this is the newest export.
pub fn latest_export(names: &Vec<String>, prefix: &str) -> (r: Option<usize>)
    ensures
        r is None ==> forall|k: int| 0 <= k < names@.len() ==> !is_export_name((#[trigger] names@[k])@, prefix@),
        r matches Some(b) ==> b < names@.len() && is_export_name(names@[b as int]@, prefix@)
            && forall|k: int| 0 <= k < names@.len() && is_export_name((#[trigger] names@[k])@, prefix@)
                ==> !seq_less(names@[b as int]@, names@[k]@),
{
    let p = chars_of(prefix);
    let suffix = chars_of(".csv");
    let mut best: Option<usize> = None;
    let mut i: usize = 0;
    while i < names.len()
        invariant
            i <= names@.len(),
            p@ == prefix@,
            suffix@ == ".csv"@,
            best is None ==> forall|k: int| 0 <= k < i ==> !is_export_name((#[trigger] names@[k])@, prefix@),
            best matches Some(b) ==> b < i && is_export_name(names@[b as int]@, prefix@)
                && forall|k: int| 0 <= k < i && is_export_name((#[trigger] names@[k])@, prefix@)
                    ==> !seq_less(names@[b as int]@, names@[k]@),
        decreases names.len() - i,
    {
        let n = chars_of(names[i].as_str());
        if starts_with_chars(n.as_slice(), p.as_slice()) && ends_with_chars(n.as_slice(), suffix.as_slice()) {
            match best {
                None => {
                    proof { lemma_seq_less_irreflexive(n@); }
                    best = Some(i);
                },
                Some(b) => {
                    let cur = chars_of(names[b].as_str());
                    if less_chars(cur.as_slice(), n.as_slice()) {
                        proof {
                            lemma_seq_less_irreflexive(n@);
                            assert forall|k: int| 0 <= k < i + 1 && is_export_name((#[trigger] names@[k])@, prefix@)
                                implies !seq_less(n@, names@[k]@) by {
                                if k < i {
                                    lemma_seq_less_transitive(n@, names@[k]@, cur@);
                                    lemma_seq_less_transitive(names@[k]@, cur@, n@);
                                    lemma_seq_less_asymmetric(n@, cur@);
                                    lemma_seq_less_total(names@[k]@, cur@);
                                    lemma_seq_less_asymmetric(cur@, n@);
                                    if seq_less(n@, names@[k]@) {
                                        lemma_seq_less_transitive(cur@, n@, names@[k]@);
                                    }
                                }
                            }
                        }
                        best = Some(i);
                    }
                },
            }
        }
        i = i + 1;
    }
    best
}


// ---------------------------------------------------------------------------
// Writing the daily export.
// ---------------------------------------------------------------------------

/// Whether a new export file is written: only when the newest export
/// could not be read, or holds other content.
pub fn export_needed(latest_content: Option<&str>, csv: &str) -> (r: bool)
    ensures
        r == match latest_content {
            Some(c) => c@ != csv@,
            None => true,
        },
{
    match latest_content {
        Some(c) => !crate::text::str_eq(c, csv),
        None => true,
    }
}

/// Whether an export would hold nothing (blank once trimmed).
pub fn export_is_blank(csv: &str) -> (r: bool)
    ensures
        r == (trim(csv@).len() == 0),
{
    crate::text::trim_str(csv).len() == 0
}

/// The name of a daily export made at the time stamped `stamp`.
pub fn export_file_name(stamp: &str) -> (r: String)
    ensures
        r@ == "applied-"@ + stamp@ + ".csv"@,
{
    let mut v = chars_of("applied-");
    append_chars(&mut v, chars_of(stamp).as_slice());
    append_chars(&mut v, chars_of(".csv").as_slice());
    string_from_chars(v.as_slice())
}

/// The temporary file the copy `latest.csv` is written through.
pub fn latest_temp_name(stamp: &str) -> (r: String)
    ensures
        r@ == ".latest.tmp."@ + stamp@,
{
    let mut v = chars_of(".latest.tmp.");
    append_chars(&mut v, chars_of(stamp).as_slice());
    string_from_chars(v.as_slice())
}

/// The time stamp of a daily export: the current UTC time (`Utc::now()`)
/// formatted `%Y%m%d-%H%M%S`. Which time it is is the clock's; the form is
/// chrono's.
#[verifier::external_body]
fn export_stamp_now() -> (r: String)
    ensures
        is_dashed_stamp(r@),
{
    chrono::Utc::now().format("%Y%m%d-%H%M%S").to_string()
}

/// The name of a daily export made now, with its time stamp.
pub fn export_file_name_now() -> (r: (String, String))
    ensures
        r.0@ == "applied-"@ + r.1@ + ".csv"@,
        is_dashed_stamp(r.1@),
{
    let stamp = export_stamp_now();
    let name = export_file_name(stamp.as_str());
    (name, stamp)
}

} // verus!
