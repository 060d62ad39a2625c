//! What the job list shows: each ad as a row with a readable description,
//! the rows of a priority search limited to its municipalities, newest
//! first, and the texts and choices around a search.

use vstd::prelude::*;
use crate::models::{AdStatus, AppSettings, JobAd};
use crate::text::{append_chars, chars_of, lowercase, replace, replace_chars, string_from_chars, str_eq, to_lowercase};
use crate::text::{less_str, seq_less, decimal, push_decimal, lemma_seq_less_irreflexive, lemma_seq_less_transitive, lemma_seq_less_total, lemma_seq_less_asymmetric};
use crate::locations::{get_municipality_name, name_of};
use crate::jobs::{description_text, is_blacklisted, is_blacklisted_spec, status_number};
use crate::maintenance::{int_decimal, push_i64};
use crate::reports::{i32_or, u32_or};
use crate::text::{parse_i32, parse_i32_spec, parse_u32, parse_u32_spec, split, split_chars};
use chrono::Datelike;
use crate::reports::{city_text, employer_text, or_empty};

verus! {

// ---------------------------------------------------------------------------
// Descriptions.
// ---------------------------------------------------------------------------

/// The text after the first `c` (empty when there is none).
pub open spec fn after_first(s: Seq<char>, c: char) -> Seq<char>
    decreases s.len(),
{
    if s.len() == 0 {
        s
    } else if s[0] == c {
        s.drop_first()
    } else {
        after_first(s.drop_first(), c)
    }
}

pub proof fn lemma_after_first_shorter(s: Seq<char>, c: char)
    ensures
        after_first(s, c).len() <= s.len(),
    decreases s.len(),
{
    if s.len() > 0 && s[0] != c {
        lemma_after_first_shorter(s.drop_first(), c);
    }
}

/// The text with every span from a `<` to the next `>` removed, as
/// replacing the pattern `<[^>]*>` with nothing does: a `<` that no `>`
/// follows stays.
pub open spec fn without_tags(s: Seq<char>) -> Seq<char>
    decreases s.len(),
{
    if s.len() == 0 {
        s
    } else if s[0] == '<' && s.drop_first().contains('>') {
        proof {
            lemma_after_first_shorter(s.drop_first(), '>');
        }
        without_tags(after_first(s.drop_first(), '>'))
    } else {
        seq![s[0]] + without_tags(s.drop_first())
    }
}

/// Removes what the pattern `<[^>]*>` matches (`Regex::replace_all` with an
/// empty replacement): leftmost matches, each from a `<` through the next
/// `>`.
#[verifier::external_body]
fn strip_html_tags(s: &str) -> (r: String)
    ensures
        r@ == without_tags(s@),
{
    let re = regex::Regex::new(r"<[^>]*>").expect("the pattern is valid");
    re.replace_all(s, "").to_string()
}

/// The HTML markup of a description turned into plain lines: list items
/// become bullets, breaks and paragraphs become line breaks, emphasis is
/// dropped (the replacements in this order).
pub open spec fn formatted_markup(s: Seq<char>) -> Seq<char> {
    let s1 = replace(s, "<li>"@, "\n • "@);
    let s2 = replace(s1, "</li>"@, ""@);
    let s3 = replace(s2, "<ul>"@, "\n"@);
    let s4 = replace(s3, "</ul>"@, "\n"@);
    let s5 = replace(s4, "<br>"@, "\n"@);
    let s6 = replace(s5, "<br/>"@, "\n"@);
    let s7 = replace(s6, "<br />"@, "\n"@);
    let s8 = replace(s7, "<p>"@, "\n\n"@);
    let s9 = replace(s8, "</p>"@, ""@);
    let s10 = replace(s9, "<strong>"@, ""@);
    let s11 = replace(s10, "</strong>"@, ""@);
    let s12 = replace(s11, "<b>"@, ""@);
    replace(s12, "</b>"@, ""@)
}

/// The description a row shows: the markup turned into lines, the rest of
/// the tags removed, and a note where a driving licence is required.
pub open spec fn clean_description_spec(raw: Seq<char>, driving_license_required: bool) -> Seq<char> {
    without_tags(formatted_markup(raw)) + if driving_license_required {
        "\n\nKÖRKORT:\n • Krav på körkort\n"@
    } else {
        Seq::empty()
    }
}

/// A text with no `<` in it.
pub open spec fn no_markup(s: Seq<char>) -> bool {
    forall|i: int| 0 <= i < s.len() ==> #[trigger] s[i] != '<'
}

/// A replacement of a pattern that starts with `<` leaves a text without
/// `<` in front as it is.
proof fn lemma_replace_after_plain(x: Seq<char>, y: Seq<char>, pat: Seq<char>, rep: Seq<char>)
    requires
        pat.len() > 0,
        pat[0] == '<',
        no_markup(x),
    ensures
        replace(x + y, pat, rep) == x + replace(y, pat, rep),
    decreases x.len(),
{
    if x.len() > 0 {
        let s = x + y;
        assert(s[0] == x[0]);
        assert(!pat.is_prefix_of(s)) by {
            if pat.is_prefix_of(s) {
                assert(s.subrange(0, pat.len() as int)[0] == pat[0]);
            }
        }
        assert(s.drop_first() =~= x.drop_first() + y);
        lemma_replace_after_plain(x.drop_first(), y, pat, rep);
        assert(seq![s[0]] + (x.drop_first() + replace(y, pat, rep)) =~= x + replace(y, pat, rep));
    } else {
        assert(x + y =~= y);
        assert(x + replace(y, pat, rep) =~= replace(y, pat, rep));
    }
}

/// A text without `<` goes through a replacement of such a pattern as it
/// is.
proof fn lemma_replace_plain(x: Seq<char>, pat: Seq<char>, rep: Seq<char>)
    requires
        pat.len() > 0,
        pat[0] == '<',
        no_markup(x),
    ensures
        replace(x, pat, rep) == x,
{
    lemma_replace_after_plain(x, Seq::empty(), pat, rep);
    assert(x + Seq::<char>::empty() =~= x);
    assert(replace(Seq::<char>::empty(), pat, rep) =~= Seq::<char>::empty());
    assert(x + Seq::<char>::empty() =~= x);
}

/// Only the pattern `<br>` itself matches at a `<br>` tag; any other
/// pattern that starts with `<` and differs from it at the given place
/// leaves the tag and the plain text after it as they are.
proof fn lemma_replace_skips_br(b: Seq<char>, pat: Seq<char>, rep: Seq<char>, k: int)
    requires
        pat.len() > 0,
        pat[0] == '<',
        no_markup(b),
        0 < k < pat.len(),
        k < 4,
        pat[k] != "<br>"@[k],
    ensures
        replace("<br>"@ + b, pat, rep) == "<br>"@ + b,
{
    reveal_strlit("<br>");
    let s = "<br>"@ + b;
    assert(!pat.is_prefix_of(s)) by {
        if pat.is_prefix_of(s) {
            assert(s.subrange(0, pat.len() as int)[k] == s[k]);
        }
    }
    let rest = s.drop_first();
    assert(no_markup(rest)) by {
        assert forall|i: int| 0 <= i < rest.len() implies #[trigger] rest[i] != '<' by {
            if i >= 3 {
                assert(rest[i] == b[i - 3]);
            }
        }
    }
    lemma_replace_plain(rest, pat, rep);
    assert(seq![s[0]] + rest =~= s);
}

/// Each `<br>` between two pieces of plain text (no `<` in them) becomes a
/// line break in the shown description: the first piece, a line feed, the
/// second piece.
pub proof fn lemma_br_becomes_line_break(a: Seq<char>, b: Seq<char>)
    requires
        no_markup(a),
        no_markup(b),
    ensures
        clean_description_spec(a + "<br>"@ + b, false) == a + "\n"@ + b,
{
    reveal_strlit("<li>");
    reveal_strlit("</li>");
    reveal_strlit("<ul>");
    reveal_strlit("</ul>");
    reveal_strlit("<br>");
    reveal_strlit("<br/>");
    reveal_strlit("<br />");
    reveal_strlit("<p>");
    reveal_strlit("</p>");
    reveal_strlit("<strong>");
    reveal_strlit("</strong>");
    reveal_strlit("<b>");
    reveal_strlit("</b>");
    reveal_strlit("\n");
    let tail = "<br>"@ + b;
    let s = a + tail;
    assert(a + "<br>"@ + b =~= s);
    // The patterns before `<br>` keep the text as it is.
    lemma_replace_after_plain(a, tail, "<li>"@, "\n • "@);
    lemma_replace_skips_br(b, "<li>"@, "\n • "@, 1);
    lemma_replace_after_plain(a, tail, "</li>"@, ""@);
    lemma_replace_skips_br(b, "</li>"@, ""@, 1);
    lemma_replace_after_plain(a, tail, "<ul>"@, "\n"@);
    lemma_replace_skips_br(b, "<ul>"@, "\n"@, 1);
    lemma_replace_after_plain(a, tail, "</ul>"@, "\n"@);
    lemma_replace_skips_br(b, "</ul>"@, "\n"@, 1);
    let s4 = replace(replace(replace(replace(s, "<li>"@, "\n • "@), "</li>"@, ""@), "<ul>"@, "\n"@), "</ul>"@, "\n"@);
    assert(s4 == s);
    // `<br>` becomes a line feed.
    lemma_replace_after_plain(a, tail, "<br>"@, "\n"@);
    assert("<br>"@.is_prefix_of(tail)) by {
        assert(tail.subrange(0, 4) =~= "<br>"@);
    }
    assert(tail.skip(4) =~= b);
    lemma_replace_plain(b, "<br>"@, "\n"@);
    let x = a + "\n"@ + b;
    assert(replace(s, "<br>"@, "\n"@) =~= x);
    assert(no_markup(x)) by {
        assert forall|i: int| 0 <= i < x.len() implies #[trigger] x[i] != '<' by {
            if i < a.len() {
                assert(x[i] == a[i]);
            } else if i > a.len() {
                assert(x[i] == b[i - a.len() - 1]);
            }
        }
    }
    // The patterns after it find no `<`.
    lemma_replace_plain(x, "<br/>"@, "\n"@);
    lemma_replace_plain(x, "<br />"@, "\n"@);
    lemma_replace_plain(x, "<p>"@, "\n\n"@);
    lemma_replace_plain(x, "</p>"@, ""@);
    lemma_replace_plain(x, "<strong>"@, ""@);
    lemma_replace_plain(x, "</strong>"@, ""@);
    lemma_replace_plain(x, "<b>"@, ""@);
    lemma_replace_plain(x, "</b>"@, ""@);
    assert(formatted_markup(a + "<br>"@ + b) == x);
    lemma_without_tags_plain(x);
    assert(clean_description_spec(a + "<br>"@ + b, false) =~= x);
}

/// A text without `<` has no tags to remove.
proof fn lemma_without_tags_plain(x: Seq<char>)
    requires
        no_markup(x),
    ensures
        without_tags(x) == x,
    decreases x.len(),
{
    if x.len() > 0 {
        assert(x[0] != '<');
        assert(no_markup(x.drop_first())) by {
            assert forall|i: int| 0 <= i < x.drop_first().len() implies #[trigger] x.drop_first()[i] != '<' by {
                assert(x.drop_first()[i] == x[i + 1]);
            }
        }
        lemma_without_tags_plain(x.drop_first());
        assert(seq![x[0]] + x.drop_first() =~= x);
    }
}

fn replace_lit(s: Vec<char>, pat: &str, rep: &str) -> (r: Vec<char>)
    requires
        pat@.len() > 0,
    ensures
        r@ == replace(s@, pat@, rep@),
{
    let p = chars_of(pat);
    let q = chars_of(rep);
    replace_chars(s.as_slice(), p.as_slice(), q.as_slice())
}

pub fn clean_description(raw: &str, driving_license_required: bool) -> (r: String)
    ensures
        r@ == clean_description_spec(raw@, driving_license_required),
{
    proof {
        reveal_strlit("<li>");
        reveal_strlit("</li>");
        reveal_strlit("<ul>");
        reveal_strlit("</ul>");
        reveal_strlit("<br>");
        reveal_strlit("<br/>");
        reveal_strlit("<br />");
        reveal_strlit("<p>");
        reveal_strlit("</p>");
        reveal_strlit("<strong>");
        reveal_strlit("</strong>");
        reveal_strlit("<b>");
        reveal_strlit("</b>");
    }
    let s = chars_of(raw);
    let s = replace_lit(s, "<li>", "\n • ");
    let s = replace_lit(s, "</li>", "");
    let s = replace_lit(s, "<ul>", "\n");
    let s = replace_lit(s, "</ul>", "\n");
    let s = replace_lit(s, "<br>", "\n");
    let s = replace_lit(s, "<br/>", "\n");
    let s = replace_lit(s, "<br />", "\n");
    let s = replace_lit(s, "<p>", "\n\n");
    let s = replace_lit(s, "</p>", "");
    let s = replace_lit(s, "<strong>", "");
    let s = replace_lit(s, "</strong>", "");
    let s = replace_lit(s, "<b>", "");
    let s = replace_lit(s, "</b>", "");
    let text = string_from_chars(s.as_slice());
    let stripped = strip_html_tags(text.as_str());
    let mut out = chars_of(stripped.as_str());
    if driving_license_required {
        append_chars(&mut out, chars_of("\n\nKÖRKORT:\n • Krav på körkort\n").as_slice());
    }
    string_from_chars(out.as_slice())
}

/// The part of a text before its first `T` (all of it when it has none):
/// the date of an ISO time.
pub open spec fn before_t(s: Seq<char>) -> Seq<char>
    decreases s.len(),
{
    if s.len() == 0 {
        s
    } else if s[0] == 'T' {
        Seq::empty()
    } else {
        seq![s[0]] + before_t(s.drop_first())
    }
}

pub fn date_part(s: &str) -> (r: String)
    ensures
        r@ == before_t(s@),
{
    let v = chars_of(s);
    let mut i: usize = 0;
    assert(v@.take(0) + v@.skip(0) =~= v@);
    assert(v@.take(0) =~= Seq::<char>::empty());
    while i < v.len() && v[i] != 'T'
        invariant
            i <= v@.len(),
            forall|j: int| 0 <= j < i ==> v@[j] != 'T',
            before_t(v@) == v@.take(i as int) + before_t(v@.skip(i as int)),
        decreases v.len() - i,
    {
        assert(v@.skip(i as int) =~= seq![v@[i as int]] + v@.skip(i + 1));
        assert(v@.skip(i as int).drop_first() =~= v@.skip(i + 1));
        assert(v@.take(i + 1) =~= v@.take(i as int) + seq![v@[i as int]]);
        i = i + 1;
    }
    if i < v.len() {
        assert(v@.skip(i as int)[0] == 'T');
    } else {
        assert(v@.skip(i as int) =~= Seq::<char>::empty());
    }
    let r = crate::text::copy_range(v.as_slice(), 0, i);
    assert(r@ =~= v@.take(i as int));
    string_from_chars(r.as_slice())
}

// ---------------------------------------------------------------------------
// The rows of the job list.
// ---------------------------------------------------------------------------

/// One row of the job list.
#[derive(Debug, Clone)]
pub struct JobEntry {
    pub id: String,
    pub title: String,
    pub employer: String,
    pub location: String,
    pub description: String,
    pub date: String,
    pub apply_url: String,
    pub rating: i32,
    pub status: i32,
    pub status_text: String,
    pub ai_summary: String,
}

pub open spec fn apply_url_text(ad: JobAd) -> Seq<char> {
    match ad.application_details {
        Some(d) => or_empty(d.url),
        None => Seq::empty(),
    }
}

pub open spec fn status_code(status: Option<AdStatus>) -> i32 {
    match status {
        Some(s) => s.code_spec() as i32,
        None => 0i32,
    }
}

/// `e` is the row shown for `ad`.
pub open spec fn entry_shows(ad: JobAd, e: JobEntry) -> bool {
    &&& e.id@ == ad.id@
    &&& e.title@ == ad.headline@
    &&& e.employer@ == employer_text(ad)
    &&& e.location@ == city_text(ad)
    &&& e.description@ == clean_description_spec(
        match description_text(ad) { Some(t) => t, None => Seq::empty() },
        ad.driving_license_required,
    )
    &&& e.date@ == before_t(ad.publication_date@)
    &&& e.apply_url@ == apply_url_text(ad)
    &&& e.rating == (match ad.rating { Some(r) => r as i32, None => 0i32 })
    &&& e.status == status_code(ad.status)
    &&& e.status_text@ == Seq::<char>::empty()
    &&& e.ai_summary@ == Seq::<char>::empty()
}

fn opt_string(o: &Option<String>) -> (r: String)
    ensures
        r@ == or_empty(*o),
{
    match o {
        Some(s) => s.clone(),
        None => String::new(),
    }
}

/// The row the job list shows for an ad.
pub fn job_entry(ad: &JobAd) -> (e: JobEntry)
    ensures
        entry_shows(*ad, e),
{
    let employer = match &ad.employer {
        Some(e) => opt_string(&e.name),
        None => String::new(),
    };
    let location = match &ad.workplace_address {
        Some(a) => opt_string(&a.city),
        None => String::new(),
    };
    let raw: &str = match &ad.description {
        Some(d) => match &d.text {
            Some(t) => t.as_str(),
            None => "",
        },
        None => "",
    };
    proof { reveal_strlit(""); }
    let apply_url = match &ad.application_details {
        Some(d) => opt_string(&d.url),
        None => String::new(),
    };
    let rating: i32 = match ad.rating {
        Some(r) => r as i32,
        None => 0,
    };
    JobEntry {
        id: ad.id.clone(),
        title: ad.headline.clone(),
        employer,
        location,
        description: clean_description(raw, ad.driving_license_required),
        date: date_part(ad.publication_date.as_str()),
        apply_url,
        rating,
        status: status_number(ad.status),
        status_text: String::new(),
        ai_summary: String::new(),
    }
}

/// The lower-case names of the municipalities with the given codes; codes
/// that name no municipality are skipped.
pub open spec fn area_names(codes: Seq<Seq<char>>) -> Seq<Seq<char>>
    decreases codes.len(),
{
    if codes.len() == 0 {
        Seq::empty()
    } else {
        area_names(codes.drop_last()) + match name_of(codes.last()) {
            Some(n) => seq![lowercase(n)],
            None => Seq::empty(),
        }
    }
}

/// The municipality names a search for a priority is limited to; a free
/// search is not limited.
pub open spec fn priority_names(prio: Option<i32>, codes: Seq<Seq<char>>) -> Seq<Seq<char>> {
    if prio is Some { area_names(codes) } else { Seq::empty() }
}

/// An ad lies in the area of a search: the search is not limited, or the
/// ad's municipality, in lower case, is one of its names.
pub open spec fn in_area(ad: JobAd, names: Seq<Seq<char>>) -> bool {
    names.len() == 0 || match ad.workplace_address {
        Some(a) => match a.municipality {
            Some(m) => names.contains(lowercase(m@)),
            None => false,
        },
        None => false,
    }
}

pub open spec fn ads_in_area(ads: Seq<JobAd>, names: Seq<Seq<char>>) -> Seq<JobAd>
    decreases ads.len(),
{
    if ads.len() == 0 {
        Seq::empty()
    } else {
        let r = ads_in_area(ads.drop_last(), names);
        if in_area(ads.last(), names) { r.push(ads.last()) } else { r }
    }
}

/// Where a stable sort by day, newest first, puts `x` among the already
/// sorted ads.
pub open spec fn day_pos(sorted: Seq<JobAd>, x: JobAd) -> nat
    decreases sorted.len(),
{
    if sorted.len() == 0 {
        0
    } else if seq_less(before_t(sorted[0].publication_date@), before_t(x.publication_date@)) {
        0
    } else {
        1 + day_pos(sorted.drop_first(), x)
    }
}

/// The ads sorted by the day they were published, newest first; ads of the
/// same day keep their order.
pub open spec fn sort_by_day_desc(s: Seq<JobAd>) -> Seq<JobAd>
    decreases s.len(),
{
    if s.len() == 0 {
        Seq::empty()
    } else {
        let r = sort_by_day_desc(s.drop_last());
        r.insert(day_pos(r, s.last()) as int, s.last())
    }
}

/// The day an ad was published, as the list orders it.
pub open spec fn day_key(a: JobAd) -> Seq<char> {
    before_t(a.publication_date@)
}

/// No ad comes after an ad of a later day.
pub open spec fn newest_day_first(r: Seq<JobAd>) -> bool {
    forall|i: int, j: int| 0 <= i < j < r.len() ==> !seq_less(day_key(r[i]), day_key(r[j]))
}

proof fn lemma_day_pos(sorted: Seq<JobAd>, x: JobAd)
    ensures
        day_pos(sorted, x) <= sorted.len(),
        forall|k: int| 0 <= k < day_pos(sorted, x) ==> !seq_less(day_key(#[trigger] sorted[k]), day_key(x)),
        day_pos(sorted, x) < sorted.len() ==> seq_less(day_key(sorted[day_pos(sorted, x) as int]), day_key(x)),
    decreases sorted.len(),
{
    if sorted.len() > 0 && !seq_less(day_key(sorted[0]), day_key(x)) {
        lemma_day_pos(sorted.drop_first(), x);
        assert forall|k: int| 0 <= k < day_pos(sorted, x) implies !seq_less(day_key(#[trigger] sorted[k]), day_key(x)) by {
            if k > 0 {
                assert(sorted[k] == sorted.drop_first()[k - 1]);
            }
        }
    }
}

/// The list of a search is ordered newest day first, and holds exactly the
/// ads it was given, each as often as it was given.
pub proof fn lemma_sort_by_day_desc(s: Seq<JobAd>)
    ensures
        sort_by_day_desc(s).len() == s.len(),
        newest_day_first(sort_by_day_desc(s)),
        sort_by_day_desc(s).to_multiset() == s.to_multiset(),
    decreases s.len(),
{
    if s.len() > 0 {
        let r = sort_by_day_desc(s.drop_last());
        let x = s.last();
        lemma_sort_by_day_desc(s.drop_last());
        lemma_day_pos(r, x);
        let p = day_pos(r, x) as int;
        let q = r.insert(p, x);
        r.insert_ensures(p, x);
        assert forall|i: int, j: int| 0 <= i < j < q.len() implies !seq_less(day_key(q[i]), day_key(q[j])) by {
            if j < p {
            } else if j == p {
                assert(q[i] == r[i]);
            } else if i < p {
                assert(q[i] == r[i]);
                assert(q[j] == r[j - 1]);
            } else if i == p {
                assert(q[j] == r[j - 1]);
                let a = day_key(r[p]);
                let b = day_key(r[j - 1]);
                let c = day_key(x);
                lemma_seq_less_total(a, b);
                lemma_seq_less_transitive(c, b, a);
                lemma_seq_less_transitive(c, a, c);
                lemma_seq_less_irreflexive(c);
                if p < j - 1 {
                    assert(!seq_less(a, b));
                }
            } else {
                assert(q[i] == r[i - 1]);
                assert(q[j] == r[j - 1]);
            }
        }
        vstd::seq_lib::to_multiset_insert(r, p, x);
        vstd::seq_lib::to_multiset_build(s.drop_last(), x);
        assert(s.drop_last().push(x) =~= s);
        assert(q.to_multiset() == r.to_multiset().insert(x));
        assert(r.to_multiset() == s.drop_last().to_multiset());
        assert(s.to_multiset() == s.drop_last().to_multiset().insert(x));
    } else {
        assert(s =~= Seq::<JobAd>::empty());
        assert(sort_by_day_desc(s) =~= Seq::<JobAd>::empty());
    }
}

fn string_in(names: &Vec<String>, s: &str) -> (b: bool)
    ensures
        b == names@.map_values(|n: String| n@).contains(s@),
{
    let ghost views = names@.map_values(|n: String| n@);
    let mut i: usize = 0;
    while i < names.len()
        invariant
            i <= names@.len(),
            views == names@.map_values(|n: String| n@),
            forall|j: int| 0 <= j < i ==> names@[j]@ != s@,
        decreases names.len() - i,
    {
        if str_eq(names[i].as_str(), s) {
            assert(views[i as int] == s@);
            return true;
        }
        i = i + 1;
    }
    assert(!views.contains(s@)) by {
        if views.contains(s@) {
            let k = choose|k: int| 0 <= k < views.len() && views[k] == s@;
            assert(names@[k]@ == s@);
        }
    }
    false
}

fn lower_area_names(prio: Option<i32>, codes: &Vec<String>) -> (r: Vec<String>)
    ensures
        r@.map_values(|n: String| n@) == priority_names(prio, codes@.map_values(|c: String| c@)),
{
    let ghost cv = codes@.map_values(|c: String| c@);
    let mut r: Vec<String> = Vec::new();
    if prio.is_none() {
        assert(r@.map_values(|n: String| n@) =~= Seq::<Seq<char>>::empty());
        return r;
    }
    let mut i: usize = 0;
    while i < codes.len()
        invariant
            i <= codes@.len(),
            cv == codes@.map_values(|c: String| c@),
            r@.map_values(|n: String| n@) == area_names(cv.take(i as int)),
        decreases codes.len() - i,
    {
        assert(cv.take(i + 1).drop_last() =~= cv.take(i as int));
        assert(cv.take(i + 1).last() == codes@[i as int]@);
        let ghost before = r@;
        match get_municipality_name(codes[i].as_str()) {
            Some(n) => {
                let low = to_lowercase(n.as_str());
                r.push(low);
                assert(r@.map_values(|n: String| n@) =~= before.map_values(|n: String| n@).push(lowercase(n@)));
            },
            None => {},
        }
        assert(r@.map_values(|n: String| n@) =~= area_names(cv.take(i + 1)));
        i = i + 1;
    }
    assert(cv.take(codes@.len() as int) =~= cv);
    r
}

fn ad_in_area(ad: &JobAd, names: &Vec<String>) -> (b: bool)
    ensures
        b == in_area(*ad, names@.map_values(|n: String| n@)),
{
    if names.len() == 0 {
        return true;
    }
    match &ad.workplace_address {
        Some(a) => match &a.municipality {
            Some(m) => {
                let low = to_lowercase(m.as_str());
                string_in(names, low.as_str())
            },
            None => false,
        },
        None => false,
    }
}

pub open spec fn texts(v: Seq<String>) -> Seq<Seq<char>> {
    v.map_values(|c: String| c@)
}

/// The ads a search lists, in the order it lists them.
pub open spec fn listed_ads(ads: Seq<JobAd>, prio: Option<i32>, codes: Seq<String>) -> Seq<JobAd> {
    sort_by_day_desc(ads_in_area(ads, priority_names(prio, texts(codes))))
}

/// The rows of the job list after a search: the ads in the search's area,
/// newest day first, and the number of applied ads among all the ads given.
pub fn job_list(ads: Vec<JobAd>, prio: Option<i32>, municipalities: &Vec<String>) -> (r: (Vec<JobEntry>, i32))
    ensures
        r.0@.len() == listed_ads(ads@, prio, municipalities@).len(),
        forall|k: int| 0 <= k < r.0@.len() ==> entry_shows(listed_ads(ads@, prio, municipalities@)[k], #[trigger] r.0@[k]),
        r.1 == crate::reports::status_count(ads@, AdStatus::Applied) as i32,
{
    let names = lower_area_names(prio, municipalities);
    let total = ads.len();
    let ghost nv = names@.map_values(|n: String| n@);
    let ghost all = ads@;
    let mut rest = ads;
    let mut sorted: Vec<JobAd> = Vec::new();
    let mut applied: usize = 0;
    let ghost mut i: int = 0;
    assert(all.take(0) =~= Seq::<JobAd>::empty());
    while rest.len() > 0
        invariant
            0 <= i <= all.len(),
            rest@ == all.skip(i),
            nv == names@.map_values(|n: String| n@),
            sorted@ == sort_by_day_desc(ads_in_area(all.take(i), nv)),
            applied == crate::reports::status_count(all.take(i), AdStatus::Applied),
            applied <= i,
            all.len() == total,
        decreases rest@.len(),
    {
        let ad = rest.remove(0);
        assert(ad == all[i]);
        assert(all.take(i + 1).drop_last() =~= all.take(i));
        assert(all.take(i + 1).last() == ad);
        assert(rest@ =~= all.skip(i + 1));
        if ad.status == Some(AdStatus::Applied) {
            applied = applied + 1;
        }
        let ghost sel_old = ads_in_area(all.take(i), nv);
        let ghost sel_new = ads_in_area(all.take(i + 1), nv);
        if ad_in_area(&ad, &names) {
            assert(sel_new == sel_old.push(ad));
            assert(sel_new.drop_last() == sel_old);
            let ghost before = sorted@;
            let day = date_part(ad.publication_date.as_str());
            let mut j: usize = 0;
            assert(before.skip(0) == before);
            while j < sorted.len() && !less_str(date_part(sorted[j].publication_date.as_str()).as_str(), day.as_str())
                invariant
                    j <= sorted@.len(),
                    sorted@ == before,
                    day@ == before_t(ad.publication_date@),
                    day_pos(before, ad) == j + day_pos(before.skip(j as int), ad),
                decreases sorted.len() - j,
            {
                assert(before.skip(j as int).drop_first() == before.skip(j + 1));
                j = j + 1;
            }
            assert(day_pos(before, ad) == j);
            sorted.insert(j, ad);
            assert(sorted@ == sort_by_day_desc(sel_new));
        } else {
            assert(sel_new == sel_old);
        }
        proof { i = i + 1; }
    }
    assert(all.take(all.len() as int) =~= all);
    let mut entries: Vec<JobEntry> = Vec::new();
    let mut k: usize = 0;
    while k < sorted.len()
        invariant
            k <= sorted@.len(),
            entries@.len() == k,
            forall|m: int| 0 <= m < k ==> entry_shows(sorted@[m], #[trigger] entries@[m]),
        decreases sorted.len() - k,
    {
        entries.push(job_entry(&sorted[k]));
        k = k + 1;
    }
    (entries, #[verifier::truncate] (applied as i32))
}

// ---------------------------------------------------------------------------
// Around a search.
// ---------------------------------------------------------------------------

/// What a search looks for and where: a free search looks for the words
/// typed, anywhere; a priority search for the saved keywords in that
/// priority's locations (priority 1 for an unknown number).
pub open spec fn search_inputs_spec(
    free_query: Option<Seq<char>>,
    prio: Option<i32>,
    keywords: Seq<char>,
    p1: Seq<char>,
    p2: Seq<char>,
    p3: Seq<char>,
) -> (Seq<char>, Seq<char>) {
    match (free_query, prio) {
        (Some(q), _) => (q, Seq::empty()),
        (None, Some(p)) => (keywords, if p == 2 { p2 } else if p == 3 { p3 } else { p1 }),
        _ => (Seq::empty(), Seq::empty()),
    }
}

pub fn search_inputs(free_query: Option<String>, prio: Option<i32>, settings: &AppSettings) -> (r: (String, String))
    ensures
        (r.0@, r.1@) == search_inputs_spec(
            match free_query { Some(q) => Some(q@), None => None },
            prio,
            settings.keywords@,
            settings.locations_p1@,
            settings.locations_p2@,
            settings.locations_p3@,
        ),
{
    match (free_query, prio) {
        (Some(q), _) => (q, String::new()),
        (None, Some(p)) => {
            let locs = if p == 2 {
                settings.locations_p2.clone()
            } else if p == 3 {
                settings.locations_p3.clone()
            } else {
                settings.locations_p1.clone()
            };
            (settings.keywords.clone(), locs)
        },
        _ => (String::new(), String::new()),
    }
}

pub open spec fn str_view(a: Option<&str>) -> Option<Seq<char>> {
    match a {
        Some(s) => Some(s@),
        None => None,
    }
}

/// The month a search lists: the active month `YYYY-MM` where it reads as
/// two parts, each part that is not a number replaced by the current year
/// or month; the current month where there is no active month of two parts.
pub open spec fn search_month_spec(active: Option<Seq<char>>, now_year: i32, now_month: u32) -> (i32, u32) {
    match active {
        Some(s) => {
            let parts = split(s, '-');
            if parts.len() == 2 {
                (i32_or(parse_i32_spec(parts[0]), now_year), u32_or(parse_u32_spec(parts[1]), now_month))
            } else {
                (now_year, now_month)
            }
        },
        None => (now_year, now_month),
    }
}

pub fn search_month(active: Option<&str>, now_year: i32, now_month: u32) -> (r: (i32, u32))
    ensures
        r == search_month_spec(str_view(active), now_year, now_month),
{
    match active {
        Some(s) => {
            let parts = split_chars(chars_of(s).as_slice(), '-');
            if parts.len() == 2 {
                let y = match parse_i32(parts[0].as_slice()) {
                    Some(y) => y,
                    None => now_year,
                };
                let m = match parse_u32(parts[1].as_slice()) {
                    Some(m) => m,
                    None => now_month,
                };
                (y, m)
            } else {
                (now_year, now_month)
            }
        },
        None => (now_year, now_month),
    }
}

/// The current year and month in UTC (`Utc::now()`, `year()`, `month()`).
/// Only the range of the month is stated: the value is the clock's.
#[verifier::external_body]
fn current_year_month() -> (r: (i32, u32))
    ensures
        1 <= r.1 <= 12,
{
    let now = chrono::Utc::now();
    (now.year(), now.month())
}

/// The month a search lists, taking the current month from the clock.
pub fn search_month_now(active: Option<&str>) -> (r: (i32, u32))
    ensures
        exists|y: i32, m: u32| 1 <= m <= 12
            && r == #[trigger] search_month_spec(str_view(active), y, m),
{
    let (y, m) = current_year_month();
    search_month(active, y, m)
}

/// The status line while a search runs.
pub fn searching_message(prio: Option<i32>) -> (r: String)
    ensures
        r@ == "Söker efter nytt... (Visar sparade jobb för P"@ + int_decimal(match prio { Some(p) => p as int, None => 0 }),
{
    let mut out = chars_of("Söker efter nytt... (Visar sparade jobb för P");
    let p: i32 = match prio {
        Some(p) => p,
        None => 0,
    };
    push_i64(&mut out, p as i64);
    string_from_chars(out.as_slice())
}

/// The status line while the saved jobs are shown and new ones are sought.
pub fn saved_jobs_message(locations: &str) -> (r: String)
    ensures
        r@ == "Visar sparade jobb för "@ + locations@ + ". Söker efter nytt..."@,
{
    let mut out = chars_of("Visar sparade jobb för ");
    append_chars(&mut out, chars_of(locations).as_slice());
    append_chars(&mut out, chars_of(". Söker efter nytt...").as_slice());
    string_from_chars(out.as_slice())
}

/// The status line after a search.
pub fn search_done_message(new_count: u64) -> (r: String)
    ensures
        new_count > 0 ==> r@ == "Klar! Hittade "@ + decimal(new_count as nat) + " nya annonser."@,
        new_count == 0 ==> r@ == "Inga nya annonser hittades just nu."@,
{
    if new_count > 0 {
        let mut out = chars_of("Klar! Hittade ");
        push_decimal(&mut out, new_count);
        append_chars(&mut out, chars_of(" nya annonser.").as_slice());
        string_from_chars(out.as_slice())
    } else {
        "Inga nya annonser hittades just nu.".to_string()
    }
}

/// An ad a search found, as it would be saved: marked with the keyword
/// that found it and the active profile; `None` when the blacklist rejects
/// it.
pub fn found_ad(ad: JobAd, keyword: &str, profile_id: &str, blacklist: &Vec<String>) -> (r: Option<JobAd>)
    ensures
        is_blacklisted_spec(ad, blacklist@.map_values(|w: String| w@)) ==> r is None,
        !is_blacklisted_spec(ad, blacklist@.map_values(|w: String| w@)) ==> (r matches Some(a) && {
            &&& (a.search_keyword matches Some(k) && k@ == keyword@)
            &&& a.profile_id@ == profile_id@
            &&& a == (JobAd { search_keyword: a.search_keyword, profile_id: a.profile_id, ..ad })
        }),
{
    if is_blacklisted(&ad, blacklist) {
        return None;
    }
    let mut a = ad;
    a.search_keyword = Some(keyword.to_string());
    a.profile_id = profile_id.to_string();
    Some(a)
}

// ---------------------------------------------------------------------------
// Changing rows in place.
// ---------------------------------------------------------------------------

fn position_of(entries: &Vec<JobEntry>, id: &str) -> (r: Option<usize>)
    ensures
        r matches Some(k) ==> k < entries@.len() && entries@[k as int].id@ == id@
            && forall|j: int| 0 <= j < k ==> entries@[j].id@ != id@,
        r is None ==> forall|j: int| 0 <= j < entries@.len() ==> entries@[j].id@ != id@,
{
    let mut i: usize = 0;
    while i < entries.len()
        invariant
            i <= entries@.len(),
            forall|j: int| 0 <= j < i ==> entries@[j].id@ != id@,
        decreases entries.len() - i,
    {
        if str_eq(entries[i].id.as_str(), id) {
            return Some(i);
        }
        i = i + 1;
    }
    None
}

/// The rows after the analysis of one job: the first row with its id
/// shows the summary; no row changes when none has the id.
pub fn with_summary(entries: Vec<JobEntry>, id: &str, summary: String) -> (r: Vec<JobEntry>)
    ensures
        r@.len() == entries@.len(),
        forall|k: int| 0 <= k < entries@.len() ==> (#[trigger] entries@[k]).id@ != id@ ==> r@[k] == entries@[k],
        forall|k: int| 0 <= k < entries@.len() && (#[trigger] entries@[k]).id@ == id@
            && (forall|j: int| 0 <= j < k ==> entries@[j].id@ != id@)
            ==> r@[k] == (JobEntry { ai_summary: summary, ..entries@[k] }),
        forall|k: int, j: int| 0 <= j < k < entries@.len() && entries@[j].id@ == id@ ==> r@[k] == entries@[k],
{
    let mut v = entries;
    match position_of(&v, id) {
        Some(p) => {
            let ghost old_v = v@;
            let mut e = v.remove(p);
            e.ai_summary = summary;
            v.insert(p, e);
            assert forall|k: int, j: int| 0 <= j < k < old_v.len() && old_v[j].id@ == id@ implies v@[k] == old_v[k] by {
                assert(j >= p);
            }
        },
        None => {},
    }
    v
}

/// The rows after a job's status changed to the status numbered `status`:
/// the first row with its id is removed where the job was rejected (1),
/// and shows the new status otherwise.
pub fn after_status_change(entries: Vec<JobEntry>, id: &str, status: i32) -> (r: Vec<JobEntry>)
    ensures
        (forall|j: int| 0 <= j < entries@.len() ==> entries@[j].id@ != id@) ==> r@ == entries@,
        forall|p: int| 0 <= p < entries@.len() && (#[trigger] entries@[p]).id@ == id@
            && (forall|j: int| 0 <= j < p ==> entries@[j].id@ != id@) ==> {
                if status == 1 {
                    r@ == entries@.remove(p)
                } else {
                    &&& r@.len() == entries@.len()
                    &&& forall|k: int| 0 <= k < entries@.len() && k != p ==> r@[k] == entries@[k]
                    &&& r@[p] == (JobEntry { status: status, ..entries@[p] })
                }
            },
{
    let mut v = entries;
    let ghost old_v = v@;
    match position_of(&v, id) {
        Some(p) => {
            let mut e = v.remove(p);
            if status != 1 {
                e.status = status;
                v.insert(p, e);
            }
            assert forall|q: int| 0 <= q < old_v.len() && (#[trigger] old_v[q]).id@ == id@
                && (forall|j: int| 0 <= j < q ==> old_v[j].id@ != id@) implies q == p by {
                if q < p {
                } else if q > p {
                    assert(old_v[p as int].id@ == id@);
                }
            }
        },
        None => {},
    }
    v
}

} // verus!
