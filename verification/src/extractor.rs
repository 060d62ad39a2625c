//! Text extraction helpers: which document formats can be read, how the
//! body text is pulled out of an XML document, and the monthly count of
//! applications.

use vstd::prelude::*;
use crate::models::{AdStatus, JobAd};
use crate::text::{
    append_chars, chars_of, is_whitespace, join, less_chars, seq_eq, seq_less, string_from_chars,
    to_lowercase, white_space, lemma_seq_less_asymmetric, lemma_seq_less_irreflexive,
    lemma_seq_less_total, lemma_seq_less_transitive, copy_range,
};
use crate::locations::without_empty;

verus! {

// ---------------------------------------------------------------------------
// Document formats.
// ---------------------------------------------------------------------------

/// How a file is read, decided by its extension.
#[derive(Debug, Clone, PartialEq, Eq)]
pub enum DocumentKind {
    Pdf,
    Docx,
    Odt,
    PlainText,
    /// Not supported; holds the message shown to the user.
    Unsupported(String),
}

/// The message for an extension that cannot be read.
pub open spec fn unsupported_message(ext: Seq<char>) -> Seq<char> {
    "Formatet ."@ + ext + " stöds inte ännu"@
}

/// The kind of a file with the given extension, compared in lower case:
/// it decides how the text of a document is read.
pub open spec fn document_kind_spec(ext: Seq<char>) -> DocumentKind {
    let e = crate::text::lowercase(ext);
    if e == "pdf"@ {
        DocumentKind::Pdf
    } else if e == "docx"@ {
        DocumentKind::Docx
    } else if e == "odt"@ {
        DocumentKind::Odt
    } else if e == "txt"@ || e == "md"@ {
        DocumentKind::PlainText
    } else {
        DocumentKind::Unsupported(arbitrary())
    }
}

pub fn document_kind(ext: &str) -> (k: DocumentKind)
    ensures
        !(k is Unsupported) ==> k == document_kind_spec(ext@),
        k matches DocumentKind::Unsupported(m) ==> document_kind_spec(ext@) is Unsupported
            && m@ == unsupported_message(crate::text::lowercase(ext@)),
{
    let lower = to_lowercase(ext);
    let e = chars_of(lower.as_str());
    if seq_eq(e.as_slice(), chars_of("pdf").as_slice()) {
        DocumentKind::Pdf
    } else if seq_eq(e.as_slice(), chars_of("docx").as_slice()) {
        DocumentKind::Docx
    } else if seq_eq(e.as_slice(), chars_of("odt").as_slice()) {
        DocumentKind::Odt
    } else if seq_eq(e.as_slice(), chars_of("txt").as_slice()) || seq_eq(e.as_slice(), chars_of("md").as_slice()) {
        DocumentKind::PlainText
    } else {
        let mut m = chars_of("Formatet .");
        append_chars(&mut m, e.as_slice());
        append_chars(&mut m, chars_of(" stöds inte ännu").as_slice());
        DocumentKind::Unsupported(string_from_chars(m.as_slice()))
    }
}

// ---------------------------------------------------------------------------
// Body text of an XML document.
// ---------------------------------------------------------------------------

/// The state of the tag scanner after reading `s`: the text kept so far,
/// whether it is inside a tag, and whether a tag has just ended.
///
/// Characters between `<` and `>` are dropped; the first character kept
/// after a `>` is preceded by a space, so that words of neighbouring
/// elements do not run together.
pub open spec fn tag_scan(s: Seq<char>) -> (Seq<char>, bool, bool)
    decreases s.len(),
{
    if s.len() == 0 {
        (Seq::empty(), false, false)
    } else {
        let (r, inside, ended) = tag_scan(s.drop_last());
        let c = s.last();
        if c == '<' {
            (r, true, ended)
        } else if c == '>' {
            (r, false, true)
        } else if !inside {
            if ended {
                (r.push(' ').push(c), false, false)
            } else {
                (r.push(c), false, false)
            }
        } else {
            (r, inside, ended)
        }
    }
}

/// The pieces of `s` between white-space characters (empty pieces included).
pub open spec fn split_ws(s: Seq<char>) -> Seq<Seq<char>>
    decreases s.len(),
{
    if s.len() == 0 {
        seq![Seq::<char>::empty()]
    } else {
        let p = split_ws(s.drop_last());
        if white_space(s.last()) {
            p.push(Seq::<char>::empty())
        } else {
            p.update(p.len() - 1, p.last().push(s.last()))
        }
    }
}

pub proof fn lemma_split_ws_nonempty(s: Seq<char>)
    ensures
        split_ws(s).len() >= 1,
    decreases s.len(),
{
    if s.len() > 0 {
        lemma_split_ws_nonempty(s.drop_last());
    }
}

/// The words of `s`, as `str::split_whitespace` yields them.
pub open spec fn words(s: Seq<char>) -> Seq<Seq<char>> {
    without_empty(split_ws(s))
}

/// The words of `s` joined by single spaces.
pub open spec fn collapse_whitespace(s: Seq<char>) -> Seq<char> {
    join(words(s), " "@)
}

/// The body text of an XML document: the text outside tags, with the
/// white space between words reduced to single spaces.
pub open spec fn strip_xml_tags_spec(xml: Seq<char>) -> Seq<char> {
    collapse_whitespace(tag_scan(xml).0)
}

fn scan_tags(xml: &[char]) -> (r: Vec<char>)
    ensures
        r@ == tag_scan(xml@).0,
{
    let mut result: Vec<char> = Vec::new();
    let mut inside_tag = false;
    let mut last_was_tag_end = false;
    let mut i: usize = 0;
    while i < xml.len()
        invariant
            i <= xml@.len(),
            tag_scan(xml@.subrange(0, i as int)) == (result@, inside_tag, last_was_tag_end),
        decreases xml.len() - i,
    {
        assert(xml@.subrange(0, i + 1).drop_last() == xml@.subrange(0, i as int));
        let c = xml[i];
        if c == '<' {
            inside_tag = true;
        } else if c == '>' {
            inside_tag = false;
            last_was_tag_end = true;
        } else if !inside_tag {
            if last_was_tag_end {
                result.push(' ');
                last_was_tag_end = false;
            }
            result.push(c);
        }
        i = i + 1;
    }
    assert(xml@.subrange(0, xml@.len() as int) == xml@);
    result
}

/// The words of `s`, in order.
pub fn words_of(s: &[char]) -> (r: Vec<Vec<char>>)
    ensures
        r@.len() == words(s@).len(),
        forall|k: int| 0 <= k < r@.len() ==> #[trigger] r@[k]@ == words(s@)[k],
{
    let mut done: Vec<Vec<char>> = Vec::new();
    let mut cur: Vec<char> = Vec::new();
    let mut i: usize = 0;
    while i < s.len()
        invariant
            i <= s@.len(),
            split_ws(s@.subrange(0, i as int)).len() >= 1,
            done@.len() == without_empty(split_ws(s@.subrange(0, i as int)).drop_last()).len(),
            forall|k: int| 0 <= k < done@.len() ==> #[trigger] done@[k]@
                == without_empty(split_ws(s@.subrange(0, i as int)).drop_last())[k],
            cur@ == split_ws(s@.subrange(0, i as int)).last(),
        decreases s.len() - i,
    {
        let ghost pre = s@.subrange(0, i as int);
        let ghost p = split_ws(pre);
        assert(s@.subrange(0, i + 1).drop_last() == pre);
        let c = s[i];
        if is_whitespace(c) {
            assert(split_ws(s@.subrange(0, i + 1)).drop_last() == p);
            if cur.len() > 0 {
                let w = cur;
                done.push(w);
            }
            cur = Vec::new();
        } else {
            assert(split_ws(s@.subrange(0, i + 1)).drop_last() == p.drop_last());
            cur.push(c);
        }
        i = i + 1;
        proof { lemma_split_ws_nonempty(s@.subrange(0, i as int)); }
    }
    assert(s@.subrange(0, s@.len() as int) == s@);
    proof { lemma_split_ws_nonempty(s@); }
    if cur.len() > 0 {
        done.push(cur);
    }
    done
}

/// Pulls the body text out of an XML document: the text between tags.
pub fn strip_xml_tags(xml: &str) -> (r: String)
    ensures
        r@ == strip_xml_tags_spec(xml@),
{
    let scanned = scan_tags(chars_of(xml).as_slice());
    let ws = words_of(scanned.as_slice());
    let ghost views = ws@.map_values(|p: Vec<char>| p@);
    assert(views =~= words(scanned@));
    let sep = chars_of(" ");
    let joined = crate::text::join_chars(&ws, sep.as_slice());
    string_from_chars(joined.as_slice())
}

/// Why an entry of a zip archive could not be read.
#[derive(Debug, Clone)]
pub enum ZipEntryError {
    /// The bytes are not a readable zip archive; the archive's message.
    Archive(String),
    /// The archive has no readable entry of that name.
    MissingEntry,
    /// The entry could not be read as UTF-8 text; the reader's message.
    Read(String),
}

/// The UTF-8 text of the entry `name` of the zip archive `bytes`, or
/// `None` where the archive, the entry or its text cannot be read.
pub uninterp spec fn zip_entry_text(bytes: Seq<u8>, name: Seq<char>) -> Option<Seq<char>>;

/// Reads one entry of a zip archive held in memory (`ZipArchive::new` over
/// a cursor, `by_name`, `Read::read_to_string`). The result is named.
#[verifier::external_body]
fn read_zip_entry(bytes: &[u8], name: &str) -> (r: Result<String, ZipEntryError>)
    ensures
        r matches Ok(t) ==> zip_entry_text(bytes@, name@) == Some(t@),
        r is Err ==> zip_entry_text(bytes@, name@) is None,
{
    let mut archive = match zip::ZipArchive::new(std::io::Cursor::new(bytes)) {
        Ok(a) => a,
        Err(e) => return Err(ZipEntryError::Archive(e.to_string())),
    };
    let mut entry = match archive.by_name(name) {
        Ok(f) => f,
        Err(_) => return Err(ZipEntryError::MissingEntry),
    };
    let mut text = String::new();
    match std::io::Read::read_to_string(&mut entry, &mut text) {
        Ok(_) => Ok(text),
        Err(e) => Err(ZipEntryError::Read(e.to_string())),
    }
}

fn xml_entry_text(bytes: &[u8], entry: &str, missing: &str) -> (r: Result<String, String>)
    ensures
        zip_entry_text(bytes@, entry@) matches Some(x) ==> (r matches Ok(t) && t@ == strip_xml_tags_spec(x)),
        zip_entry_text(bytes@, entry@) is None ==> r is Err,
{
    match read_zip_entry(bytes, entry) {
        Ok(xml) => Ok(strip_xml_tags(xml.as_str())),
        Err(ZipEntryError::MissingEntry) => Err(missing.to_string()),
        Err(ZipEntryError::Archive(m)) => Err(m),
        Err(ZipEntryError::Read(m)) => Err(m),
    }
}

/// The body text of a Word document given as its bytes: the text of
/// `word/document.xml` without its markup.
pub fn text_of_docx(bytes: &[u8]) -> (r: Result<String, String>)
    ensures
        zip_entry_text(bytes@, "word/document.xml"@) matches Some(x) ==> (r matches Ok(t) && t@ == strip_xml_tags_spec(x)),
        zip_entry_text(bytes@, "word/document.xml"@) is None ==> r is Err,
{
    xml_entry_text(bytes, "word/document.xml", "Kunde inte hitta word/document.xml i DOCX-filen")
}

/// The body text of an OpenDocument text given as its bytes: the text of
/// `content.xml` without its markup.
pub fn text_of_odt(bytes: &[u8]) -> (r: Result<String, String>)
    ensures
        zip_entry_text(bytes@, "content.xml"@) matches Some(x) ==> (r matches Ok(t) && t@ == strip_xml_tags_spec(x)),
        zip_entry_text(bytes@, "content.xml"@) is None ==> r is Err,
{
    xml_entry_text(bytes, "content.xml", "Kunde inte hitta content.xml i ODT-filen")
}

} // verus!

verus! {

// ---------------------------------------------------------------------------
// Applications per month.
// ---------------------------------------------------------------------------

/// The number of applications made in one month.
pub struct MonthStat {
    /// The month, as the first seven characters of the publication date
    /// ("YYYY-MM").
    pub month: String,
    pub count: usize,
}

/// The first seven characters of a text (all of it when shorter).
pub open spec fn first_seven(s: Seq<char>) -> Seq<char> {
    if s.len() <= 7 {
        s
    } else {
        s.subrange(0, 7)
    }
}

pub open spec fn month_key(ad: JobAd) -> Seq<char> {
    first_seven(ad.publication_date@)
}

pub open spec fn is_applied(ad: JobAd) -> bool {
    ad.status == Some(AdStatus::Applied)
}

/// How many of the ads were applied for in month `m`.
pub open spec fn applied_in_month(ads: Seq<JobAd>, m: Seq<char>) -> nat
    decreases ads.len(),
{
    if ads.len() == 0 {
        0
    } else {
        applied_in_month(ads.drop_last(), m) + if is_applied(ads.last()) && month_key(ads.last()) == m {
            1nat
        } else {
            0nat
        }
    }
}

/// `stats` lists, in increasing order of month, every month in which one of
/// the ads was applied for, with the number of such ads.
pub open spec fn monthly_stats_ok(ads: Seq<JobAd>, stats: Seq<(Seq<char>, nat)>) -> bool {
    &&& forall|a: int, b: int| 0 <= a < b < stats.len() ==> seq_less(stats[a].0, stats[b].0)
    &&& forall|k: int| 0 <= k < stats.len() ==> (#[trigger] stats[k]).1 == applied_in_month(ads, stats[k].0)
        && stats[k].1 > 0
    &&& forall|t: int| 0 <= t < ads.len() && is_applied(#[trigger] ads[t]) ==> exists|k: int|
        0 <= k < stats.len() && (#[trigger] stats[k]).0 == month_key(ads[t])
}

pub open spec fn stat_views(stats: Seq<MonthStat>) -> Seq<(Seq<char>, nat)> {
    stats.map_values(|s: MonthStat| (s.month@, s.count as nat))
}

pub proof fn lemma_applied_in_month_bound(ads: Seq<JobAd>, m: Seq<char>)
    ensures
        applied_in_month(ads, m) <= ads.len(),
    decreases ads.len(),
{
    if ads.len() > 0 {
        lemma_applied_in_month_bound(ads.drop_last(), m);
    }
}

pub proof fn lemma_applied_in_month_witness(ads: Seq<JobAd>, m: Seq<char>)
    requires
        applied_in_month(ads, m) > 0,
    ensures
        exists|t: int| 0 <= t < ads.len() && is_applied(#[trigger] ads[t]) && month_key(ads[t]) == m,
    decreases ads.len(),
{
    if is_applied(ads.last()) && month_key(ads.last()) == m {
        assert(is_applied(ads[ads.len() - 1]));
    } else {
        lemma_applied_in_month_witness(ads.drop_last(), m);
        let t = choose|t: int| 0 <= t < ads.drop_last().len() && is_applied(#[trigger] ads.drop_last()[t])
            && month_key(ads.drop_last()[t]) == m;
        assert(ads[t] == ads.drop_last()[t]);
    }
}

fn first_seven_of(s: &str) -> (r: Vec<char>)
    ensures
        r@ == first_seven(s@),
{
    let c = chars_of(s);
    if c.len() <= 7 {
        let r = copy_range(c.as_slice(), 0, c.len());
        assert(c@.subrange(0, c@.len() as int) == c@);
        r
    } else {
        copy_range(c.as_slice(), 0, 7)
    }
}

/// Where `key` belongs in a strictly increasing list of months: the
/// first position whose month does not sort before `key`.
fn month_position(months: &Vec<Vec<char>>, key: &[char]) -> (j: usize)
    requires
        forall|a: int, b: int| 0 <= a < b < months@.len() ==> seq_less(months@[a]@, months@[b]@),
    ensures
        j <= months@.len(),
        forall|k: int| 0 <= k < j ==> seq_less(#[trigger] months@[k]@, key@),
        j < months@.len() ==> !seq_less(months@[j as int]@, key@),
{
    let mut j: usize = 0;
    while j < months.len() && less_chars(months[j].as_slice(), key)
        invariant
            j <= months@.len(),
            forall|k: int| 0 <= k < j ==> seq_less(#[trigger] months@[k]@, key@),
        decreases months.len() - j,
    {
        j = j + 1;
    }
    j
}

/// Counts, per month, the ads the user has applied for.
#[verifier::spinoff_prover]
#[verifier::rlimit(40)]
pub fn get_monthly_stats(ads: &[JobAd]) -> (r: Vec<MonthStat>)
    ensures
        monthly_stats_ok(ads@, stat_views(r@)),
{
    let mut months: Vec<Vec<char>> = Vec::new();
    let mut counts: Vec<usize> = Vec::new();
    let mut i: usize = 0;
    while i < ads.len()
        invariant
            i <= ads@.len(),
            months@.len() == counts@.len(),
            forall|a: int, b: int| 0 <= a < b < months@.len() ==> seq_less(months@[a]@, months@[b]@),
            forall|k: int| 0 <= k < months@.len() ==> counts@[k] == applied_in_month(ads@.subrange(0, i as int), (#[trigger] months@[k])@)
                && counts@[k] > 0,
            forall|t: int| 0 <= t < i && is_applied(#[trigger] ads@[t]) ==> exists|k: int|
                0 <= k < months@.len() && (#[trigger] months@[k])@ == month_key(ads@[t]),
        decreases ads.len() - i,
    {
        let ghost pre = ads@.subrange(0, i as int);
        let ghost post = ads@.subrange(0, i + 1);
        assert(post.drop_last() == pre);
        assert(post.last() == ads@[i as int]);
        let ghost old_months = months@;
        let ghost old_counts = counts@;
        let ad = &ads[i];
        let applied = match ad.status {
            Some(AdStatus::Applied) => true,
            _ => false,
        };
        if applied {
            let key = first_seven_of(ad.publication_date.as_str());
            let j = month_position(&months, key.as_slice());
            if j < months.len() && seq_eq(months[j].as_slice(), key.as_slice()) {
                proof { lemma_applied_in_month_bound(pre, key@); }
                let c = counts[j] + 1;
                counts.set(j, c);
                assert forall|k: int| 0 <= k < months@.len() implies counts@[k] == applied_in_month(post, (#[trigger] months@[k])@)
                    && counts@[k] > 0 by {
                    if k != j {
                        if months@[k]@ == key@ {
                            if k < j {
                                lemma_seq_less_irreflexive(key@);
                            } else {
                                lemma_seq_less_irreflexive(key@);
                                lemma_seq_less_asymmetric(months@[j as int]@, months@[k]@);
                            }
                        }
                    }
                }
                assert forall|t: int| 0 <= t < i + 1 && is_applied(#[trigger] ads@[t]) implies exists|k: int|
                    0 <= k < months@.len() && (#[trigger] months@[k])@ == month_key(ads@[t]) by {
                    if t == i {
                        assert(months@[j as int]@ == month_key(ads@[t]));
                    }
                }
            } else {
                // `key` is a new month: it sorts between `months[j - 1]` and `months[j]`.
                assert forall|k: int| 0 <= k < months@.len() implies (#[trigger] months@[k])@ != key@ by {
                    if k < j {
                        lemma_seq_less_irreflexive(key@);
                    } else {
                        lemma_seq_less_total(months@[j as int]@, key@);
                        if k > j {
                            lemma_seq_less_transitive(key@, months@[j as int]@, months@[k]@);
                            lemma_seq_less_irreflexive(key@);
                        }
                    }
                }
                assert(applied_in_month(pre, key@) == 0) by {
                    if applied_in_month(pre, key@) > 0 {
                        lemma_applied_in_month_witness(pre, key@);
                        let t = choose|t: int| 0 <= t < pre.len() && is_applied(#[trigger] pre[t]) && month_key(pre[t]) == key@;
                        assert(pre[t] == ads@[t]);
                    }
                }
                let ghost key_view = key@;
                months.insert(j, key);
                counts.insert(j, 1);
                assert forall|a: int, b: int| 0 <= a < b < months@.len() implies seq_less(months@[a]@, months@[b]@) by {
                    if b < j {
                        assert(months@[a] == old_months[a] && months@[b] == old_months[b]);
                    } else if b == j {
                        assert(months@[a] == old_months[a]);
                    } else if a > j {
                        assert(months@[a] == old_months[a - 1] && months@[b] == old_months[b - 1]);
                    } else if a == j {
                        assert(months@[b] == old_months[b - 1]);
                        lemma_seq_less_total(old_months[j as int]@, key_view);
                        if b - 1 > j {
                            lemma_seq_less_transitive(key_view, old_months[j as int]@, old_months[b - 1]@);
                        }
                    } else {
                        assert(months@[a] == old_months[a] && months@[b] == old_months[b - 1]);
                        lemma_seq_less_total(old_months[j as int]@, key_view);
                        lemma_seq_less_transitive(old_months[a]@, key_view, old_months[j as int]@);
                        if b - 1 > j {
                            lemma_seq_less_transitive(old_months[a]@, old_months[j as int]@, old_months[b - 1]@);
                        }
                    }
                }
                assert forall|k: int| 0 <= k < months@.len() implies counts@[k] == applied_in_month(post, (#[trigger] months@[k])@)
                    && counts@[k] > 0 by {
                    if k < j {
                        assert(months@[k] == old_months[k] && counts@[k] == old_counts[k]);
                    } else if k > j {
                        assert(months@[k] == old_months[k - 1] && counts@[k] == old_counts[k - 1]);
                    }
                }
                assert forall|t: int| 0 <= t < i + 1 && is_applied(#[trigger] ads@[t]) implies exists|k: int|
                    0 <= k < months@.len() && (#[trigger] months@[k])@ == month_key(ads@[t]) by {
                    if t == i {
                        assert(months@[j as int]@ == month_key(ads@[t]));
                    } else {
                        let k = choose|k: int| 0 <= k < old_months.len() && (#[trigger] old_months[k])@ == month_key(ads@[t]);
                        if k < j {
                            assert(months@[k] == old_months[k]);
                        } else {
                            assert(months@[k + 1] == old_months[k]);
                        }
                    }
                }
            }
        } else {
            assert forall|k: int| 0 <= k < months@.len() implies counts@[k] == applied_in_month(post, (#[trigger] months@[k])@)
                && counts@[k] > 0 by {
            }
        }
        i = i + 1;
    }
    assert(ads@.subrange(0, ads@.len() as int) == ads@);
    let mut r: Vec<MonthStat> = Vec::new();
    let mut k: usize = 0;
    while k < months.len()
        invariant
            k <= months@.len(),
            months@.len() == counts@.len(),
            r@.len() == k,
            forall|m: int| 0 <= m < k ==> (#[trigger] r@[m]).month@ == months@[m]@ && r@[m].count == counts@[m],
        decreases months.len() - k,
    {
        r.push(MonthStat { month: string_from_chars(months[k].as_slice()), count: counts[k] });
        k = k + 1;
    }
    proof {
        let v = stat_views(r@);
        assert forall|t: int| 0 <= t < ads@.len() && is_applied(#[trigger] ads@[t]) implies exists|m: int|
            0 <= m < v.len() && (#[trigger] v[m]).0 == month_key(ads@[t]) by {
            let m = choose|m: int| 0 <= m < months@.len() && (#[trigger] months@[m])@ == month_key(ads@[t]);
            assert(v[m].0 == months@[m]@);
        }
    }
    r
}

} // verus!
