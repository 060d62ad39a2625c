//! The statistics and reports of the application: month names and month
//! navigation, the counts shown for a month, the activity report that the
//! user copies, mails or saves, and the report for the employment officer.

use vstd::prelude::*;
use crate::text::{
    chars_of, decimal, parse_i32, parse_i32_spec, parse_u32, parse_u32_spec, push_decimal, split,
    split_chars, string_from_chars,
};
use crate::maintenance::{int_decimal, push_i64};
use crate::models::{AdStatus, JobAd};
use crate::text::{append_chars, byte_len, str_eq, to_uppercase, uppercase, utf8_len};
use crate::models::{ymd_of, ymd_text};
use crate::locations::{normalize_locations, normalize_locations_spec};

verus! {

// ---------------------------------------------------------------------------
// Months.
// ---------------------------------------------------------------------------

/// The Swedish name of a month (1 to 12); empty for any other number.
pub open spec fn swedish_month_spec(month: u32) -> Seq<char> {
    if month == 1 { "Januari"@ }
    else if month == 2 { "Februari"@ }
    else if month == 3 { "Mars"@ }
    else if month == 4 { "April"@ }
    else if month == 5 { "Maj"@ }
    else if month == 6 { "Juni"@ }
    else if month == 7 { "Juli"@ }
    else if month == 8 { "Augusti"@ }
    else if month == 9 { "September"@ }
    else if month == 10 { "Oktober"@ }
    else if month == 11 { "November"@ }
    else if month == 12 { "December"@ }
    else { ""@ }
}

pub fn swedish_month_name(month: u32) -> (r: &'static str)
    ensures
        r@ == swedish_month_spec(month),
{
    match month {
        1 => "Januari",
        2 => "Februari",
        3 => "Mars",
        4 => "April",
        5 => "Maj",
        6 => "Juni",
        7 => "Juli",
        8 => "Augusti",
        9 => "September",
        10 => "Oktober",
        11 => "November",
        12 => "December",
        _ => "",
    }
}

pub open spec fn i32_or(p: Option<i32>, d: i32) -> i32 {
    match p {
        Some(v) => v,
        None => d,
    }
}

pub open spec fn u32_or(p: Option<u32>, d: u32) -> u32 {
    match p {
        Some(v) => v,
        None => d,
    }
}

/// The year and month of an active month `YYYY-MM` as the statistics read
/// it: exactly two parts around `-`; a part that is not a number reads as
/// 2026 (year) or 1 (month).
pub open spec fn stats_month_spec(s: Seq<char>) -> Option<(i32, u32)> {
    let parts = split(s, '-');
    if parts.len() == 2 {
        Some((i32_or(parse_i32_spec(parts[0]), 2026), u32_or(parse_u32_spec(parts[1]), 1)))
    } else {
        None
    }
}

pub fn stats_month(s: &str) -> (r: Option<(i32, u32)>)
    ensures
        r == stats_month_spec(s@),
{
    let v = chars_of(s);
    let parts = split_chars(v.as_slice(), '-');
    if parts.len() == 2 {
        let y = match parse_i32(parts[0].as_slice()) {
            Some(y) => y,
            None => 2026,
        };
        let m = match parse_u32(parts[1].as_slice()) {
            Some(m) => m,
            None => 1,
        };
        Some((y, m))
    } else {
        None
    }
}

/// The year and month of an active month as the report export reads it:
/// the first two parts around `-`, with the same defaults.
pub open spec fn export_month_spec(s: Seq<char>) -> (i32, u32) {
    let parts = split(s, '-');
    (i32_or(parse_i32_spec(parts[0]), 2026), u32_or(parse_u32_spec(parts[1]), 1))
}

/// Reading the active month for an export; the text must hold a `-` (the
/// export reads its second part).
pub fn export_month(s: &str) -> (r: (i32, u32))
    requires
        split(s@, '-').len() >= 2,
    ensures
        r == export_month_spec(s@),
{
    let v = chars_of(s);
    let parts = split_chars(v.as_slice(), '-');
    let y = match parse_i32(parts[0].as_slice()) {
        Some(y) => y,
        None => 2026,
    };
    let m = match parse_u32(parts[1].as_slice()) {
        Some(m) => m,
        None => 1,
    };
    (y, m)
}

/// The year and month of an active month as month navigation reads it: the
/// first two parts around `-` read as numbers, 2026 and 1 where they are
/// missing or not numbers.
pub open spec fn nav_month_spec(s: Seq<char>) -> (i32, i32) {
    let parts = split(s, '-');
    let y = i32_or(parse_i32_spec(parts[0]), 2026);
    let m = if parts.len() >= 2 { i32_or(parse_i32_spec(parts[1]), 1) } else { 1i32 };
    (y, m)
}

/// The year and month (1 to 12) that `month` months counted from January
/// of `year` fall in, where month 0 is the December before.
pub open spec fn shifted_month(year: int, month: int) -> (int, int) {
    (year + (month - 1) / 12, (month - 1) % 12 + 1)
}

/// Moving `k` months forward and then `k` months back lands on the month
/// one started from.
pub proof fn lemma_month_shift_inverse(year: int, month: int, k: int)
    ensures
        shifted_month(shifted_month(year, month + k).0, shifted_month(year, month + k).1 - k) == shifted_month(year, month),
{
    let a = month + k - 1;
    let q = a / 12;
    let r = a % 12;
    assert(a == 12 * q + r && 0 <= r < 12);
    let b = r - k;
    assert(month - 1 == 12 * q + b);
    assert((month - 1) / 12 == q + b / 12 && (month - 1) % 12 == b % 12) by (nonlinear_arith)
        requires
            month - 1 == 12 * q + b,
    {
        vstd::arithmetic::div_mod::lemma_fundamental_div_mod(b, 12);
        vstd::arithmetic::div_mod::lemma_fundamental_div_mod_converse(month - 1, 12, q + b / 12, b % 12);
    }
}

/// A month shift lands on a month from 1 to 12.
pub proof fn lemma_shifted_month_range(year: int, month: int)
    ensures
        1 <= shifted_month(year, month).1 <= 12,
{
}

/// `n` in decimal, zero-padded to `width` characters, the sign counting
/// toward the width (`format!("{:0w$}", n)`).
pub open spec fn pad_zeros(d: Seq<char>, width: nat) -> Seq<char> {
    if d.len() >= width {
        d
    } else {
        Seq::new((width - d.len()) as nat, |i: int| '0') + d
    }
}

pub open spec fn padded_int(n: int, width: nat) -> Seq<char> {
    if n < 0 {
        "-"@ + pad_zeros(decimal((-n) as nat), if width >= 1 { (width - 1) as nat } else { 0 })
    } else {
        pad_zeros(decimal(n as nat), width)
    }
}

fn push_padded(out: &mut Vec<char>, n: i64, width: usize)
    ensures
        final(out)@ == old(out)@ + padded_int(n as int, width as nat),
{
    let ghost start = out@;
    let mut w = width;
    let m: u64;
    if n < 0 {
        out.push('-');
        proof { reveal_strlit("-"); }
        m = ((-(n + 1)) as u64) + 1;
        if w >= 1 {
            w = w - 1;
        }
    } else {
        m = n as u64;
    }
    let ghost mid = out@;
    let mut digits: Vec<char> = Vec::new();
    push_decimal(&mut digits, m);
    assert(digits@ =~= decimal(m as nat));
    let mut k: usize = digits.len();
    while k < w
        invariant
            digits@.len() <= k <= w || (w < digits@.len() && k == digits@.len()),
            out@ == mid + Seq::new((k - digits@.len()) as nat, |i: int| '0'),
            digits@ == decimal(m as nat),
        decreases w - k,
    {
        out.push('0');
        assert(out@ =~= mid + Seq::new((k + 1 - digits@.len()) as nat, |i: int| '0'));
        k = k + 1;
    }
    let mut j: usize = 0;
    let ghost zeros = out@;
    while j < digits.len()
        invariant
            j <= digits@.len(),
            out@ == zeros + digits@.subrange(0, j as int),
        decreases digits.len() - j,
    {
        out.push(digits[j]);
        assert(out@ =~= zeros + digits@.subrange(0, j + 1));
        j = j + 1;
    }
    assert(digits@.subrange(0, digits@.len() as int) =~= digits@);
    assert(pad_zeros(decimal(m as nat), w as nat) =~= Seq::new((k - digits@.len()) as nat, |i: int| '0') + digits@);
    if n < 0 {
        assert(out@ =~= start + padded_int(n as int, width as nat));
    } else {
        assert(out@ =~= start + padded_int(n as int, width as nat));
    }
}

/// The month that month navigation shows: its key `YYYY-MM`, its Swedish
/// name with the year, and the year and month themselves.
pub struct MonthView {
    pub key: String,
    pub display: String,
    pub year: i32,
    pub month: i32,
}

/// Moves the active month `active` (`YYYY-MM`) by `offset` months.
/// The month number plus the offset, and the year reached, must fit in an
/// `i32` (the arithmetic would otherwise overflow).
pub fn month_after_offset(active: &str, offset: i32) -> (r: MonthView)
    requires
        i32::MIN <= nav_month_spec(active@).1 + offset <= i32::MAX,
        i32::MIN <= shifted_month(nav_month_spec(active@).0 as int, nav_month_spec(active@).1 + offset).0 <= i32::MAX,
    ensures
        r.year == shifted_month(nav_month_spec(active@).0 as int, nav_month_spec(active@).1 + offset).0,
        r.month == shifted_month(nav_month_spec(active@).0 as int, nav_month_spec(active@).1 + offset).1,
        r.key@ == padded_int(r.year as int, 4) + "-"@ + padded_int(r.month as int, 2),
        r.display@ == swedish_month_spec(r.month as u32) + " "@ + int_decimal(r.year as int),
{
    let v = chars_of(active);
    let parts = split_chars(v.as_slice(), '-');
    proof { crate::text::lemma_split_nonempty(v@, '-'); }
    let year = match parse_i32(parts[0].as_slice()) {
        Some(y) => y,
        None => 2026,
    };
    let month = if parts.len() >= 2 {
        match parse_i32(parts[1].as_slice()) {
            Some(m) => m,
            None => 1,
        }
    } else {
        1
    };
    assert((year, month) == nav_month_spec(active@));
    let ghost target = shifted_month(year as int, month + offset);
    let mut nm: i32 = month + offset;
    let mut ny: i32 = year;
    while nm <= 0
        invariant
            ny as int * 12 + nm as int == year as int * 12 + month + offset,
            nm <= 12 || nm == month + offset,
            target.0 <= ny <= year || nm > 0,
            i32::MIN <= target.0 <= i32::MAX,
            ny <= year,
            target == shifted_month(year as int, month + offset),
        decreases 12 - nm,
    {
        assert(ny > target.0) by (nonlinear_arith)
            requires
                ny as int * 12 + nm as int == year as int * 12 + month + offset,
                nm <= 0,
                target == shifted_month(year as int, month + offset),
        ;
        nm = nm + 12;
        ny = ny - 1;
    }
    assert(ny <= target.0) by (nonlinear_arith)
        requires
            ny as int * 12 + nm as int == year as int * 12 + month + offset,
            nm >= 1,
            target == shifted_month(year as int, month + offset),
    ;
    while nm > 12
        invariant
            ny as int * 12 + nm as int == year as int * 12 + month + offset,
            nm >= 1,
            ny <= target.0,
            i32::MIN <= target.0 <= i32::MAX,
            target == shifted_month(year as int, month + offset),
        decreases nm,
    {
        assert(ny < target.0) by (nonlinear_arith)
            requires
                ny as int * 12 + nm as int == year as int * 12 + month + offset,
                nm > 12,
                target == shifted_month(year as int, month + offset),
        ;
        nm = nm - 12;
        ny = ny + 1;
    }
    assert(ny == target.0 && nm == target.1) by (nonlinear_arith)
        requires
            ny as int * 12 + nm as int == year as int * 12 + month + offset,
            1 <= nm <= 12,
            target == shifted_month(year as int, month + offset),
    ;
    let mut key: Vec<char> = Vec::new();
    push_padded(&mut key, ny as i64, 4);
    key.push('-');
    push_padded(&mut key, nm as i64, 2);
    let mut display: Vec<char> = chars_of(swedish_month_name(nm as u32));
    display.push(' ');
    push_i64(&mut display, ny as i64);
    proof {
        reveal_strlit("-");
        reveal_strlit(" ");
    }
    assert(key@ =~= padded_int(ny as int, 4) + "-"@ + padded_int(nm as int, 2));
    assert(display@ =~= swedish_month_spec(nm as u32) + " "@ + int_decimal(ny as int));
    MonthView {
        key: string_from_chars(key.as_slice()),
        display: string_from_chars(display.as_slice()),
        year: ny,
        month: nm,
    }
}

// ---------------------------------------------------------------------------
// The counts shown for a month.
// ---------------------------------------------------------------------------

/// How many of the ads have the given status.
pub open spec fn status_count(ads: Seq<JobAd>, s: AdStatus) -> nat
    decreases ads.len(),
{
    if ads.len() == 0 {
        0
    } else {
        status_count(ads.drop_last(), s) + if ads.last().status == Some(s) { 1nat } else { 0nat }
    }
}

/// The search keyword that found an ad, as text.
pub open spec fn keyword_of(ad: JobAd) -> Option<Seq<char>> {
    match ad.search_keyword {
        Some(k) => Some(k@),
        None => None,
    }
}

/// How many of the ads were found by the keyword `kw`.
pub open spec fn keyword_count(ads: Seq<JobAd>, kw: Seq<char>) -> nat
    decreases ads.len(),
{
    if ads.len() == 0 {
        0
    } else {
        keyword_count(ads.drop_last(), kw) + if keyword_of(ads.last()) == Some(kw) { 1nat } else { 0nat }
    }
}

/// One keyword with the number of ads it found.
pub struct KeywordStat {
    pub name: String,
    pub count: i32,
}

/// What the statistics page shows for a month.
pub struct MonthStats {
    pub total: i32,
    pub applied: i32,
    pub bookmarked: i32,
    pub thumbsup: i32,
    pub rejected: i32,
    /// At most ten keywords, those that found the most ads first.
    pub top_keywords: Vec<KeywordStat>,
}

pub open spec fn stat_names(top: Seq<KeywordStat>) -> Seq<Seq<char>> {
    top.map_values(|k: KeywordStat| k.name@)
}

/// `top` is a list of the keywords that found the most ads, with their
/// counts: at most ten, no keyword twice, the largest counts first, and a
/// keyword is left out only when ten others found at least as many ads.
pub open spec fn is_top_keywords(ads: Seq<JobAd>, top: Seq<KeywordStat>) -> bool {
    &&& top.len() <= 10
    &&& stat_names(top).no_duplicates()
    &&& forall|i: int| 0 <= i < top.len() ==> #[trigger] top[i].count == keyword_count(ads, top[i].name@)
    &&& forall|i: int| 0 <= i < top.len() ==> keyword_count(ads, #[trigger] top[i].name@) > 0
    &&& forall|i: int, j: int| 0 <= i < j < top.len() ==> top[i].count >= top[j].count
    &&& forall|kw: Seq<char>| keyword_count(ads, kw) > 0 && !(#[trigger] stat_names(top).contains(kw)) ==>
            top.len() == 10 && forall|i: int| 0 <= i < top.len() ==> keyword_count(ads, kw) <= #[trigger] top[i].count
}

proof fn lemma_keyword_count_step(ads: Seq<JobAd>, i: int, kw: Seq<char>)
    requires
        0 <= i < ads.len(),
    ensures
        keyword_count(ads.take(i + 1), kw) == keyword_count(ads.take(i), kw)
            + if keyword_of(ads[i]) == Some(kw) { 1nat } else { 0nat },
        status_count(ads.take(i + 1), AdStatus::Applied) == status_count(ads.take(i), AdStatus::Applied)
            + if ads[i].status == Some(AdStatus::Applied) { 1nat } else { 0nat },
        status_count(ads.take(i + 1), AdStatus::Bookmarked) == status_count(ads.take(i), AdStatus::Bookmarked)
            + if ads[i].status == Some(AdStatus::Bookmarked) { 1nat } else { 0nat },
        status_count(ads.take(i + 1), AdStatus::ThumbsUp) == status_count(ads.take(i), AdStatus::ThumbsUp)
            + if ads[i].status == Some(AdStatus::ThumbsUp) { 1nat } else { 0nat },
        status_count(ads.take(i + 1), AdStatus::Rejected) == status_count(ads.take(i), AdStatus::Rejected)
            + if ads[i].status == Some(AdStatus::Rejected) { 1nat } else { 0nat },
{
    assert(ads.take(i + 1).drop_last() =~= ads.take(i));
}

proof fn lemma_counts_bounded(ads: Seq<JobAd>, kw: Seq<char>)
    ensures
        keyword_count(ads, kw) <= ads.len(),
        status_count(ads, AdStatus::Applied) <= ads.len(),
        status_count(ads, AdStatus::Bookmarked) <= ads.len(),
        status_count(ads, AdStatus::ThumbsUp) <= ads.len(),
        status_count(ads, AdStatus::Rejected) <= ads.len(),
    decreases ads.len(),
{
    if ads.len() > 0 {
        lemma_counts_bounded(ads.drop_last(), kw);
    }
}

proof fn lemma_keyword_count_positive(ads: Seq<JobAd>, kw: Seq<char>)
    ensures
        keyword_count(ads, kw) > 0 <==> exists|j: int| 0 <= j < ads.len() && keyword_of(#[trigger] ads[j]) == Some(kw),
    decreases ads.len(),
{
    if ads.len() > 0 {
        lemma_keyword_count_positive(ads.drop_last(), kw);
        if exists|j: int| 0 <= j < ads.len() && keyword_of(#[trigger] ads[j]) == Some(kw) {
            let j = choose|j: int| 0 <= j < ads.len() && keyword_of(#[trigger] ads[j]) == Some(kw);
            if j < ads.len() - 1 {
                assert(ads.drop_last()[j] == ads[j]);
            }
        }
        if exists|j: int| 0 <= j < ads.drop_last().len() && keyword_of(#[trigger] ads.drop_last()[j]) == Some(kw) {
            let j = choose|j: int| 0 <= j < ads.drop_last().len() && keyword_of(#[trigger] ads.drop_last()[j]) == Some(kw);
            assert(ads[j] == ads.drop_last()[j]);
        }
    }
}

fn find_name(names: &Vec<String>, kw: &str) -> (r: Option<usize>)
    ensures
        r matches Some(p) ==> p < names@.len() && names@[p as int]@ == kw@,
        r is None ==> forall|p: int| 0 <= p < names@.len() ==> names@[p]@ != kw@,
{
    let mut p: usize = 0;
    while p < names.len()
        invariant
            p <= names@.len(),
            forall|q: int| 0 <= q < p ==> names@[q]@ != kw@,
        decreases names.len() - p,
    {
        if str_eq(names[p].as_str(), kw) {
            return Some(p);
        }
        p = p + 1;
    }
    None
}

/// The first index not yet picked whose count is largest among those not
/// yet picked.
fn find_best(counts: &Vec<i32>, picked: &Vec<bool>) -> (r: Option<usize>)
    requires
        counts@.len() == picked@.len(),
    ensures
        r matches Some(b) ==> b < counts@.len() && !picked@[b as int]
            && forall|p: int| 0 <= p < counts@.len() && !picked@[p] ==> counts@[p] <= counts@[b as int],
        r is None ==> forall|p: int| 0 <= p < picked@.len() ==> picked@[p],
{
    let mut best: Option<usize> = None;
    let mut p: usize = 0;
    while p < counts.len()
        invariant
            p <= counts@.len() == picked@.len(),
            best matches Some(b) ==> b < p && !picked@[b as int]
                && forall|q: int| 0 <= q < p && !picked@[q] ==> counts@[q] <= counts@[b as int],
            best is None ==> forall|q: int| 0 <= q < p ==> picked@[q],
        decreases counts.len() - p,
    {
        if !picked[p] {
            match best {
                Some(b) => {
                    if counts[p] > counts[b] {
                        best = Some(p);
                    }
                },
                None => {
                    best = Some(p);
                },
            }
        }
        p = p + 1;
    }
    best
}

/// The counts shown for a month's ads: how many there are, how many have
/// each status, and the ten keywords that found the most of them. Among
/// keywords with equal counts the one met first comes first.
pub fn month_stats(ads: &Vec<JobAd>) -> (r: MonthStats)
    requires
        ads@.len() <= i32::MAX,
    ensures
        r.total == ads@.len(),
        r.applied == status_count(ads@, AdStatus::Applied),
        r.bookmarked == status_count(ads@, AdStatus::Bookmarked),
        r.thumbsup == status_count(ads@, AdStatus::ThumbsUp),
        r.rejected == status_count(ads@, AdStatus::Rejected),
        is_top_keywords(ads@, r.top_keywords@),
{
    let (mut applied, mut bookmarked, mut thumbsup, mut rejected): (i32, i32, i32, i32) = (0, 0, 0, 0);
    let mut names: Vec<String> = Vec::new();
    let mut counts: Vec<i32> = Vec::new();
    let mut i: usize = 0;
    assert(ads@.take(0) =~= Seq::<JobAd>::empty());
    while i < ads.len()
        invariant
            i <= ads@.len() <= i32::MAX,
            names@.len() == counts@.len(),
            applied == status_count(ads@.take(i as int), AdStatus::Applied),
            bookmarked == status_count(ads@.take(i as int), AdStatus::Bookmarked),
            thumbsup == status_count(ads@.take(i as int), AdStatus::ThumbsUp),
            rejected == status_count(ads@.take(i as int), AdStatus::Rejected),
            forall|p: int, q: int| 0 <= p < q < names@.len() ==> names@[p]@ != names@[q]@,
            forall|p: int| 0 <= p < names@.len() ==> #[trigger] counts@[p] == keyword_count(ads@.take(i as int), names@[p]@),
            forall|p: int| 0 <= p < names@.len() ==> keyword_count(ads@.take(i as int), #[trigger] names@[p]@) > 0,
            forall|kw: Seq<char>| #[trigger] keyword_count(ads@.take(i as int), kw) > 0 ==>
                exists|p: int| 0 <= p < names@.len() && #[trigger] names@[p]@ == kw,
        decreases ads.len() - i,
    {
        proof {
            assert forall|kw: Seq<char>| true implies keyword_count(ads@.take(i + 1), kw) == keyword_count(ads@.take(i as int), kw)
                + if keyword_of(ads@[i as int]) == Some(kw) { 1nat } else { 0nat } by {
                lemma_keyword_count_step(ads@, i as int, kw);
            }
            lemma_keyword_count_step(ads@, i as int, Seq::empty());
            lemma_counts_bounded(ads@.take(i as int), Seq::empty());
        }
        match ads[i].status {
            Some(AdStatus::Applied) => { applied = applied + 1; },
            Some(AdStatus::Bookmarked) => { bookmarked = bookmarked + 1; },
            Some(AdStatus::ThumbsUp) => { thumbsup = thumbsup + 1; },
            Some(AdStatus::Rejected) => { rejected = rejected + 1; },
            _ => {},
        }
        let ghost old_names = names@;
        let ghost old_counts = counts@;
        match &ads[i].search_keyword {
            Some(kw) => {
                match find_name(&names, kw.as_str()) {
                    Some(p) => {
                        proof {
                            lemma_counts_bounded(ads@.take(i as int), names@[p as int]@);
                        }
                        let c = counts[p];
                        counts.set(p, c + 1);
                    },
                    None => {
                        names.push(kw.clone());
                        counts.push(1);
                        proof {
                            assert(names@[old_names.len() as int]@ == kw@);
                            assert(keyword_count(ads@.take(i as int), kw@) == 0);
                        }
                    },
                }
            },
            None => {},
        }
        proof {
            assert forall|kw: Seq<char>| #[trigger] keyword_count(ads@.take(i + 1), kw) > 0 implies
                exists|p: int| 0 <= p < names@.len() && #[trigger] names@[p]@ == kw by {
                if keyword_count(ads@.take(i as int), kw) > 0 {
                    let p = choose|p: int| 0 <= p < old_names.len() && #[trigger] old_names[p]@ == kw;
                    assert(names@[p] == old_names[p]);
                }
            }
        }
        i = i + 1;
    }
    assert(ads@.take(ads@.len() as int) =~= ads@);

    // Pick the keywords with the largest counts, at most ten.
    let n = names.len();
    let mut picked: Vec<bool> = Vec::new();
    let mut z: usize = 0;
    while z < n
        invariant
            z <= n == names@.len(),
            picked@.len() == z,
            forall|p: int| 0 <= p < z ==> !picked@[p],
        decreases n - z,
    {
        picked.push(false);
        z = z + 1;
    }
    let mut sel: Vec<usize> = Vec::new();
    let mut top: Vec<KeywordStat> = Vec::new();
    let mut all_picked = false;
    while sel.len() < 10 && !all_picked
        invariant
            n == names@.len() == counts@.len() == picked@.len(),
            sel@.len() == top@.len() <= 10,
            forall|a: int| 0 <= a < sel@.len() ==> sel@[a] < n && picked@[sel@[a] as int],
            forall|a: int| 0 <= a < sel@.len() ==> (#[trigger] top@[a]).name@ == names@[sel@[a] as int]@
                && top@[a].count == counts@[sel@[a] as int],
            forall|a: int, b: int| 0 <= a < b < sel@.len() ==> sel@[a] != sel@[b],
            forall|p: int| 0 <= p < n && picked@[p] ==> exists|a: int| 0 <= a < sel@.len() && #[trigger] sel@[a] == p,
            forall|a: int, b: int| 0 <= a < b < sel@.len() ==> counts@[sel@[a] as int] >= counts@[sel@[b] as int],
            forall|p: int, a: int| 0 <= p < n && !picked@[p] && 0 <= a < sel@.len() ==> #[trigger] counts@[p] <= counts@[#[trigger] sel@[a] as int],
            all_picked ==> forall|p: int| 0 <= p < n ==> picked@[p],
        decreases 10 - sel@.len(), if all_picked { 0int } else { 1int },
    {
        match find_best(&counts, &picked) {
            Some(b) => {
                let ghost old_sel = sel@;
                let ghost old_picked = picked@;
                picked.set(b, true);
                sel.push(b);
                top.push(KeywordStat { name: names[b].clone(), count: counts[b] });
                proof {
                    assert forall|p: int| 0 <= p < n && picked@[p] implies exists|a: int| 0 <= a < sel@.len() && #[trigger] sel@[a] == p by {
                        if p != b {
                            let a = choose|a: int| 0 <= a < old_sel.len() && #[trigger] old_sel[a] == p;
                            assert(sel@[a] == p);
                        } else {
                            assert(sel@[old_sel.len() as int] == p);
                        }
                    }
                    assert forall|a: int, c: int| 0 <= a < c < sel@.len() implies sel@[a] != sel@[c] by {
                        if c == old_sel.len() {
                            assert(old_picked[sel@[a] as int]);
                        }
                    }
                }
            },
            None => {
                all_picked = true;
            },
        }
    }
    proof {
        let t = top@;
        assert forall|a: int| 0 <= a < t.len() implies #[trigger] t[a].count == keyword_count(ads@, t[a].name@)
            && keyword_count(ads@, t[a].name@) > 0 by {
            assert(names@[sel@[a] as int]@ == t[a].name@);
        }
        assert(stat_names(t).no_duplicates()) by {
            assert forall|a: int, c: int| 0 <= a < stat_names(t).len() && 0 <= c < stat_names(t).len() && a != c
                implies stat_names(t)[a] != stat_names(t)[c] by {
                if a < c {
                    assert(sel@[a] != sel@[c]);
                } else {
                    assert(sel@[c] != sel@[a]);
                }
            }
        }
        assert forall|kw: Seq<char>| keyword_count(ads@, kw) > 0 && !(#[trigger] stat_names(t).contains(kw)) implies
            t.len() == 10 && forall|a: int| 0 <= a < t.len() ==> keyword_count(ads@, kw) <= #[trigger] t[a].count by {
            assert(keyword_count(ads@.take(ads@.len() as int), kw) > 0);
            let p = choose|p: int| 0 <= p < names@.len() && #[trigger] names@[p]@ == kw;
            if picked@[p] {
                let a = choose|a: int| 0 <= a < sel@.len() && #[trigger] sel@[a] == p;
                assert(stat_names(t)[a] == kw);
            }
            assert(!picked@[p]);
            assert(!all_picked);
            assert forall|a: int| 0 <= a < t.len() implies keyword_count(ads@, kw) <= #[trigger] t[a].count by {
                assert(counts@[p] <= counts@[sel@[a] as int]);
            }
        }
    }
    MonthStats {
        total: ads.len() as i32,
        applied,
        bookmarked,
        thumbsup,
        rejected,
        top_keywords: top,
    }
}

// ---------------------------------------------------------------------------
// The activity report.
// ---------------------------------------------------------------------------

/// The text of an optional string, empty where there is none.
pub open spec fn or_empty(o: Option<String>) -> Seq<char> {
    match o {
        Some(s) => s@,
        None => Seq::empty(),
    }
}

pub open spec fn employer_text(ad: JobAd) -> Seq<char> {
    match ad.employer {
        Some(e) => or_empty(e.name),
        None => Seq::empty(),
    }
}

pub open spec fn city_text(ad: JobAd) -> Seq<char> {
    match ad.workplace_address {
        Some(a) => or_empty(a.city),
        None => Seq::empty(),
    }
}

/// The date an application was sent, or `Okänt datum` where there is none.
pub open spec fn applied_date_text(ad: JobAd) -> Seq<char> {
    match ad.applied_at {
        Some(t) => match ymd_text(t.secs, t.nanos) {
            Some(d) => d,
            None => "Okänt datum"@,
        },
        None => "Okänt datum"@,
    }
}

/// The report's line for one applied job, with its link where it has one.
pub open spec fn applied_line(ad: JobAd) -> Seq<char> {
    "• "@ + applied_date_text(ad) + ": "@ + employer_text(ad) + ", "@ + ad.headline@ + " ("@ + city_text(ad) + ")\n"@
        + match ad.webpage_url {
            Some(u) => "  Länk: "@ + u@ + "\n"@,
            None => Seq::empty(),
        }
}

pub open spec fn applied_lines(ads: Seq<JobAd>) -> Seq<char>
    decreases ads.len(),
{
    if ads.len() == 0 {
        Seq::empty()
    } else {
        applied_lines(ads.drop_last()) + applied_line(ads.last())
    }
}

/// The activity report of a month. `applied` is the month's applied jobs
/// and `reviewed` all its jobs, each `None` where they could not be read;
/// a part whose jobs could not be read is left out.
pub open spec fn params_section(keywords: Seq<char>, locations_p1: Seq<char>, locations_p2: Seq<char>) -> Seq<char> {
    "SÖKPARAMETRAR:\n• Sökord: "@ + keywords + "\n• Prio 1: "@ + normalize_locations_spec(locations_p1)
        + "\n• Prio 2: "@ + normalize_locations_spec(locations_p2) + "\n\n"@
}

pub open spec fn jobs_section(ads: Seq<JobAd>) -> Seq<char> {
    "SÖKTA JOBB ("@ + decimal(ads.len()) + " st):\n"@ + applied_lines(ads) + "\n"@
}

pub open spec fn analysis_section(ads: Seq<JobAd>) -> Seq<char> {
    "AKTIVITETSANALYS:\n• Totalt granskade: "@ + decimal(ads.len())
        + "\n• Konvertering: "@ + decimal(status_count(ads, AdStatus::Applied)) + " sökta, "@
        + decimal(status_count(ads, AdStatus::Rejected)) + " avvisade\n"@
}

/// The activity report of a month. `applied` is the month's applied jobs
/// and `reviewed` all its jobs, each `None` where they could not be read;
/// a part whose jobs could not be read is left out.
pub open spec fn activity_report_spec(
    month_display: Seq<char>,
    keywords: Seq<char>,
    locations_p1: Seq<char>,
    locations_p2: Seq<char>,
    include_params: bool,
    include_jobs: bool,
    include_analysis: bool,
    applied: Option<Seq<JobAd>>,
    reviewed: Option<Seq<JobAd>>,
) -> Seq<char> {
    "AKTIVITETSRAPPORT - "@ + uppercase(month_display) + "\n==========================================\n\n"@
        + (if include_params { params_section(keywords, locations_p1, locations_p2) } else { Seq::empty() })
        + (match (include_jobs, applied) {
            (true, Some(ads)) => jobs_section(ads),
            _ => Seq::empty(),
        })
        + (match (include_analysis, reviewed) {
            (true, Some(ads)) => analysis_section(ads),
            _ => Seq::empty(),
        })
        + "\nGenererad via Jobseeker 2026\n"@
}

fn opt_chars(o: &Option<String>) -> (r: Vec<char>)
    ensures
        r@ == or_empty(*o),
{
    match o {
        Some(s) => chars_of(s.as_str()),
        None => Vec::new(),
    }
}

fn applied_date_chars(ad: &JobAd) -> (r: Vec<char>)
    ensures
        r@ == applied_date_text(*ad),
{
    match ad.applied_at {
        Some(t) => match ymd_of(t) {
            Some(d) => chars_of(d.as_str()),
            None => chars_of("Okänt datum"),
        },
        None => chars_of("Okänt datum"),
    }
}

fn employer_chars(ad: &JobAd) -> (r: Vec<char>)
    ensures
        r@ == employer_text(*ad),
{
    match &ad.employer {
        Some(e) => opt_chars(&e.name),
        None => Vec::new(),
    }
}

fn city_chars(ad: &JobAd) -> (r: Vec<char>)
    ensures
        r@ == city_text(*ad),
{
    match &ad.workplace_address {
        Some(a) => opt_chars(&a.city),
        None => Vec::new(),
    }
}

fn push_applied_line(out: &mut Vec<char>, ad: &JobAd)
    ensures
        final(out)@ == old(out)@ + applied_line(*ad),
{
    let ghost start = out@;
    let date = applied_date_chars(ad);
    let employer = employer_chars(ad);
    let city = city_chars(ad);
    append_chars(out, chars_of("• ").as_slice());
    append_chars(out, date.as_slice());
    append_chars(out, chars_of(": ").as_slice());
    append_chars(out, employer.as_slice());
    append_chars(out, chars_of(", ").as_slice());
    append_chars(out, chars_of(ad.headline.as_str()).as_slice());
    append_chars(out, chars_of(" (").as_slice());
    append_chars(out, city.as_slice());
    append_chars(out, chars_of(")\n").as_slice());
    let ghost before_link = out@;
    match &ad.webpage_url {
        Some(u) => {
            append_chars(out, chars_of("  Länk: ").as_slice());
            append_chars(out, chars_of(u.as_str()).as_slice());
            append_chars(out, chars_of("\n").as_slice());
        },
        None => {},
    }
    assert(before_link =~= start + ("• "@ + applied_date_text(*ad) + ": "@ + employer_text(*ad) + ", "@ + ad.headline@ + " ("@ + city_text(*ad) + ")\n"@));
    assert(out@ =~= start + applied_line(*ad));
}

fn count_status(ads: &Vec<JobAd>, s: AdStatus) -> (n: usize)
    ensures
        n == status_count(ads@, s),
{
    let mut n: usize = 0;
    let mut i: usize = 0;
    assert(ads@.take(0) =~= Seq::<JobAd>::empty());
    while i < ads.len()
        invariant
            i <= ads@.len(),
            n == status_count(ads@.take(i as int), s),
            n <= i,
        decreases ads.len() - i,
    {
        assert(ads@.take(i + 1).drop_last() =~= ads@.take(i as int));
        if ads[i].status == Some(s) {
            n = n + 1;
        }
        i = i + 1;
    }
    assert(ads@.take(ads@.len() as int) =~= ads@);
    n
}

fn push_params(out: &mut Vec<char>, keywords: &str, locations_p1: &str, locations_p2: &str)
    ensures
        final(out)@ == old(out)@ + params_section(keywords@, locations_p1@, locations_p2@),
{
    let ghost start = out@;
    append_chars(out, chars_of("SÖKPARAMETRAR:\n• Sökord: ").as_slice());
    append_chars(out, chars_of(keywords).as_slice());
    append_chars(out, chars_of("\n• Prio 1: ").as_slice());
    append_chars(out, chars_of(normalize_locations(locations_p1).as_str()).as_slice());
    append_chars(out, chars_of("\n• Prio 2: ").as_slice());
    append_chars(out, chars_of(normalize_locations(locations_p2).as_str()).as_slice());
    append_chars(out, chars_of("\n\n").as_slice());
    assert(out@ =~= start + params_section(keywords@, locations_p1@, locations_p2@));
}

fn push_jobs(out: &mut Vec<char>, ads: &Vec<JobAd>)
    ensures
        final(out)@ == old(out)@ + jobs_section(ads@),
{
    let ghost start = out@;
    append_chars(out, chars_of("SÖKTA JOBB (").as_slice());
    push_decimal(out, ads.len() as u64);
    append_chars(out, chars_of(" st):\n").as_slice());
    let ghost lines_start = out@;
    let mut i: usize = 0;
    assert(ads@.take(0) =~= Seq::<JobAd>::empty());
    while i < ads.len()
        invariant
            i <= ads@.len(),
            out@ == lines_start + applied_lines(ads@.take(i as int)),
        decreases ads.len() - i,
    {
        assert(ads@.take(i + 1).drop_last() =~= ads@.take(i as int));
        push_applied_line(out, &ads[i]);
        assert(out@ =~= lines_start + applied_lines(ads@.take(i + 1)));
        i = i + 1;
    }
    assert(ads@.take(ads@.len() as int) =~= ads@);
    append_chars(out, chars_of("\n").as_slice());
    assert(out@ =~= start + jobs_section(ads@));
}

fn push_analysis(out: &mut Vec<char>, ads: &Vec<JobAd>)
    ensures
        final(out)@ == old(out)@ + analysis_section(ads@),
{
    let ghost start = out@;
    let app = count_status(ads, AdStatus::Applied);
    let rej = count_status(ads, AdStatus::Rejected);
    append_chars(out, chars_of("AKTIVITETSANALYS:\n• Totalt granskade: ").as_slice());
    push_decimal(out, ads.len() as u64);
    append_chars(out, chars_of("\n• Konvertering: ").as_slice());
    push_decimal(out, app as u64);
    append_chars(out, chars_of(" sökta, ").as_slice());
    push_decimal(out, rej as u64);
    append_chars(out, chars_of(" avvisade\n").as_slice());
    assert(out@ =~= start + analysis_section(ads@));
}

/// Builds the activity report of a month.
pub fn activity_report(
    month_display: &str,
    keywords: &str,
    locations_p1: &str,
    locations_p2: &str,
    include_params: bool,
    include_jobs: bool,
    include_analysis: bool,
    applied: &Option<Vec<JobAd>>,
    reviewed: &Option<Vec<JobAd>>,
) -> (r: String)
    ensures
        r@ == activity_report_spec(
            month_display@,
            keywords@,
            locations_p1@,
            locations_p2@,
            include_params,
            include_jobs,
            include_analysis,
            match applied { Some(a) => Some(a@), None => None },
            match reviewed { Some(a) => Some(a@), None => None },
        ),
{
    let mut out: Vec<char> = chars_of("AKTIVITETSRAPPORT - ");
    append_chars(&mut out, chars_of(to_uppercase(month_display).as_str()).as_slice());
    append_chars(&mut out, chars_of("\n==========================================\n\n").as_slice());
    let ghost s0 = out@;
    if include_params {
        push_params(&mut out, keywords, locations_p1, locations_p2);
    }
    let ghost s1 = out@;
    let ghost p1 = if include_params { params_section(keywords@, locations_p1@, locations_p2@) } else { Seq::empty() };
    assert(s1 =~= s0 + p1);
    if include_jobs {
        match applied {
            Some(ads) => {
                push_jobs(&mut out, ads);
            },
            None => {},
        }
    }
    let ghost s2 = out@;
    let ghost p2 = match (include_jobs, match applied { Some(a) => Some(a@), None => None }) {
        (true, Some(ads)) => jobs_section(ads),
        _ => Seq::empty(),
    };
    assert(s2 =~= s1 + p2);
    if include_analysis {
        match reviewed {
            Some(ads) => {
                push_analysis(&mut out, ads);
            },
            None => {},
        }
    }
    let ghost s3 = out@;
    let ghost p3 = match (include_analysis, match reviewed { Some(a) => Some(a@), None => None }) {
        (true, Some(ads)) => analysis_section(ads),
        _ => Seq::empty(),
    };
    assert(s3 =~= s2 + p3);
    append_chars(&mut out, chars_of("\nGenererad via Jobseeker 2026\n").as_slice());
    assert(out@ =~= activity_report_spec(
        month_display@,
        keywords@,
        locations_p1@,
        locations_p2@,
        include_params,
        include_jobs,
        include_analysis,
        match applied { Some(a) => Some(a@), None => None },
        match reviewed { Some(a) => Some(a@), None => None },
    ));
    string_from_chars(out.as_slice())
}

// ---------------------------------------------------------------------------
// Sending the report.
// ---------------------------------------------------------------------------

/// How the user asked for the report.
#[derive(Debug, Clone, Copy, PartialEq, Eq, Structural)]
pub enum ReportDelivery {
    /// Copied to the clipboard.
    Clipboard,
    /// Copied to the clipboard and opened as a new e-mail.
    Email,
    /// Written to a file in the download folder.
    File,
}

pub open spec fn report_delivery_spec(method: Seq<char>) -> Option<ReportDelivery> {
    if method == "clipboard"@ {
        Some(ReportDelivery::Clipboard)
    } else if method == "email"@ {
        Some(ReportDelivery::Email)
    } else if method == "file"@ {
        Some(ReportDelivery::File)
    } else {
        None
    }
}

/// Reads the delivery method the user chose; any other word does nothing.
pub fn report_delivery(method: &str) -> (r: Option<ReportDelivery>)
    ensures
        r == report_delivery_spec(method@),
{
    if str_eq(method, "clipboard") {
        Some(ReportDelivery::Clipboard)
    } else if str_eq(method, "email") {
        Some(ReportDelivery::Email)
    } else if str_eq(method, "file") {
        Some(ReportDelivery::File)
    } else {
        None
    }
}

/// The body of the report e-mail: the report itself, or, where it is longer
/// than 1500 bytes, a note that it waits on the clipboard.
pub open spec fn mail_body_spec(report: Seq<char>) -> Seq<char> {
    if utf8_len(report) > 1500 {
        "Rapporten är kopierad till ditt urklipp - klistra in den här!\n\n(Texten var för lång för direktlänk: "@
            + decimal(utf8_len(report)) + " tecken)"@
    } else {
        report
    }
}

pub fn mail_body(report: &str) -> (r: String)
    requires
        utf8_len(report@) <= usize::MAX,
    ensures
        r@ == mail_body_spec(report@),
{
    let v = chars_of(report);
    let n = byte_len(v.as_slice());
    if n > 1500 {
        let mut out = chars_of("Rapporten är kopierad till ditt urklipp - klistra in den här!\n\n(Texten var för lång för direktlänk: ");
        push_decimal(&mut out, n as u64);
        append_chars(&mut out, chars_of(" tecken)").as_slice());
        assert(out@ =~= mail_body_spec(report@));
        string_from_chars(out.as_slice())
    } else {
        string_from_chars(v.as_slice())
    }
}

/// The UTF-8 encoding of a character.
pub open spec fn utf8_bytes(c: char) -> Seq<u8> {
    let v = c as int;
    if v < 0x80 {
        seq![v as u8]
    } else if v < 0x800 {
        seq![(0xC0 + v / 64) as u8, (0x80 + v % 64) as u8]
    } else if v < 0x10000 {
        seq![(0xE0 + v / 4096) as u8, (0x80 + (v / 64) % 64) as u8, (0x80 + v % 64) as u8]
    } else {
        seq![(0xF0 + v / 262144) as u8, (0x80 + (v / 4096) % 64) as u8, (0x80 + (v / 64) % 64) as u8, (0x80 + v % 64) as u8]
    }
}

/// The bytes `urlencoding` leaves as they are: ASCII letters, digits and
/// `-`, `.`, `_`, `~`.
pub open spec fn url_safe_byte(b: u8) -> bool {
    (48 <= b <= 57) || (65 <= b <= 90) || (97 <= b <= 122) || b == 45 || b == 46 || b == 95 || b == 126
}

/// An upper-case hexadecimal digit.
pub open spec fn hex_digit(d: int) -> char {
    if d < 10 { (48 + d) as char } else { (55 + d) as char }
}

/// One byte as `urlencoding` writes it: itself when safe, else `%` and its
/// two upper-case hexadecimal digits.
pub open spec fn url_byte(b: u8) -> Seq<char> {
    if url_safe_byte(b) {
        seq![b as char]
    } else {
        seq!['%', hex_digit(b as int / 16), hex_digit(b as int % 16)]
    }
}

pub open spec fn url_bytes(bs: Seq<u8>) -> Seq<char>
    decreases bs.len(),
{
    if bs.len() == 0 {
        Seq::empty()
    } else {
        url_bytes(bs.drop_last()) + url_byte(bs.last())
    }
}

/// The percent-encoding of a text as `urlencoding::encode` makes it: each
/// byte of its UTF-8 encoding, in order, as `url_byte` writes it.
pub open spec fn url_encoded(s: Seq<char>) -> Seq<char>
    decreases s.len(),
{
    if s.len() == 0 {
        Seq::empty()
    } else {
        url_encoded(s.drop_last()) + url_bytes(utf8_bytes(s.last()))
    }
}

/// `urlencoding::encode`: every byte of the UTF-8 text but ASCII letters,
/// digits and `-`, `_`, `.`, `~` written as `%XX` (upper-case hex), as its
/// documentation and source say.
#[verifier::external_body]
fn url_encode(s: &str) -> (r: String)
    ensures
        r@ == url_encoded(s@),
{
    urlencoding::encode(s).into_owned()
}

/// The `mailto:` link that opens the report as a new e-mail.
pub fn mailto_link(month_display: &str, report: &str) -> (r: String)
    requires
        utf8_len(report@) <= usize::MAX,
    ensures
        r@ == "mailto:?subject="@ + url_encoded("Aktivitetsrapport - "@ + month_display@) + "&body="@
            + url_encoded(mail_body_spec(report@)),
{
    let mut subject = chars_of("Aktivitetsrapport - ");
    append_chars(&mut subject, chars_of(month_display).as_slice());
    let subject_text = string_from_chars(subject.as_slice());
    let body = mail_body(report);
    let mut out = chars_of("mailto:?subject=");
    append_chars(&mut out, chars_of(url_encode(subject_text.as_str()).as_str()).as_slice());
    append_chars(&mut out, chars_of("&body=").as_slice());
    append_chars(&mut out, chars_of(url_encode(body.as_str()).as_str()).as_slice());
    string_from_chars(out.as_slice())
}

/// The name of the file the report is saved to.
pub fn report_file_name(active_month: &str) -> (r: String)
    ensures
        r@ == "jobb-rapport-"@ + active_month@ + ".txt"@,
{
    let mut out = chars_of("jobb-rapport-");
    append_chars(&mut out, chars_of(active_month).as_slice());
    append_chars(&mut out, chars_of(".txt").as_slice());
    string_from_chars(out.as_slice())
}

} // verus!
