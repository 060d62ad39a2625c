//! The local extractive summarizer: picks, from a job ad's description, the
//! sentences that best describe the role, the requirements and the
//! workplace.
//!
//! Sentences are scored by keyword stems; per category the two best
//! sentences are kept, a sentence is used at most once, and headings
//! ("Vem är du?", "VI ERBJUDER") steer the following sentences towards a
//! category. All scores are small whole numbers.

use vstd::prelude::*;
use crate::text::{
    append_chars, chars_of, contains, contains_chars, is_ascii_punctuation,
    is_ascii_punctuation_spec, is_uppercase, is_whitespace, join, list_items, list_items_chars,
    lowercase, string_from_chars, to_lowercase, trim, trim_chars, uppercase_property, utf8_len,
    white_space, byte_len, join_chars,
};

verus! {

// ---------------------------------------------------------------------------
// Sentences.
// ---------------------------------------------------------------------------

pub open spec fn is_terminator(c: char) -> bool {
    c == '.' || c == '!' || c == '?'
}

/// Left-to-right state of `str::split_inclusive` on sentence terminators:
/// the finished pieces and the piece under way.
pub open spec fn inclusive_state(s: Seq<char>) -> (Seq<Seq<char>>, Seq<char>)
    decreases s.len(),
{
    if s.len() == 0 {
        (Seq::empty(), Seq::empty())
    } else {
        let (done, cur) = inclusive_state(s.drop_last());
        let cur2 = cur.push(s.last());
        if is_terminator(s.last()) {
            (done.push(cur2), Seq::empty())
        } else {
            (done, cur2)
        }
    }
}

/// The pieces of `s`, each ending with its terminator (the last one may
/// have none); no empty piece.
pub open spec fn split_inclusive(s: Seq<char>) -> Seq<Seq<char>> {
    let (done, cur) = inclusive_state(s);
    if cur.len() > 0 {
        done.push(cur)
    } else {
        done
    }
}

/// A line kept whole: a short line ending with a colon, or a short line of
/// capitals, white space and punctuation.
pub open spec fn is_heading_line(line: Seq<char>) -> bool {
    (utf8_len(line) < 50 && line.len() > 0 && line.last() == ':')
        || (utf8_len(line) < 35 && forall|i: int| 0 <= i < line.len() ==> (uppercase_property(#[trigger] line[i])
            || white_space(line[i]) || is_ascii_punctuation_spec(line[i])))
}

/// The trimmed pieces that are longer than four bytes.
pub open spec fn long_pieces(ps: Seq<Seq<char>>) -> Seq<Seq<char>>
    decreases ps.len(),
{
    if ps.len() == 0 {
        Seq::empty()
    } else if utf8_len(trim(ps.last())) > 4 {
        long_pieces(ps.drop_last()).push(trim(ps.last()))
    } else {
        long_pieces(ps.drop_last())
    }
}

pub open spec fn line_sentences(line: Seq<char>) -> Seq<Seq<char>> {
    if is_heading_line(line) {
        seq![line]
    } else {
        long_pieces(split_inclusive(line))
    }
}

pub open spec fn sentences_of(lines: Seq<Seq<char>>) -> Seq<Seq<char>>
    decreases lines.len(),
{
    if lines.len() == 0 {
        Seq::empty()
    } else {
        sentences_of(lines.drop_last()) + line_sentences(lines.last())
    }
}

/// The sentences of a text: its non-empty trimmed lines, headings whole and
/// other lines cut after `.`, `!` and `?`.
pub open spec fn summary_sentences(text: Seq<char>) -> Seq<Seq<char>> {
    sentences_of(list_items(text, '\n'))
}

fn split_sentences(line: &[char]) -> (r: Vec<Vec<char>>)
    ensures
        r@.len() == split_inclusive(line@).len(),
        forall|k: int| 0 <= k < r@.len() ==> #[trigger] r@[k]@ == split_inclusive(line@)[k],
{
    let mut done: Vec<Vec<char>> = Vec::new();
    let mut cur: Vec<char> = Vec::new();
    let mut i: usize = 0;
    while i < line.len()
        invariant
            i <= line@.len(),
            done@.len() == inclusive_state(line@.subrange(0, i as int)).0.len(),
            forall|k: int| 0 <= k < done@.len() ==> #[trigger] done@[k]@ == inclusive_state(line@.subrange(0, i as int)).0[k],
            cur@ == inclusive_state(line@.subrange(0, i as int)).1,
        decreases line.len() - i,
    {
        assert(line@.subrange(0, i + 1).drop_last() == line@.subrange(0, i as int));
        let c = line[i];
        cur.push(c);
        if c == '.' || c == '!' || c == '?' {
            let piece = cur;
            done.push(piece);
            cur = Vec::new();
        }
        i = i + 1;
    }
    assert(line@.subrange(0, line@.len() as int) == line@);
    if cur.len() > 0 {
        done.push(cur);
    }
    done
}

fn all_caps_like(s: &[char], allow_punctuation: bool) -> (b: bool)
    ensures
        b == forall|i: int| 0 <= i < s@.len() ==> (uppercase_property(#[trigger] s@[i]) || white_space(s@[i])
            || (allow_punctuation && is_ascii_punctuation_spec(s@[i]))),
{
    let mut i: usize = 0;
    while i < s.len()
        invariant
            i <= s@.len(),
            forall|j: int| 0 <= j < i ==> (uppercase_property(#[trigger] s@[j]) || white_space(s@[j])
                || (allow_punctuation && is_ascii_punctuation_spec(s@[j]))),
        decreases s.len() - i,
    {
        let c = s[i];
        if !(is_uppercase(c) || is_whitespace(c) || (allow_punctuation && is_ascii_punctuation(c))) {
            return false;
        }
        i = i + 1;
    }
    true
}

fn heading_line(line: &[char]) -> (b: bool)
    ensures
        b == is_heading_line(line@),
{
    let n = byte_len(line);
    proof { crate::text::lemma_utf8_len_bounds(line@); }
    (n < 50 && line.len() > 0 && line[line.len() - 1] == ':') || (n < 35 && all_caps_like(line, true))
}

fn line_sentences_of(line: &[char]) -> (r: Vec<Vec<char>>)
    ensures
        r@.len() == line_sentences(line@).len(),
        forall|k: int| 0 <= k < r@.len() ==> #[trigger] r@[k]@ == line_sentences(line@)[k],
{
    if heading_line(line) {
        let mut r: Vec<Vec<char>> = Vec::new();
        r.push(crate::text::copy_range(line, 0, line.len()));
        assert(line@.subrange(0, line@.len() as int) == line@);
        return r;
    }
    let pieces = split_sentences(line);
    let ghost ps = split_inclusive(line@);
    let mut r: Vec<Vec<char>> = Vec::new();
    let mut i: usize = 0;
    while i < pieces.len()
        invariant
            i <= pieces@.len(),
            pieces@.len() == ps.len(),
            ps == split_inclusive(line@),
            forall|k: int| 0 <= k < pieces@.len() ==> #[trigger] pieces@[k]@ == ps[k],
            r@.len() == long_pieces(ps.subrange(0, i as int)).len(),
            forall|k: int| 0 <= k < r@.len() ==> #[trigger] r@[k]@ == long_pieces(ps.subrange(0, i as int))[k],
        decreases pieces.len() - i,
    {
        assert(ps.subrange(0, i + 1).drop_last() == ps.subrange(0, i as int));
        assert(ps.subrange(0, i + 1).last() == ps[i as int]);
        let t = trim_chars(pieces[i].as_slice());
        let n = byte_len(t.as_slice());
        proof { crate::text::lemma_utf8_len_bounds(t@); }
        if n > 4 {
            r.push(t);
        }
        i = i + 1;
    }
    assert(ps.subrange(0, pieces@.len() as int) == ps);
    r
}

fn sentences_in(text: &str) -> (r: Vec<Vec<char>>)
    ensures
        r@.len() == summary_sentences(text@).len(),
        forall|k: int| 0 <= k < r@.len() ==> #[trigger] r@[k]@ == summary_sentences(text@)[k],
{
    let lines = list_items_chars(chars_of(text).as_slice(), '\n');
    let ghost ls = list_items(text@, '\n');
    let mut r: Vec<Vec<char>> = Vec::new();
    let mut i: usize = 0;
    while i < lines.len()
        invariant
            i <= lines@.len(),
            lines@.len() == ls.len(),
            ls == list_items(text@, '\n'),
            forall|k: int| 0 <= k < lines@.len() ==> #[trigger] lines@[k]@ == ls[k],
            r@.len() == sentences_of(ls.subrange(0, i as int)).len(),
            forall|k: int| 0 <= k < r@.len() ==> #[trigger] r@[k]@ == sentences_of(ls.subrange(0, i as int))[k],
        decreases lines.len() - i,
    {
        assert(ls.subrange(0, i + 1).drop_last() == ls.subrange(0, i as int));
        assert(ls.subrange(0, i + 1).last() == ls[i as int]);
        let mut part = line_sentences_of(lines[i].as_slice());
        let ghost before = r@;
        let ghost add = part@;
        r.append(&mut part);
        assert forall|k: int| 0 <= k < r@.len() implies #[trigger] r@[k]@ == sentences_of(ls.subrange(0, i + 1))[k] by {
            if k >= before.len() {
                assert(r@[k] == add[k - before.len()]);
            }
        }
        i = i + 1;
    }
    assert(ls.subrange(0, lines@.len() as int) == ls);
    r
}

} // verus!

verus! {

// ---------------------------------------------------------------------------
// Categories and scores.
// ---------------------------------------------------------------------------

/// The categories, in the order they are filled and printed.
pub open spec fn category_name(k: int) -> Seq<char> {
    if k == 0 {
        "ROLLEN"@
    } else if k == 1 {
        "KRAV"@
    } else {
        "ARBETSPLATSEN"@
    }
}

/// The keyword stems of each category.
pub open spec fn stems(k: int) -> Seq<&'static str> {
    if k == 0 {
        seq!["ansvar", "arbetsuppgift", "roll", "utför", "bidra", "projekt", "fokus", "innebär", "leda", "driva", "task"]
    } else if k == 1 {
        seq!["krav", "erfaren", "utbild", "kompeten", "merit", "behärsk", "kvalif", "bakgrund", "kunskap", "du har", "förmåga", "skall"]
    } else {
        seq!["kult", "team", "kolleg", "värder", "visio", "gemenskap", "miljö", "om oss", "vi är", "erbjuder"]
    }
}

fn stems_of(k: usize) -> (r: Vec<&'static str>)
    requires
        k < 3,
    ensures
        r@ == stems(k as int),
{
    if k == 0 {
        vec!["ansvar", "arbetsuppgift", "roll", "utför", "bidra", "projekt", "fokus", "innebär", "leda", "driva", "task"]
    } else if k == 1 {
        vec!["krav", "erfaren", "utbild", "kompeten", "merit", "behärsk", "kvalif", "bakgrund", "kunskap", "du har", "förmåga", "skall"]
    } else {
        vec!["kult", "team", "kolleg", "värder", "visio", "gemenskap", "miljö", "om oss", "vi är", "erbjuder"]
    }
}

/// How many of the stems occur in the (lower-case) sentence.
pub open spec fn stem_hits(low: Seq<char>, ss: Seq<&'static str>) -> int
    decreases ss.len(),
{
    if ss.len() == 0 {
        0
    } else {
        stem_hits(low, ss.drop_last()) + if contains(low, ss.last()@) {
            1int
        } else {
            0int
        }
    }
}

pub open spec fn has(low: Seq<char>, needle: &'static str) -> bool {
    contains(low, needle@)
}

/// A sentence that reads as a heading: it ends with a colon, or it is short
/// and all capitals and white space.
pub open spec fn is_header_sentence(s: Seq<char>) -> bool {
    (s.len() > 0 && s.last() == ':') || (utf8_len(s) < 35 && forall|i: int|
        0 <= i < s.len() ==> (uppercase_property(#[trigger] s[i]) || white_space(s[i])))
}

/// The category a heading announces, if any.
pub open spec fn header_category(s: Seq<char>) -> Option<int> {
    let low = lowercase(s);
    if !is_header_sentence(s) {
        None
    } else if has(low, "gör") || has(low, "roll") || has(low, "uppgift") {
        Some(0)
    } else if has(low, "vem") || has(low, "krav") || has(low, "merit") || has(low, "profil") {
        Some(1)
    } else if has(low, "vi ") || has(low, "oss") || has(low, "erbjuder") {
        Some(2)
    } else {
        None
    }
}

/// The category announced by the last heading among the first `m`
/// sentences that announces one.
pub open spec fn last_category(sents: Seq<Seq<char>>, m: int) -> Option<int>
    decreases m,
{
    if m <= 0 {
        None
    } else {
        match header_category(sents[m - 1]) {
            Some(c) => Some(c),
            None => last_category(sents, m - 1),
        }
    }
}

/// The heading context of sentence `idx` while category `k` is filled: the
/// last heading before it, or, from the second category on, the last
/// heading of the whole text.
pub open spec fn context(sents: Seq<Seq<char>>, k: int, idx: int) -> Option<int> {
    match last_category(sents, idx) {
        Some(c) => Some(c),
        None => if k == 0 {
            None
        } else {
            last_category(sents, sents.len() as int)
        },
    }
}

/// Links and calls to apply are never picked.
pub open spec fn is_noise(low: Seq<char>) -> bool {
    has(low, "http") || has(low, "ansök") || has(low, "läs mer")
}

/// Only sentences that start with a capital, a bullet or a dash are picked.
pub open spec fn starts_well(s: Seq<char>) -> bool {
    s.len() > 0 && (uppercase_property(s[0]) || s[0] == '•' || s[0] == '-')
}

/// The score of a sentence for category `k` before the length bonus.
pub open spec fn base_score(k: int, low: Seq<char>, ctx: Option<int>) -> int {
    (if k == 1 {
        (if has(low, "erfarenhet") || has(low, "krav") || has(low, "förmåga") || has(low, "kunskap") { 12int } else { 0int })
            + (if has(low, "vi ") || has(low, "erbjuder") { -20int } else { 0int })
    } else {
        0int
    }) + (if k == 2 {
        (if has(low, "meriterande") || has(low, "erfarenhet") || has(low, "skall") { -20int } else { 0int })
            + (if has(low, "vi ") || has(low, "team") || has(low, "miljö") { 5int } else { 0int })
    } else {
        0int
    }) + 3 * stem_hits(low, stems(k)) + (if ctx == Some(k) { 6int } else { 0int })
}

/// Sentences of moderate length score a little more.
pub open spec fn length_bonus(s: Seq<char>) -> int {
    if 40 < utf8_len(s) < 180 {
        2
    } else {
        0
    }
}

/// Sentence `idx` may be picked for category `k`.
pub open spec fn eligible(sents: Seq<Seq<char>>, k: int, used: Set<int>, idx: int) -> bool {
    let s = sents[idx];
    let low = lowercase(s);
    &&& !used.contains(idx)
    &&& !is_header_sentence(s)
    &&& !is_noise(low)
    &&& starts_well(s)
    &&& base_score(k, low, context(sents, k, idx)) > 2
}

pub open spec fn score(sents: Seq<Seq<char>>, k: int, idx: int) -> int {
    base_score(k, lowercase(sents[idx]), context(sents, k, idx)) + length_bonus(sents[idx])
}

/// The picks open to category `k` among the first `m` sentences, as
/// (index, score) in index order.
pub open spec fn candidates(sents: Seq<Seq<char>>, k: int, used: Set<int>, m: int) -> Seq<(int, int)>
    decreases m,
{
    if m <= 0 {
        Seq::empty()
    } else if eligible(sents, k, used, m - 1) {
        candidates(sents, k, used, m - 1).push((m - 1, score(sents, k, m - 1)))
    } else {
        candidates(sents, k, used, m - 1)
    }
}

/// Position of the best score, the earliest one among equals.
pub open spec fn best_pos(c: Seq<(int, int)>) -> int
    decreases c.len(),
{
    if c.len() <= 1 {
        0
    } else {
        let p = best_pos(c.drop_last());
        if c.last().1 > c[p].1 {
            c.len() - 1
        } else {
            p
        }
    }
}

/// The indices of the two best candidates (fewer when there are fewer), in
/// index order.
pub open spec fn top_two(c: Seq<(int, int)>) -> Seq<int> {
    if c.len() == 0 {
        Seq::empty()
    } else if c.len() == 1 {
        seq![c[0].0]
    } else {
        let b = best_pos(c);
        let rest = c.remove(b);
        let x = c[b].0;
        let y = rest[best_pos(rest)].0;
        if x < y {
            seq![x, y]
        } else {
            seq![y, x]
        }
    }
}

/// The sentences used by the categories before `k`.
pub open spec fn used_before(sents: Seq<Seq<char>>, k: nat) -> Set<int>
    decreases k, 0nat,
{
    if k == 0 {
        Set::empty()
    } else {
        used_before(sents, (k - 1) as nat).union(selection(sents, (k - 1) as nat).to_set())
    }
}

/// The sentences picked for category `k`, in index order.
pub open spec fn selection(sents: Seq<Seq<char>>, k: nat) -> Seq<int>
    decreases k, 1nat,
{
    top_two(candidates(sents, k as int, used_before(sents, k), sents.len() as int))
}

} // verus!

verus! {

pub open spec fn opt_cat(o: Option<u8>) -> Option<int> {
    match o {
        Some(c) => Some(c as int),
        None => None,
    }
}

pub open spec fn used_set(used: Seq<bool>) -> Set<int> {
    Set::new(|i: int| 0 <= i < used.len() && used[i])
}

pub open spec fn views(v: Seq<Vec<char>>) -> Seq<Seq<char>> {
    v.map_values(|s: Vec<char>| s@)
}

fn has_exec(low: &[char], needle: &'static str) -> (b: bool)
    ensures
        b == has(low@, needle),
{
    let n = chars_of(needle);
    contains_chars(low, n.as_slice())
}

fn is_header_exec(s: &[char]) -> (b: bool)
    ensures
        b == is_header_sentence(s@),
{
    let n = byte_len(s);
    proof { crate::text::lemma_utf8_len_bounds(s@); }
    (s.len() > 0 && s[s.len() - 1] == ':') || (n < 35 && all_caps_like(s, false))
}

fn header_category_exec(s: &[char], low: &[char]) -> (r: Option<u8>)
    requires
        low@ == lowercase(s@),
    ensures
        opt_cat(r) == header_category(s@),
        r matches Some(c) ==> c < 3,
{
    if !is_header_exec(s) {
        None
    } else if has_exec(low, "gör") || has_exec(low, "roll") || has_exec(low, "uppgift") {
        Some(0)
    } else if has_exec(low, "vem") || has_exec(low, "krav") || has_exec(low, "merit") || has_exec(low, "profil") {
        Some(1)
    } else if has_exec(low, "vi ") || has_exec(low, "oss") || has_exec(low, "erbjuder") {
        Some(2)
    } else {
        None
    }
}

fn stem_hits_exec(low: &[char], k: usize) -> (r: i32)
    requires
        k < 3,
    ensures
        r == stem_hits(low@, stems(k as int)),
        0 <= r <= 12,
{
    let ss = stems_of(k);
    let mut r: i32 = 0;
    let mut i: usize = 0;
    while i < ss.len()
        invariant
            i <= ss@.len(),
            ss@ == stems(k as int),
            ss@.len() <= 12,
            r == stem_hits(low@, ss@.subrange(0, i as int)),
            0 <= r <= i,
        decreases ss.len() - i,
    {
        assert(ss@.subrange(0, i + 1).drop_last() == ss@.subrange(0, i as int));
        if has_exec(low, ss[i]) {
            r = r + 1;
        }
        i = i + 1;
    }
    assert(ss@.subrange(0, ss@.len() as int) == ss@);
    r
}

fn base_score_exec(k: usize, low: &[char], ctx: Option<u8>) -> (r: i32)
    requires
        k < 3,
    ensures
        r == base_score(k as int, low@, opt_cat(ctx)),
        -40 <= r <= 60,
{
    let mut score: i32 = 0;
    if k == 1 {
        if has_exec(low, "erfarenhet") || has_exec(low, "krav") || has_exec(low, "förmåga") || has_exec(low, "kunskap") {
            score = score + 12;
        }
        if has_exec(low, "vi ") || has_exec(low, "erbjuder") {
            score = score - 20;
        }
    }
    if k == 2 {
        if has_exec(low, "meriterande") || has_exec(low, "erfarenhet") || has_exec(low, "skall") {
            score = score - 20;
        }
        if has_exec(low, "vi ") || has_exec(low, "team") || has_exec(low, "miljö") {
            score = score + 5;
        }
    }
    let hits = stem_hits_exec(low, k);
    score = score + 3 * hits;
    let same = match ctx {
        Some(c) => c as usize == k,
        None => false,
    };
    if same {
        score = score + 6;
    }
    score
}

fn length_bonus_exec(s: &[char]) -> (r: i32)
    ensures
        r == length_bonus(s@),
{
    let n = byte_len(s);
    proof { crate::text::lemma_utf8_len_bounds(s@); }
    if 40 < n && n < 180 {
        2
    } else {
        0
    }
}

pub proof fn lemma_last_category_range(sents: Seq<Seq<char>>, m: int)
    ensures
        last_category(sents, m) matches Some(c) ==> 0 <= c < 3,
    decreases m,
{
    if m > 0 {
        lemma_last_category_range(sents, m - 1);
    }
}

/// The candidates of one category, and the heading context after the pass.
fn pass_candidates(
    sents: &Vec<Vec<char>>,
    lows: &Vec<Vec<char>>,
    k: usize,
    used: &Vec<bool>,
    start: Option<u8>,
) -> (r: (Vec<usize>, Vec<i32>, Option<u8>))
    requires
        k < 3,
        lows@.len() == sents@.len(),
        used@.len() == sents@.len(),
        forall|i: int| 0 <= i < sents@.len() ==> (#[trigger] lows@[i])@ == lowercase(sents@[i]@),
        forall|i: int| 0 <= i < sents@.len() && #[trigger] used@[i] ==> !is_header_sentence(sents@[i]@),
        opt_cat(start) == (if k == 0 { None } else { last_category(views(sents@), sents@.len() as int) }),
    ensures
        r.0@.len() == r.1@.len(),
        r.0@.len() == candidates(views(sents@), k as int, used_set(used@), sents@.len() as int).len(),
        forall|j: int| 0 <= j < r.0@.len() ==> (r.0@[j] as int, r.1@[j] as int)
            == #[trigger] candidates(views(sents@), k as int, used_set(used@), sents@.len() as int)[j],
        opt_cat(r.2) == last_category(views(sents@), sents@.len() as int),
{
    let ghost sv = views(sents@);
    let ghost us = used_set(used@);
    let n = sents.len();
    let mut idxs: Vec<usize> = Vec::new();
    let mut scores: Vec<i32> = Vec::new();
    let mut h: Option<u8> = start;
    let mut i: usize = 0;
    proof { lemma_last_category_range(sv, n as int); }
    while i < n
        invariant
            i <= n,
            n == sents@.len(),
            k < 3,
            lows@.len() == n,
            used@.len() == n,
            sv == views(sents@),
            us == used_set(used@),
            forall|j: int| 0 <= j < n ==> (#[trigger] lows@[j])@ == lowercase(sents@[j]@),
            forall|j: int| 0 <= j < n && #[trigger] used@[j] ==> !is_header_sentence(sents@[j]@),
            opt_cat(start) == (if k == 0 { None } else { last_category(sv, n as int) }),
            opt_cat(h) == context(sv, k as int, i as int),
            idxs@.len() == scores@.len(),
            idxs@.len() == candidates(sv, k as int, us, i as int).len(),
            forall|j: int| 0 <= j < idxs@.len() ==> (idxs@[j] as int, scores@[j] as int)
                == #[trigger] candidates(sv, k as int, us, i as int)[j],
        decreases n - i,
    {
        assert(sv[i as int] == sents@[i as int]@);
        let s = sents[i].as_slice();
        let low = lows[i].as_slice();
        let ghost ctx = context(sv, k as int, i as int);
        if used[i] {
            assert(header_category(sv[i as int]) is None);
            assert(!eligible(sv, k as int, us, i as int));
        } else if is_header_exec(s) {
            let c = header_category_exec(s, low);
            match c {
                Some(_) => { h = c; },
                None => {},
            }
            assert(!eligible(sv, k as int, us, i as int));
        } else {
            assert(header_category(sv[i as int]) is None);
            let noisy = has_exec(low, "http") || has_exec(low, "ansök") || has_exec(low, "läs mer");
            let starts = s.len() > 0 && (is_uppercase(s[0]) || s[0] == '•' || s[0] == '-');
            if !noisy && starts {
                let base = base_score_exec(k, low, h);
                if base > 2 {
                    let bonus = length_bonus_exec(s);
                    idxs.push(i);
                    scores.push(base + bonus);
                    assert forall|j: int| 0 <= j < idxs@.len() implies (idxs@[j] as int, scores@[j] as int)
                        == #[trigger] candidates(sv, k as int, us, i + 1)[j] by {
                    }
                } else {
                    assert(!eligible(sv, k as int, us, i as int));
                }
            } else {
                assert(!eligible(sv, k as int, us, i as int));
            }
        }
        i = i + 1;
    }
    (idxs, scores, h)
}

} // verus!

verus! {

pub open spec fn pairs(idxs: Seq<usize>, scores: Seq<i32>) -> Seq<(int, int)> {
    Seq::new(idxs.len(), |j: int| (idxs[j] as int, scores[j] as int))
}

pub proof fn lemma_best_pos_range(c: Seq<(int, int)>)
    requires
        c.len() > 0,
    ensures
        0 <= best_pos(c) < c.len(),
    decreases c.len(),
{
    if c.len() > 1 {
        lemma_best_pos_range(c.drop_last());
    }
}

fn best_index(idxs: &Vec<usize>, scores: &Vec<i32>) -> (b: usize)
    requires
        idxs@.len() == scores@.len(),
        scores@.len() > 0,
    ensures
        b == best_pos(pairs(idxs@, scores@)),
        b < scores@.len(),
{
    let ghost c = pairs(idxs@, scores@);
    let mut b: usize = 0;
    let mut i: usize = 1;
    assert(c.subrange(0, 1).len() == 1);
    while i < scores.len()
        invariant
            1 <= i <= scores@.len(),
            idxs@.len() == scores@.len(),
            c == pairs(idxs@, scores@),
            b == best_pos(c.subrange(0, i as int)),
            b < i,
        decreases scores.len() - i,
    {
        let ghost p = c.subrange(0, i + 1);
        assert(p.drop_last() == c.subrange(0, i as int));
        assert(p.last().1 == scores@[i as int] as int);
        assert(p[b as int].1 == scores@[b as int] as int);
        if scores[i] > scores[b] {
            b = i;
        }
        i = i + 1;
    }
    assert(c.subrange(0, scores@.len() as int) == c);
    b
}

/// The indices of the two best candidates, in index order.
fn select_two(idxs: &Vec<usize>, scores: &Vec<i32>) -> (r: Vec<usize>)
    requires
        idxs@.len() == scores@.len(),
    ensures
        r@.len() == top_two(pairs(idxs@, scores@)).len(),
        forall|j: int| 0 <= j < r@.len() ==> r@[j] as int == #[trigger] top_two(pairs(idxs@, scores@))[j],
{
    let ghost c = pairs(idxs@, scores@);
    let mut r: Vec<usize> = Vec::new();
    if idxs.len() == 0 {
        return r;
    }
    if idxs.len() == 1 {
        r.push(idxs[0]);
        return r;
    }
    let b = best_index(idxs, scores);
    let mut rest_i = idxs.clone();
    let mut rest_s = scores.clone();
    assert(rest_i@ == idxs@ && rest_s@ == scores@);
    rest_i.remove(b);
    rest_s.remove(b);
    assert(pairs(rest_i@, rest_s@) =~= c.remove(b as int));
    let b2 = best_index(&rest_i, &rest_s);
    let x = idxs[b];
    let y = rest_i[b2];
    if x < y {
        r.push(x);
        r.push(y);
    } else {
        r.push(y);
        r.push(x);
    }
    r
}

pub proof fn lemma_candidates_facts(sents: Seq<Seq<char>>, k: int, used: Set<int>, m: int)
    ensures
        forall|j: int| 0 <= j < candidates(sents, k, used, m).len() ==> {
            let e = #[trigger] candidates(sents, k, used, m)[j];
            0 <= e.0 < m && eligible(sents, k, used, e.0)
        },
        forall|a: int, b: int| 0 <= a < b < candidates(sents, k, used, m).len() ==>
            candidates(sents, k, used, m)[a].0 < candidates(sents, k, used, m)[b].0,
    decreases m,
{
    if m > 0 {
        lemma_candidates_facts(sents, k, used, m - 1);
        let prev = candidates(sents, k, used, m - 1);
        let cur = candidates(sents, k, used, m);
        if eligible(sents, k, used, m - 1) {
            assert(cur == prev.push((m - 1, score(sents, k, m - 1))));
            assert forall|j: int| 0 <= j < cur.len() implies {
                let e = #[trigger] cur[j];
                0 <= e.0 < m && eligible(sents, k, used, e.0)
            } by {
                if j < prev.len() {
                    assert(cur[j] == prev[j]);
                }
            }
            assert forall|a: int, b: int| 0 <= a < b < cur.len() implies cur[a].0 < cur[b].0 by {
                assert(cur[a] == prev[a]);
                if b < prev.len() {
                    assert(cur[b] == prev[b]);
                }
            }
        } else {
            assert(cur == prev);
        }
    }
}

pub proof fn lemma_top_two_members(c: Seq<(int, int)>)
    requires
        forall|a: int, b: int| 0 <= a < b < c.len() ==> c[a].0 < c[b].0,
    ensures
        forall|j: int| 0 <= j < top_two(c).len() ==> exists|t: int| 0 <= t < c.len() && c[t].0 == #[trigger] top_two(c)[j],
        top_two(c).len() <= 2,
        top_two(c).len() == 2 ==> top_two(c)[0] < top_two(c)[1],
{
    if c.len() >= 2 {
        lemma_best_pos_range(c);
        let b = best_pos(c);
        let rest = c.remove(b);
        lemma_best_pos_range(rest);
        let b2 = best_pos(rest);
        if b2 < b {
            assert(rest[b2] == c[b2]);
            assert(c[b2].0 != c[b].0);
        } else {
            assert(rest[b2] == c[b2 + 1]);
            assert(c[b2 + 1].0 != c[b].0);
        }
        assert forall|j: int| 0 <= j < top_two(c).len() implies exists|t: int| 0 <= t < c.len() && c[t].0 == #[trigger] top_two(c)[j] by {
            if b2 < b {
                assert(c[b2].0 == rest[b2].0);
            } else {
                assert(c[b2 + 1].0 == rest[b2].0);
            }
        }
    } else if c.len() == 1 {
        assert(c[0].0 == top_two(c)[0]);
    }
}

/// No sentence that links somewhere, asks the reader to apply or to read
/// more (its lower-case text holds `http`, `ansök` or `läs mer`) is ever
/// picked as a bullet of the summary, in any category; every pick is a
/// sentence of the text.
pub proof fn lemma_no_noise_bullets(text: Seq<char>, k: nat, j: int)
    requires
        0 <= j < selection(summary_sentences(text), k).len(),
    ensures
        0 <= selection(summary_sentences(text), k)[j] < summary_sentences(text).len(),
        !contains(lowercase(summary_sentences(text)[selection(summary_sentences(text), k)[j]]), "http"@),
        !contains(lowercase(summary_sentences(text)[selection(summary_sentences(text), k)[j]]), "ansök"@),
        !contains(lowercase(summary_sentences(text)[selection(summary_sentences(text), k)[j]]), "läs mer"@),
{
    let sents = summary_sentences(text);
    let used = used_before(sents, k);
    let c = candidates(sents, k as int, used, sents.len() as int);
    lemma_candidates_facts(sents, k as int, used, sents.len() as int);
    lemma_top_two_members(c);
    let idx = selection(sents, k)[j];
    let t = choose|t: int| 0 <= t < c.len() && c[t].0 == idx;
    assert(c[t].0 == idx);
    assert(eligible(sents, k as int, used, idx));
}

// ---------------------------------------------------------------------------
// The summary text.
// ---------------------------------------------------------------------------

pub open spec fn is_mark(c: char) -> bool {
    c == '-' || c == '*' || c == '•' || c == ' '
}

pub open spec fn drop_marks(s: Seq<char>) -> Seq<char>
    decreases s.len(),
{
    if s.len() > 0 && is_mark(s[0]) {
        drop_marks(s.drop_first())
    } else {
        s
    }
}

/// A sentence as printed: without leading dashes, stars, bullets and
/// spaces, and trimmed.
pub open spec fn cleaned(s: Seq<char>) -> Seq<char> {
    trim(drop_marks(s))
}

pub open spec fn bullet_lines(sents: Seq<Seq<char>>, sel: Seq<int>) -> Seq<char>
    decreases sel.len(),
{
    if sel.len() == 0 {
        Seq::empty()
    } else {
        bullet_lines(sents, sel.drop_last()) + "\n • "@ + cleaned(sents[sel.last()])
    }
}

/// One category's part of the summary: its name and its sentences as
/// bullets.
pub open spec fn section(sents: Seq<Seq<char>>, k: nat) -> Seq<char> {
    category_name(k as int) + ":"@ + bullet_lines(sents, selection(sents, k))
}

/// The parts of the categories that got at least one sentence, in order.
pub open spec fn sections(sents: Seq<Seq<char>>) -> Seq<Seq<char>> {
    let s0: Seq<Seq<char>> = if selection(sents, 0).len() > 0 { seq![section(sents, 0)] } else { Seq::empty() };
    let s1: Seq<Seq<char>> = if selection(sents, 1).len() > 0 { s0.push(section(sents, 1)) } else { s0 };
    if selection(sents, 2).len() > 0 {
        s1.push(section(sents, 2))
    } else {
        s1
    }
}

/// What `LocalAi::extractive_summarize` returns for a text.
pub open spec fn summary_spec(text: Seq<char>) -> Seq<char> {
    let sents = summary_sentences(text);
    if sents.len() == 0 {
        "Kunde inte analysera innehållet."@
    } else {
        let body = join(sections(sents), "\n"@);
        if body.len() == 0 {
            "Ingen kärna identifierad."@
        } else {
            body
        }
    }
}

fn cleaned_of(s: &[char]) -> (r: Vec<char>)
    ensures
        r@ == cleaned(s@),
{
    let mut i: usize = 0;
    assert(s@.skip(0) == s@);
    while i < s.len() && (s[i] == '-' || s[i] == '*' || s[i] == '•' || s[i] == ' ')
        invariant
            i <= s@.len(),
            drop_marks(s@) == drop_marks(s@.skip(i as int)),
        decreases s.len() - i,
    {
        assert(s@.skip(i as int).drop_first() == s@.skip(i + 1));
        i = i + 1;
    }
    let rest = crate::text::copy_range(s, i, s.len());
    assert(rest@ == s@.skip(i as int));
    trim_chars(rest.as_slice())
}

} // verus!

verus! {

fn category_name_of(k: usize) -> (r: &'static str)
    ensures
        r@ == category_name(k as int),
{
    if k == 0 {
        "ROLLEN"
    } else if k == 1 {
        "KRAV"
    } else {
        "ARBETSPLATSEN"
    }
}

fn section_of(sents: &Vec<Vec<char>>, k: usize, sel: &Vec<usize>) -> (r: Vec<char>)
    requires
        k < 3,
        sel@.len() == selection(views(sents@), k as nat).len(),
        forall|j: int| 0 <= j < sel@.len() ==> sel@[j] as int == #[trigger] selection(views(sents@), k as nat)[j],
        forall|j: int| 0 <= j < sel@.len() ==> (#[trigger] sel@[j]) < sents@.len(),
    ensures
        r@ == section(views(sents@), k as nat),
{
    let ghost sv = views(sents@);
    let ghost selk = selection(sv, k as nat);
    let mut r = chars_of(category_name_of(k));
    r.push(':');
    let ghost head = r@;
    assert(head == category_name(k as int) + ":"@) by {
        reveal_strlit(":");
    }
    let mut j: usize = 0;
    while j < sel.len()
        invariant
            j <= sel@.len(),
            sel@.len() == selk.len(),
            selk == selection(sv, k as nat),
            sv == views(sents@),
            forall|t: int| 0 <= t < sel@.len() ==> sel@[t] as int == #[trigger] selk[t],
            forall|t: int| 0 <= t < sel@.len() ==> (#[trigger] sel@[t]) < sents@.len(),
            head == category_name(k as int) + ":"@,
            r@ == head + bullet_lines(sv, selk.subrange(0, j as int)),
        decreases sel.len() - j,
    {
        assert(selk.subrange(0, j + 1).drop_last() == selk.subrange(0, j as int));
        assert(selk.subrange(0, j + 1).last() == sel@[j as int] as int);
        let idx = sel[j];
        assert(sv[idx as int] == sents@[idx as int]@);
        append_chars(&mut r, chars_of("\n • ").as_slice());
        let c = cleaned_of(sents[idx].as_slice());
        append_chars(&mut r, c.as_slice());
        j = j + 1;
    }
    assert(selk.subrange(0, sel@.len() as int) == selk);
    r
}

/// The error type of the summarizer's API; the local summarizer never
/// fails.
#[derive(Debug)]
pub struct AiError {
    pub message: String,
}

/// The summarizer that runs on the device, without a language model.
pub struct LocalAi;

impl LocalAi {
    pub fn new() -> (r: Result<LocalAi, AiError>)
        ensures
            r is Ok,
    {
        Ok(LocalAi)
    }

    /// Picks, per category, the two best sentences of a job ad and lists
    /// them under the category's name.
    pub fn extractive_summarize(&self, text: &str) -> (r: Result<String, AiError>)
        ensures
            r matches Ok(s) && s@ == summary_spec(text@),
    {
        let sents = sentences_in(text);
        let ghost sv = views(sents@);
        assert(sv =~= summary_sentences(text@));
        let n = sents.len();
        if n == 0 {
            return Ok("Kunde inte analysera innehållet.".to_owned());
        }
        let mut lows: Vec<Vec<char>> = Vec::new();
        let mut used: Vec<bool> = Vec::new();
        let mut i: usize = 0;
        while i < n
            invariant
                i <= n,
                n == sents@.len(),
                lows@.len() == i,
                used@.len() == i,
                forall|j: int| 0 <= j < i ==> (#[trigger] lows@[j])@ == lowercase(sents@[j]@),
                forall|j: int| 0 <= j < i ==> !(#[trigger] used@[j]),
            decreases n - i,
        {
            let s = string_from_chars(sents[i].as_slice());
            let low = to_lowercase(s.as_str());
            lows.push(chars_of(low.as_str()));
            used.push(false);
            i = i + 1;
        }
        assert(used_set(used@) =~= used_before(sv, 0));
        let mut h: Option<u8> = None;
        let mut sel_all: Vec<Vec<usize>> = Vec::new();
        let mut k: usize = 0;
        while k < 3
            invariant
                k <= 3,
                n == sents@.len(),
                sv == views(sents@),
                lows@.len() == n,
                used@.len() == n,
                forall|j: int| 0 <= j < n ==> (#[trigger] lows@[j])@ == lowercase(sents@[j]@),
                forall|j: int| 0 <= j < n && #[trigger] used@[j] ==> !is_header_sentence(sents@[j]@),
                used_set(used@) == used_before(sv, k as nat),
                opt_cat(h) == (if k == 0 { None } else { last_category(sv, n as int) }),
                sel_all@.len() == k,
                forall|t: int| 0 <= t < k ==> (#[trigger] sel_all@[t])@.len() == selection(sv, t as nat).len(),
                forall|t: int, j: int| 0 <= t < k && 0 <= j < sel_all@[t]@.len() ==>
                    (#[trigger] sel_all@[t]@[j]) as int == selection(sv, t as nat)[j] && sel_all@[t]@[j] < n,
            decreases 3 - k,
        {
            let (c, s, end) = pass_candidates(&sents, &lows, k, &used, h);
            let ghost cands = candidates(sv, k as int, used_set(used@), n as int);
            assert(pairs(c@, s@) =~= cands);
            let sel = select_two(&c, &s);
            proof {
                lemma_candidates_facts(sv, k as int, used_set(used@), n as int);
                lemma_top_two_members(cands);
            }
            let ghost before = used@;
            let mut j: usize = 0;
            while j < sel.len()
                invariant
                    j <= sel@.len(),
                    sel@.len() == top_two(cands).len(),
                    forall|t: int| 0 <= t < sel@.len() ==> sel@[t] as int == #[trigger] top_two(cands)[t],
                    forall|t: int| 0 <= t < top_two(cands).len() ==> exists|u: int| 0 <= u < cands.len() && cands[u].0 == #[trigger] top_two(cands)[t],
                    forall|u: int| 0 <= u < cands.len() ==> {
                        let e = #[trigger] cands[u];
                        0 <= e.0 < n && eligible(sv, k as int, used_set(before), e.0)
                    },
                    n == sents@.len(),
                    sv == views(sents@),
                    used@.len() == n,
                    before.len() == n,
                    forall|t: int| 0 <= t < n && #[trigger] used@[t] ==> !is_header_sentence(sents@[t]@),
                    used_set(used@) == used_set(before).union(top_two(cands).subrange(0, j as int).to_set()),
                decreases sel.len() - j,
            {
                let idx = sel[j];
                let ghost u = choose|u: int| 0 <= u < cands.len() && cands[u].0 == #[trigger] top_two(cands)[j as int];
                assert(cands[u].0 == idx as int);
                assert(eligible(sv, k as int, used_set(before), idx as int));
                assert(sv[idx as int] == sents@[idx as int]@);
                let ghost old_used = used@;
                used.set(idx, true);
                assert(used_set(used@) =~= used_set(before).union(top_two(cands).subrange(0, j + 1).to_set())) by {
                    let tt = top_two(cands).subrange(0, j + 1);
                    assert(tt.drop_last() == top_two(cands).subrange(0, j as int));
                    assert(tt.last() == idx as int);
                    assert(tt.drop_last().to_set().insert(tt.last()) =~= tt.to_set());
                    assert(used_set(used@) =~= used_set(old_used).insert(idx as int));
                }
                j = j + 1;
            }
            assert(top_two(cands).subrange(0, sel@.len() as int) == top_two(cands));
            assert(selection(sv, k as nat) == top_two(cands));
            assert(used_before(sv, (k + 1) as nat) == used_before(sv, k as nat).union(selection(sv, k as nat).to_set()));
            proof {
                assert forall|t: int| 0 <= t < sel@.len() implies (#[trigger] sel@[t]) < n by {
                    let u = choose|u: int| 0 <= u < cands.len() && cands[u].0 == #[trigger] top_two(cands)[t];
                }
            }
            h = end;
            let ghost prev_all = sel_all@;
            sel_all.push(sel);
            assert forall|t: int, j2: int| 0 <= t < k + 1 && 0 <= j2 < sel_all@[t]@.len() implies
                (#[trigger] sel_all@[t]@[j2]) as int == selection(sv, t as nat)[j2] && sel_all@[t]@[j2] < n by {
                if t < k {
                    assert(sel_all@[t] == prev_all[t]);
                }
            }
            k = k + 1;
        }
        let mut secs: Vec<Vec<char>> = Vec::new();
        let mut k2: usize = 0;
        let ghost s0: Seq<Seq<char>> = if selection(sv, 0).len() > 0 { seq![section(sv, 0)] } else { Seq::empty() };
        let ghost s1: Seq<Seq<char>> = if selection(sv, 1).len() > 0 { s0.push(section(sv, 1)) } else { s0 };
        let ghost s2: Seq<Seq<char>> = if selection(sv, 2).len() > 0 { s1.push(section(sv, 2)) } else { s1 };
        while k2 < 3
            invariant
                k2 <= 3,
                n == sents@.len(),
                sv == views(sents@),
                sel_all@.len() == 3,
                forall|t: int| 0 <= t < 3 ==> (#[trigger] sel_all@[t])@.len() == selection(sv, t as nat).len(),
                forall|t: int, j: int| 0 <= t < 3 && 0 <= j < sel_all@[t]@.len() ==>
                    (#[trigger] sel_all@[t]@[j]) as int == selection(sv, t as nat)[j] && sel_all@[t]@[j] < n,
                s0 == (if selection(sv, 0).len() > 0 { seq![section(sv, 0)] } else { Seq::<Seq<char>>::empty() }),
                s1 == (if selection(sv, 1).len() > 0 { s0.push(section(sv, 1)) } else { s0 }),
                s2 == (if selection(sv, 2).len() > 0 { s1.push(section(sv, 2)) } else { s1 }),
                k2 == 0 ==> secs@.len() == 0,
                k2 == 1 ==> secs@.map_values(|v: Vec<char>| v@) == s0,
                k2 == 2 ==> secs@.map_values(|v: Vec<char>| v@) == s1,
                k2 == 3 ==> secs@.map_values(|v: Vec<char>| v@) == s2,
            decreases 3 - k2,
        {
            let ghost prev = secs@.map_values(|v: Vec<char>| v@);
            if sel_all[k2].len() > 0 {
                let sec = section_of(&sents, k2, &sel_all[k2]);
                secs.push(sec);
                assert(secs@.map_values(|v: Vec<char>| v@) =~= prev.push(section(sv, k2 as nat)));
            } else {
                assert(secs@.map_values(|v: Vec<char>| v@) =~= prev);
            }
            proof {
                if k2 == 0 {
                    assert(prev =~= Seq::<Seq<char>>::empty());
                }
            }
            k2 = k2 + 1;
        }
        assert(secs@.map_values(|v: Vec<char>| v@) == sections(sv));
        let body = join_chars(&secs, chars_of("\n").as_slice());
        if body.len() == 0 {
            Ok("Ingen kärna identifierad.".to_owned())
        } else {
            Ok(string_from_chars(body.as_slice()))
        }
    }
}

} // verus!
