//! Word documents as paragraphs: the paragraphs a Markdown letter becomes,
//! and those of the report for the employment officer.

use vstd::prelude::*;
use crate::editor::{markdown_events, parse_markdown, str_lines, text_lines, MdEvent};
use crate::models::{is_minute_stamp, JobAd};
use crate::listing::{before_t, date_part};
use crate::text::{append_chars, chars_of, decimal, push_decimal, string_from_chars, trim, trim_chars};

verus! {

/// The named style of a paragraph.
#[derive(Debug, Clone, Copy, PartialEq, Eq, Structural)]
pub enum ParaStyle {
    Normal,
    Heading1,
    Heading2,
    Heading3,
    Heading4,
}

/// The alignment of a paragraph.
#[derive(Debug, Clone, Copy, PartialEq, Eq, Structural)]
pub enum ParaAlign {
    Left,
    Center,
    Both,
}

/// A piece of a paragraph: text, or a line break.
#[derive(Debug, Clone)]
pub enum DocRun {
    Text(String),
    Break,
}

/// A paragraph of a Word document: its style, alignment, text size (in
/// half points), whether it is bold, and its pieces.
#[derive(Debug, Clone)]
pub struct DocParagraph {
    pub style: Option<ParaStyle>,
    pub align: Option<ParaAlign>,
    pub size: Option<u32>,
    pub bold: bool,
    pub runs: Vec<DocRun>,
}

/// A piece as text (`None` for a line break).
pub open spec fn run_view(r: DocRun) -> Option<Seq<char>> {
    match r {
        DocRun::Text(t) => Some(t@),
        DocRun::Break => None,
    }
}

/// A paragraph as plain values.
pub open spec fn para_view(p: DocParagraph) -> (Option<ParaStyle>, Option<ParaAlign>, Option<u32>, bool, Seq<Option<Seq<char>>>) {
    (p.style, p.align, p.size, p.bold, p.runs@.map_values(|r: DocRun| run_view(r)))
}

pub open spec fn paras_view(ps: Seq<DocParagraph>) -> Seq<(Option<ParaStyle>, Option<ParaAlign>, Option<u32>, bool, Seq<Option<Seq<char>>>)> {
    ps.map_values(|p: DocParagraph| para_view(p))
}

pub open spec fn plain_para() -> (Option<ParaStyle>, Option<ParaAlign>, Option<u32>, bool, Seq<Option<Seq<char>>>) {
    (None, None, None, false, Seq::empty())
}

fn empty_paragraph() -> (p: DocParagraph)
    ensures
        para_view(p) == plain_para(),
{
    let p = DocParagraph { style: None, align: None, size: None, bold: false, runs: Vec::new() };
    assert(para_view(p).4 =~= Seq::<Option<Seq<char>>>::empty());
    p
}

// ---------------------------------------------------------------------------
// A Markdown letter as paragraphs.
// ---------------------------------------------------------------------------

pub open spec fn heading_style(level: u32) -> ParaStyle {
    if level == 1 {
        ParaStyle::Heading1
    } else if level == 2 {
        ParaStyle::Heading2
    } else if level == 3 {
        ParaStyle::Heading3
    } else {
        ParaStyle::Heading4
    }
}

/// One parser event applied to the paragraphs written so far and the one
/// being built: a heading or paragraph starts a new one (headings by
/// their style, paragraphs justified), text and breaks are added to it, and
/// its end writes it.
pub open spec fn docx_step(
    state: (Seq<(Option<ParaStyle>, Option<ParaAlign>, Option<u32>, bool, Seq<Option<Seq<char>>>)>, (Option<ParaStyle>, Option<ParaAlign>, Option<u32>, bool, Seq<Option<Seq<char>>>)),
    e: MdEvent,
) -> (Seq<(Option<ParaStyle>, Option<ParaAlign>, Option<u32>, bool, Seq<Option<Seq<char>>>)>, (Option<ParaStyle>, Option<ParaAlign>, Option<u32>, bool, Seq<Option<Seq<char>>>)) {
    let (done, cur) = state;
    match e {
        MdEvent::StartHeading(l) => (done, (Some(heading_style(l)), None, None, false, Seq::empty())),
        MdEvent::StartParagraph => (done, (None, Some(ParaAlign::Both), None, false, Seq::empty())),
        MdEvent::Text(t) => (done, (cur.0, cur.1, cur.2, cur.3, cur.4.push(Some(t@)))),
        MdEvent::EndParagraph => (done.push(cur), plain_para()),
        MdEvent::EndHeading => (done.push(cur), plain_para()),
        MdEvent::SoftBreak => (done, (cur.0, cur.1, cur.2, cur.3, cur.4.push(Some(" "@)))),
        MdEvent::HardBreak => (done, (cur.0, cur.1, cur.2, cur.3, cur.4.push(None))),
        _ => (done, cur),
    }
}

pub open spec fn docx_fold(events: Seq<MdEvent>) -> (Seq<(Option<ParaStyle>, Option<ParaAlign>, Option<u32>, bool, Seq<Option<Seq<char>>>)>, (Option<ParaStyle>, Option<ParaAlign>, Option<u32>, bool, Seq<Option<Seq<char>>>))
    decreases events.len(),
{
    if events.len() == 0 {
        (seq![(Some(ParaStyle::Normal), Some(ParaAlign::Left), None, false, Seq::empty())], plain_para())
    } else {
        docx_step(docx_fold(events.drop_last()), events.last())
    }
}

fn add_run(p: &mut DocParagraph, r: DocRun)
    ensures
        para_view(*final(p)) == (old(p).style, old(p).align, old(p).size, old(p).bold, para_view(*old(p)).4.push(run_view(r))),
{
    let ghost before = p.runs@;
    let ghost rv = run_view(r);
    p.runs.push(r);
    assert(p.runs@.map_values(|r: DocRun| run_view(r)) =~= before.map_values(|r: DocRun| run_view(r)).push(rv));
}

/// The paragraphs of a document made from parser events: an empty normal
/// paragraph first, then every heading and paragraph that ends.
pub fn docx_paragraphs_of(events: &Vec<MdEvent>) -> (r: Vec<DocParagraph>)
    ensures
        paras_view(r@) == docx_fold(events@).0,
{
    let mut done: Vec<DocParagraph> = Vec::new();
    let first = DocParagraph { style: Some(ParaStyle::Normal), align: Some(ParaAlign::Left), size: None, bold: false, runs: Vec::new() };
    assert(para_view(first).4 =~= Seq::<Option<Seq<char>>>::empty());
    done.push(first);
    let mut cur = empty_paragraph();
    let mut i: usize = 0;
    assert(events@.take(0) =~= Seq::<MdEvent>::empty());
    assert(paras_view(done@) =~= docx_fold(Seq::<MdEvent>::empty()).0);
    while i < events.len()
        invariant
            i <= events@.len(),
            (paras_view(done@), para_view(cur)) == docx_fold(events@.take(i as int)),
        decreases events.len() - i,
    {
        assert(events@.take(i + 1).drop_last() =~= events@.take(i as int));
        match &events[i] {
            MdEvent::StartHeading(l) => {
                let style = if *l == 1 {
                    ParaStyle::Heading1
                } else if *l == 2 {
                    ParaStyle::Heading2
                } else if *l == 3 {
                    ParaStyle::Heading3
                } else {
                    ParaStyle::Heading4
                };
                cur = DocParagraph { style: Some(style), align: None, size: None, bold: false, runs: Vec::new() };
                assert(para_view(cur).4 =~= Seq::<Option<Seq<char>>>::empty());
            },
            MdEvent::StartParagraph => {
                cur = DocParagraph { style: None, align: Some(ParaAlign::Both), size: None, bold: false, runs: Vec::new() };
                assert(para_view(cur).4 =~= Seq::<Option<Seq<char>>>::empty());
            },
            MdEvent::Text(t) => {
                add_run(&mut cur, DocRun::Text(t.clone()));
            },
            MdEvent::EndParagraph | MdEvent::EndHeading => {
                let ghost before = done@;
                let finished = cur;
                done.push(finished);
                assert(paras_view(done@) =~= paras_view(before).push(para_view(finished)));
                cur = empty_paragraph();
            },
            MdEvent::SoftBreak => {
                add_run(&mut cur, DocRun::Text(" ".to_string()));
            },
            MdEvent::HardBreak => {
                add_run(&mut cur, DocRun::Break);
            },
            _ => {},
        }
        i = i + 1;
    }
    assert(events@.take(events@.len() as int) =~= events@);
    done
}

/// The paragraphs of the Word document made from a Markdown letter.
pub fn markdown_to_docx_paragraphs(markdown: &str) -> (r: Vec<DocParagraph>)
    ensures
        paras_view(r@) == docx_fold(markdown_events(markdown@)).0,
{
    let events = parse_markdown(markdown);
    docx_paragraphs_of(&events)
}

// ---------------------------------------------------------------------------
// The report for the employment officer.
// ---------------------------------------------------------------------------

/// A selected application: the job, and the letter drafted for it where
/// one could be read.
pub struct ReportDraft {
    pub ad: JobAd,
    pub draft: Option<String>,
}

/// A line of sixty box-drawing strokes.
pub open spec fn rule_line() -> Seq<char> {
    Seq::new(60, |i: int| '─')
}

pub open spec fn text_para(t: Seq<char>) -> (Option<ParaStyle>, Option<ParaAlign>, Option<u32>, bool, Seq<Option<Seq<char>>>) {
    (None, None, None, false, seq![Some(t)])
}

pub open spec fn employer_or_unknown(ad: JobAd) -> Seq<char> {
    match ad.employer {
        Some(e) => match e.name {
            Some(n) => n@,
            None => "Okänd arbetsgivare"@,
        },
        None => "Okänd arbetsgivare"@,
    }
}

/// A letter's lines as paragraphs; a blank line stays an empty paragraph.
pub open spec fn line_paras(lines: Seq<Seq<char>>) -> Seq<(Option<ParaStyle>, Option<ParaAlign>, Option<u32>, bool, Seq<Option<Seq<char>>>)>
    decreases lines.len(),
{
    if lines.len() == 0 {
        Seq::empty()
    } else {
        line_paras(lines.drop_last()) + seq![if trim(lines.last()).len() > 0 { text_para(lines.last()) } else { plain_para() }]
    }
}

/// The paragraphs of the `i`-th of `n` selected applications.
pub open spec fn entry_paras(i: int, n: int, d: ReportDraft) -> Seq<(Option<ParaStyle>, Option<ParaAlign>, Option<u32>, bool, Seq<Option<Seq<char>>>)> {
    seq![
        (None, None, Some(18u32), true, seq![Some("Ansökan "@ + decimal((i + 1) as nat))]),
        text_para("Företag: "@ + employer_or_unknown(d.ad)),
        text_para("Publicerad: "@ + before_t(d.ad.publication_date@)),
    ] + match d.draft {
        Some(c) => seq![plain_para(), (None, None, None, true, seq![Some("Ansökningstext:"@)])] + line_paras(str_lines(c@)),
        None => Seq::empty(),
    } + if i < n - 1 { seq![plain_para(), text_para(rule_line()), plain_para()] } else { Seq::empty() }
}

/// The paragraphs of the selected applications that were found, numbered
/// by their place in the selection.
pub open spec fn entries_paras(sel: Seq<Option<ReportDraft>>, n: int) -> Seq<(Option<ParaStyle>, Option<ParaAlign>, Option<u32>, bool, Seq<Option<Seq<char>>>)>
    decreases sel.len(),
{
    if sel.len() == 0 {
        Seq::empty()
    } else {
        entries_paras(sel.drop_last(), n) + match sel.last() {
            Some(d) => entry_paras(sel.len() - 1, n, d),
            None => Seq::empty(),
        }
    }
}

/// The report for the employment officer, generated at `date`: a title,
/// the date, each selected application with its letter, and a closing note.
pub open spec fn officer_report_spec(date: Seq<char>, sel: Seq<Option<ReportDraft>>) -> Seq<(Option<ParaStyle>, Option<ParaAlign>, Option<u32>, bool, Seq<Option<Seq<char>>>)> {
    seq![
        (None, Some(ParaAlign::Center), Some(28u32), true, seq![Some("Handläggarrapport"@)]),
        (None, Some(ParaAlign::Center), Some(12u32), false, seq![Some("Genererad: "@ + date)]),
        plain_para(),
    ] + entries_paras(sel, sel.len() as int) + seq![
        plain_para(),
        (None, Some(ParaAlign::Center), None, false, seq![Some(rule_line())]),
        (None, Some(ParaAlign::Center), Some(10u32), false, seq![Some("Detta dokument är en sammanställning av ansökningar till Arbetsförmedlingen."@)]),
    ]
}

fn para_with(text: Vec<char>, align: Option<ParaAlign>, size: Option<u32>, bold: bool) -> (p: DocParagraph)
    ensures
        para_view(p) == (None::<ParaStyle>, align, size, bold, seq![Some(text@)]),
{
    let mut runs: Vec<DocRun> = Vec::new();
    let ghost tv = text@;
    runs.push(DocRun::Text(string_from_chars(text.as_slice())));
    let p = DocParagraph { style: None, align, size, bold, runs };
    assert(para_view(p).4 =~= seq![Some(tv)]);
    p
}

fn push_para(out: &mut Vec<DocParagraph>, p: DocParagraph)
    ensures
        paras_view(final(out)@) == paras_view(old(out)@).push(para_view(p)),
{
    let ghost before = out@;
    let ghost pv = para_view(p);
    out.push(p);
    assert(paras_view(out@) =~= paras_view(before).push(pv));
}

fn rule_chars() -> (r: Vec<char>)
    ensures
        r@ == rule_line(),
{
    let mut r: Vec<char> = Vec::new();
    let mut i: usize = 0;
    while i < 60
        invariant
            i <= 60,
            r@ == Seq::new(i as nat, |k: int| '─'),
        decreases 60 - i,
    {
        r.push('─');
        assert(r@ =~= Seq::new((i + 1) as nat, |k: int| '─'));
        i = i + 1;
    }
    r
}

fn push_entry(out: &mut Vec<DocParagraph>, i: usize, n: usize, d: &ReportDraft)
    requires
        i < n,
    ensures
        paras_view(final(out)@) == paras_view(old(out)@) + entry_paras(i as int, n as int, *d),
{
    let ghost start = paras_view(out@);
    let mut title = chars_of("Ansökan ");
    push_decimal(&mut title, (i as u64) + 1);
    push_para(out, para_with(title, None, Some(18), true));
    let mut company = chars_of("Företag: ");
    match &d.ad.employer {
        Some(e) => match &e.name {
            Some(n) => append_chars(&mut company, chars_of(n.as_str()).as_slice()),
            None => append_chars(&mut company, chars_of("Okänd arbetsgivare").as_slice()),
        },
        None => append_chars(&mut company, chars_of("Okänd arbetsgivare").as_slice()),
    }
    push_para(out, para_with(company, None, None, false));
    let mut published = chars_of("Publicerad: ");
    append_chars(&mut published, chars_of(date_part(d.ad.publication_date.as_str()).as_str()).as_slice());
    push_para(out, para_with(published, None, None, false));
    let ghost after_head = paras_view(out@);
    assert(after_head =~= start + seq![
        (None, None, Some(18u32), true, seq![Some("Ansökan "@ + decimal((i + 1) as nat))]),
        text_para("Företag: "@ + employer_or_unknown(d.ad)),
        text_para("Publicerad: "@ + before_t(d.ad.publication_date@)),
    ]);
    match &d.draft {
        Some(c) => {
            push_para(out, empty_paragraph());
            push_para(out, para_with(chars_of("Ansökningstext:"), None, None, true));
            let lines = text_lines(c.as_str());
            let ghost ls = str_lines(c@);
            let ghost mid = paras_view(out@);
            let mut k: usize = 0;
            assert(ls.take(0) =~= Seq::<Seq<char>>::empty());
            assert(mid =~= mid + line_paras(ls.take(0)));
            while k < lines.len()
                invariant
                    k <= lines@.len() == ls.len(),
                    ls == str_lines(c@),
                    forall|m: int| 0 <= m < lines@.len() ==> #[trigger] lines@[m]@ == ls[m],
                    paras_view(out@) == mid + line_paras(ls.take(k as int)),
                decreases lines.len() - k,
            {
                assert(ls.take(k + 1).drop_last() =~= ls.take(k as int));
                let t = trim_chars(lines[k].as_slice());
                if t.len() > 0 {
                    let line = crate::text::copy_range(lines[k].as_slice(), 0, lines[k].len());
                    assert(line@ =~= ls[k as int]);
                    push_para(out, para_with(line, None, None, false));
                } else {
                    push_para(out, empty_paragraph());
                }
                assert(paras_view(out@) =~= mid + line_paras(ls.take(k + 1)));
                k = k + 1;
            }
            assert(ls.take(ls.len() as int) =~= ls);
        },
        None => {},
    }
    let ghost after_draft = paras_view(out@);
    if i < n - 1 {
        push_para(out, empty_paragraph());
        push_para(out, para_with(rule_chars(), None, None, false));
        push_para(out, empty_paragraph());
    }
    assert(paras_view(out@) =~= start + entry_paras(i as int, n as int, *d));
}

/// The report for the employment officer, dated `date`.
pub fn officer_report_paragraphs_at(date: &str, selected: &Vec<Option<ReportDraft>>) -> (r: Vec<DocParagraph>)
    ensures
        paras_view(r@) == officer_report_spec(date@, selected@),
{
    let mut out: Vec<DocParagraph> = Vec::new();
    push_para(&mut out, para_with(chars_of("Handläggarrapport"), Some(ParaAlign::Center), Some(28), true));
    let mut stamp = chars_of("Genererad: ");
    append_chars(&mut stamp, chars_of(date).as_slice());
    push_para(&mut out, para_with(stamp, Some(ParaAlign::Center), Some(12), false));
    push_para(&mut out, empty_paragraph());
    let ghost head = paras_view(out@);
    let n = selected.len();
    let mut i: usize = 0;
    assert(selected@.take(0) =~= Seq::<Option<ReportDraft>>::empty());
    assert(head =~= head + entries_paras(selected@.take(0), n as int));
    while i < n
        invariant
            i <= n == selected@.len(),
            paras_view(out@) == head + entries_paras(selected@.take(i as int), n as int),
        decreases n - i,
    {
        assert(selected@.take(i + 1).drop_last() =~= selected@.take(i as int));
        let ghost before = paras_view(out@);
        match &selected[i] {
            Some(d) => {
                push_entry(&mut out, i, n, d);
            },
            None => {},
        }
        assert(paras_view(out@) =~= head + entries_paras(selected@.take(i + 1), n as int));
        i = i + 1;
    }
    assert(selected@.take(n as int) =~= selected@);
    push_para(&mut out, empty_paragraph());
    push_para(&mut out, para_with(rule_chars(), Some(ParaAlign::Center), None, false));
    push_para(&mut out, para_with(
        chars_of("Detta dokument är en sammanställning av ansökningar till Arbetsförmedlingen."),
        Some(ParaAlign::Center),
        Some(10),
        false,
    ));
    assert(paras_view(out@) =~= officer_report_spec(date@, selected@));
    out
}

/// The current UTC time as the report shows it: `Utc::now()` formatted
/// `%Y-%m-%d %H:%M`. Which time it is is the clock's; the form is chrono's.
#[verifier::external_body]
fn report_stamp_now() -> (r: String)
    ensures
        is_minute_stamp(r@),
{
    chrono::Utc::now().format("%Y-%m-%d %H:%M").to_string()
}

/// The report for the employment officer, dated now.
pub fn officer_report_paragraphs(selected: &Vec<Option<ReportDraft>>) -> (r: Vec<DocParagraph>)
    ensures
        exists|date: Seq<char>| is_minute_stamp(date) && paras_view(r@) == #[trigger] officer_report_spec(date, selected@),
{
    let date = report_stamp_now();
    let r = officer_report_paragraphs_at(date.as_str(), selected);
    assert(paras_view(r@) == officer_report_spec(date@, selected@));
    r
}


// ---------------------------------------------------------------------------
// Building the Word document.
// ---------------------------------------------------------------------------

#[verifier::external_type_specification]
#[verifier::external_body]
pub struct ExDocx(docx_rs::Docx);

#[verifier::external_type_specification]
#[verifier::external_body]
pub struct ExParagraph(docx_rs::Paragraph);

/// The paragraphs of a document's body, in order, each by what it shows:
/// its style id, alignment, text size, boldness and runs.
pub uninterp spec fn docx_body(d: docx_rs::Docx) -> Seq<(Option<Seq<char>>, Option<ParaAlign>, Option<u32>, bool, Seq<Option<Seq<char>>>)>;

/// The runs of a paragraph, in order: the text a run stores (XML-escaped,
/// as docx-rs keeps it), or `None` for a line break.
pub uninterp spec fn paragraph_runs(p: docx_rs::Paragraph) -> Seq<Option<Seq<char>>>;

/// The formatting of a paragraph: its style id as stored (XML-escaped),
/// alignment, text size (the paragraph mark's run property) and whether
/// that run property is bold.
pub uninterp spec fn paragraph_format(p: docx_rs::Paragraph) -> (Option<Seq<char>>, Option<ParaAlign>, Option<u32>, bool);

/// A paragraph of a document body as plain values.
pub open spec fn paragraph_model(p: docx_rs::Paragraph) -> (Option<Seq<char>>, Option<ParaAlign>, Option<u32>, bool, Seq<Option<Seq<char>>>) {
    let f = paragraph_format(p);
    (f.0, f.1, f.2, f.3, paragraph_runs(p))
}

/// A text with its line feeds removed (what `Run::add_text` keeps).
pub open spec fn without_line_feeds(s: Seq<char>) -> Seq<char> {
    s.filter(|c: char| c != '\n')
}

/// How docx-rs stores one character of a text or a style id (its private
/// `escape`): the five XML specials as entities, a line feed as `&#xA;`,
/// a carriage return dropped.
pub open spec fn xml_char(c: char) -> Seq<char> {
    if c == '&' {
        "&amp;"@
    } else if c == '<' {
        "&lt;"@
    } else if c == '>' {
        "&gt;"@
    } else if c == '"' {
        "&quot;"@
    } else if c == '\'' {
        "&apos;"@
    } else if c == '\n' {
        "&#xA;"@
    } else if c == '\r' {
        Seq::empty()
    } else {
        seq![c]
    }
}

/// A text as docx-rs stores it (`escape_owned`, which gives the text back
/// as it is when no character needs escaping, and `escape` of it otherwise).
pub open spec fn xml_escaped(s: Seq<char>) -> Seq<char>
    decreases s.len(),
{
    if s.len() == 0 {
        Seq::empty()
    } else {
        xml_escaped(s.drop_last()) + xml_char(s.last())
    }
}

/// An empty document (`Docx::new`): its body holds no paragraph.
#[verifier::external_body]
fn docx_new() -> (d: docx_rs::Docx)
    ensures
        docx_body(d) == Seq::<(Option<Seq<char>>, Option<ParaAlign>, Option<u32>, bool, Seq<Option<Seq<char>>>)>::empty(),
{
    docx_rs::Docx::new()
}

/// The document with one more paragraph (`Docx::add_paragraph`, which
/// pushes it onto the body's children).
#[verifier::external_body]
fn docx_add_paragraph(doc: docx_rs::Docx, p: docx_rs::Paragraph) -> (d: docx_rs::Docx)
    ensures
        docx_body(d) == docx_body(doc).push(paragraph_model(p)),
{
    doc.add_paragraph(p)
}

/// An empty paragraph (`Paragraph::new`): no runs, no style, alignment,
/// size or boldness.
#[verifier::external_body]
fn paragraph_new() -> (p: docx_rs::Paragraph)
    ensures
        paragraph_runs(p) == Seq::<Option<Seq<char>>>::empty(),
        paragraph_format(p) == (None::<Seq<char>>, None::<ParaAlign>, None::<u32>, false),
{
    docx_rs::Paragraph::new()
}

/// The paragraph with a named style (`Paragraph::style`, which stores the
/// id through `ParagraphStyle::new`, escaped).
#[verifier::external_body]
fn paragraph_style(p: docx_rs::Paragraph, style: &str) -> (r: docx_rs::Paragraph)
    ensures
        paragraph_runs(r) == paragraph_runs(p),
        paragraph_format(r) == (Some(xml_escaped(style@)), paragraph_format(p).1, paragraph_format(p).2, paragraph_format(p).3),
{
    p.style(style)
}

/// The paragraph with an alignment (`Paragraph::align`).
#[verifier::external_body]
fn paragraph_align(p: docx_rs::Paragraph, align: ParaAlign) -> (r: docx_rs::Paragraph)
    ensures
        paragraph_runs(r) == paragraph_runs(p),
        paragraph_format(r) == (paragraph_format(p).0, Some(align), paragraph_format(p).2, paragraph_format(p).3),
{
    p.align(match align {
        ParaAlign::Left => docx_rs::AlignmentType::Left,
        ParaAlign::Center => docx_rs::AlignmentType::Center,
        ParaAlign::Both => docx_rs::AlignmentType::Both,
    })
}

/// The paragraph with a text size in half points (`Paragraph::size`, which
/// sets the size of the paragraph mark's run property).
#[verifier::external_body]
fn paragraph_size(p: docx_rs::Paragraph, size: u32) -> (r: docx_rs::Paragraph)
    ensures
        paragraph_runs(r) == paragraph_runs(p),
        paragraph_format(r) == (paragraph_format(p).0, paragraph_format(p).1, Some(size), paragraph_format(p).3),
{
    p.size(size as usize)
}

/// The paragraph in bold (`Paragraph::bold`, which makes the paragraph
/// mark's run property bold).
#[verifier::external_body]
fn paragraph_bold(p: docx_rs::Paragraph) -> (r: docx_rs::Paragraph)
    ensures
        paragraph_runs(r) == paragraph_runs(p),
        paragraph_format(r) == (paragraph_format(p).0, paragraph_format(p).1, paragraph_format(p).2, true),
{
    p.bold()
}

/// The paragraph with a run of text (`Run::add_text`, which drops line
/// feeds and stores the rest through `Text::new`, escaped; then
/// `Paragraph::add_run`).
#[verifier::external_body]
fn paragraph_text(p: docx_rs::Paragraph, text: &str) -> (r: docx_rs::Paragraph)
    ensures
        paragraph_runs(r) == paragraph_runs(p).push(Some(xml_escaped(without_line_feeds(text@)))),
        paragraph_format(r) == paragraph_format(p),
{
    p.add_run(docx_rs::Run::new().add_text(text))
}

/// The paragraph with a line break (`Run::add_break` with a text-wrapping
/// break, `Paragraph::add_run`).
#[verifier::external_body]
fn paragraph_break(p: docx_rs::Paragraph) -> (r: docx_rs::Paragraph)
    ensures
        paragraph_runs(r) == paragraph_runs(p).push(None::<Seq<char>>),
        paragraph_format(r) == paragraph_format(p),
{
    p.add_run(docx_rs::Run::new().add_break(docx_rs::BreakType::TextWrapping))
}

/// The style id of a paragraph style in the document.
pub open spec fn style_id(s: ParaStyle) -> Seq<char> {
    match s {
        ParaStyle::Normal => "Normal"@,
        ParaStyle::Heading1 => "Heading1"@,
        ParaStyle::Heading2 => "Heading2"@,
        ParaStyle::Heading3 => "Heading3"@,
        ParaStyle::Heading4 => "Heading4"@,
    }
}

/// The name of a paragraph style in the document.
pub fn style_name(s: ParaStyle) -> (r: &'static str)
    ensures
        r@ == match s {
            ParaStyle::Normal => "Normal"@,
            ParaStyle::Heading1 => "Heading1"@,
            ParaStyle::Heading2 => "Heading2"@,
            ParaStyle::Heading3 => "Heading3"@,
            ParaStyle::Heading4 => "Heading4"@,
        },
{
    match s {
        ParaStyle::Normal => "Normal",
        ParaStyle::Heading1 => "Heading1",
        ParaStyle::Heading2 => "Heading2",
        ParaStyle::Heading3 => "Heading3",
        ParaStyle::Heading4 => "Heading4",
    }
}

/// A piece of a paragraph as the document stores it.
pub open spec fn docx_run(r: Option<Seq<char>>) -> Option<Seq<char>> {
    match r {
        Some(t) => Some(xml_escaped(without_line_feeds(t))),
        None => None,
    }
}

/// A paragraph as the document stores it: the style by its id, and its
/// texts without line feeds, both XML-escaped.
pub open spec fn docx_model(v: (Option<ParaStyle>, Option<ParaAlign>, Option<u32>, bool, Seq<Option<Seq<char>>>)) -> (Option<Seq<char>>, Option<ParaAlign>, Option<u32>, bool, Seq<Option<Seq<char>>>) {
    (
        match v.0 {
            Some(s) => Some(xml_escaped(style_id(s))),
            None => None,
        },
        v.1,
        v.2,
        v.3,
        v.4.map_values(|r: Option<Seq<char>>| docx_run(r)),
    )
}

fn docx_paragraph(p: &DocParagraph) -> (r: docx_rs::Paragraph)
    ensures
        paragraph_model(r) == docx_model(para_view(*p)),
{
    let ghost runs = p.runs@.map_values(|r: DocRun| run_view(r));
    let mut out = paragraph_new();
    match p.style {
        Some(s) => {
            out = paragraph_style(out, style_name(s));
        },
        None => {},
    }
    match p.align {
        Some(a) => {
            out = paragraph_align(out, a);
        },
        None => {},
    }
    let ghost fmt = paragraph_format(out);
    assert(fmt == (docx_model(para_view(*p)).0, p.align, None::<u32>, false));
    let mut i: usize = 0;
    while i < p.runs.len()
        invariant
            i <= p.runs@.len(),
            runs == p.runs@.map_values(|r: DocRun| run_view(r)),
            paragraph_format(out) == fmt,
            paragraph_runs(out) == runs.subrange(0, i as int).map_values(|r: Option<Seq<char>>| docx_run(r)),
        decreases p.runs.len() - i,
    {
        let ghost before = paragraph_runs(out);
        match &p.runs[i] {
            DocRun::Text(t) => {
                out = paragraph_text(out, t.as_str());
            },
            DocRun::Break => {
                out = paragraph_break(out);
            },
        }
        assert(runs.subrange(0, i + 1) == runs.subrange(0, i as int).push(runs[i as int]));
        assert(runs.subrange(0, i + 1).map_values(|r: Option<Seq<char>>| docx_run(r))
            =~= runs.subrange(0, i as int).map_values(|r: Option<Seq<char>>| docx_run(r)).push(docx_run(runs[i as int])));
        i = i + 1;
    }
    assert(runs.subrange(0, p.runs@.len() as int) == runs);
    match p.size {
        Some(n) => {
            out = paragraph_size(out, n);
        },
        None => {},
    }
    if p.bold {
        out = paragraph_bold(out);
    }
    assert(paragraph_model(out).4 =~= docx_model(para_view(*p)).4);
    out
}

/// The Word document with the given paragraphs, in order.
pub fn build_docx(paras: &Vec<DocParagraph>) -> (d: docx_rs::Docx)
    ensures
        docx_body(d) == paras_view(paras@).map_values(|v: (Option<ParaStyle>, Option<ParaAlign>, Option<u32>, bool, Seq<Option<Seq<char>>>)| docx_model(v)),
{
    let mut doc = docx_new();
    let mut i: usize = 0;
    while i < paras.len()
        invariant
            i <= paras@.len(),
            docx_body(doc) == paras_view(paras@.subrange(0, i as int)).map_values(|v: (Option<ParaStyle>, Option<ParaAlign>, Option<u32>, bool, Seq<Option<Seq<char>>>)| docx_model(v)),
        decreases paras.len() - i,
    {
        let p = docx_paragraph(&paras[i]);
        doc = docx_add_paragraph(doc, p);
        assert(paras_view(paras@.subrange(0, i + 1)).map_values(|v: (Option<ParaStyle>, Option<ParaAlign>, Option<u32>, bool, Seq<Option<Seq<char>>>)| docx_model(v))
            =~= paras_view(paras@.subrange(0, i as int)).map_values(|v: (Option<ParaStyle>, Option<ParaAlign>, Option<u32>, bool, Seq<Option<Seq<char>>>)| docx_model(v)).push(docx_model(para_view(paras@[i as int]))));
        i = i + 1;
    }
    assert(paras@.subrange(0, paras@.len() as int) == paras@);
    doc
}

} // verus!

