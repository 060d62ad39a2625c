//! The letter editor: its text and the formatting commands that change it,
//! the letter template, the structure of the live preview, and what is
//! made of a letter's Markdown for plain text, HTML and Word documents.

use vstd::prelude::*;
use pulldown_cmark::{Event, Tag, TagEnd};
use crate::text::{
    append_chars, chars_of, split, split_chars, starts_with_chars, string_from_chars, trim, trim_chars,
    trim_end, trim_start, white_space,
};

verus! {

// ---------------------------------------------------------------------------
// The editor.
// ---------------------------------------------------------------------------

/// A formatting command of the editor's toolbar, or text to add.
#[derive(Debug, Clone)]
pub enum RichEditorMessage {
    Bold,
    Italic,
    Heading1,
    Heading2,
    Heading3,
    BulletList,
    NumberedList,
    Link,
    InsertText(String),
}

/// The letter editor, modelled by the text it holds.
#[derive(Debug, Clone)]
pub struct RichEditor {
    content: String,
}

/// The text after a command. The toolbar has no cursor to work from, so
/// the markers go around, or in front of, the whole text; inserted text
/// starts a new paragraph after what is there.
pub open spec fn after_command(text: Seq<char>, m: RichEditorMessage) -> Seq<char> {
    match m {
        RichEditorMessage::Bold => "**"@ + text + "**"@,
        RichEditorMessage::Italic => "*"@ + text + "*"@,
        RichEditorMessage::Heading1 => "# "@ + text,
        RichEditorMessage::Heading2 => "## "@ + text,
        RichEditorMessage::Heading3 => "### "@ + text,
        RichEditorMessage::BulletList => "- "@ + text,
        RichEditorMessage::NumberedList => "1. "@ + text,
        RichEditorMessage::Link => "["@ + text + "](url)"@,
        RichEditorMessage::InsertText(t) => if text.len() == 0 { t@ } else { text + "\n\n"@ + t@ },
    }
}

impl RichEditor {
    pub closed spec fn text_spec(&self) -> Seq<char> {
        self.content@
    }

    /// An empty editor.
    pub fn new() -> (r: RichEditor)
        ensures
            r.text_spec() == Seq::<char>::empty(),
    {
        RichEditor { content: String::new() }
    }

    /// An editor holding `text`.
    pub fn with_text(text: &str) -> (r: RichEditor)
        ensures
            r.text_spec() == text@,
    {
        RichEditor { content: text.to_string() }
    }

    /// The text the editor holds.
    pub fn text(&self) -> (r: String)
        ensures
            r@ == self.text_spec(),
    {
        self.content.clone()
    }

    /// Replaces the text.
    pub fn set_text(&mut self, text: &str)
        ensures
            final(self).text_spec() == text@,
    {
        self.content = text.to_string();
    }

    fn wrap_selection(&mut self, prefix: &str, suffix: &str)
        ensures
            final(self).text_spec() == prefix@ + old(self).text_spec() + suffix@,
    {
        let mut v = chars_of(prefix);
        append_chars(&mut v, chars_of(self.content.as_str()).as_slice());
        append_chars(&mut v, chars_of(suffix).as_slice());
        self.content = string_from_chars(v.as_slice());
    }

    fn insert_at_line_start(&mut self, prefix: &str)
        ensures
            final(self).text_spec() == prefix@ + old(self).text_spec(),
    {
        let mut v = chars_of(prefix);
        append_chars(&mut v, chars_of(self.content.as_str()).as_slice());
        self.content = string_from_chars(v.as_slice());
    }

    /// Carries out a command.
    pub fn update(&mut self, message: RichEditorMessage)
        ensures
            final(self).text_spec() == after_command(old(self).text_spec(), message),
    {
        match message {
            RichEditorMessage::Bold => self.wrap_selection("**", "**"),
            RichEditorMessage::Italic => self.wrap_selection("*", "*"),
            RichEditorMessage::Heading1 => self.insert_at_line_start("# "),
            RichEditorMessage::Heading2 => self.insert_at_line_start("## "),
            RichEditorMessage::Heading3 => self.insert_at_line_start("### "),
            RichEditorMessage::BulletList => self.insert_at_line_start("- "),
            RichEditorMessage::NumberedList => self.insert_at_line_start("1. "),
            RichEditorMessage::Link => self.wrap_selection("[", "](url)"),
            RichEditorMessage::InsertText(text) => {
                if self.content.as_str().is_empty() {
                    self.content = text;
                } else {
                    let mut v = chars_of(self.content.as_str());
                    append_chars(&mut v, chars_of("\n\n").as_slice());
                    append_chars(&mut v, chars_of(text.as_str()).as_slice());
                    self.content = string_from_chars(v.as_slice());
                }
            },
        }
    }
}

impl Default for RichEditor {
    fn default() -> (r: RichEditor)
        ensures
            r.text_spec() == Seq::<char>::empty(),
    {
        RichEditor::new()
    }
}

// ---------------------------------------------------------------------------
// The letter template.
// ---------------------------------------------------------------------------

/// The template of an application letter for a position at a company,
/// with the user's profile under "Om mig".
pub open spec fn template_spec(company: Seq<char>, position: Seq<char>, profile: Seq<char>) -> Seq<char> {
    "# Ansökan - "@ + position + "\n\n**Till:** "@ + company
        + "\n\nHej,\n\nJag skriver för att uttrycka mitt intresse för tjänsten som "@ + position + " hos "@ + company
        + ".\n\n## Om mig\n\n"@ + profile
        + "\n\n## Varför just denna tjänst?\n\n[Beskriv varför du är intresserad av just denna tjänst och detta företag]\n\n## Vad jag kan bidra med\n\n[Förklara hur din kompetens och erfarenhet matchar tjänstens krav]\n\nJag ser fram emot att höra från er och hoppas på möjligheten att diskutera hur jag kan bidra till ert team.\n\nMed vänliga hälsningar,\n[Ditt namn]\n[Din kontaktinformation]"@
}

pub fn create_template(company: &str, position: &str, profile: &str) -> (r: String)
    ensures
        r@ == template_spec(company@, position@, profile@),
{
    let mut v = chars_of("# Ansökan - ");
    append_chars(&mut v, chars_of(position).as_slice());
    append_chars(&mut v, chars_of("\n\n**Till:** ").as_slice());
    append_chars(&mut v, chars_of(company).as_slice());
    append_chars(&mut v, chars_of("\n\nHej,\n\nJag skriver för att uttrycka mitt intresse för tjänsten som ").as_slice());
    append_chars(&mut v, chars_of(position).as_slice());
    append_chars(&mut v, chars_of(" hos ").as_slice());
    append_chars(&mut v, chars_of(company).as_slice());
    append_chars(&mut v, chars_of(".\n\n## Om mig\n\n").as_slice());
    append_chars(&mut v, chars_of(profile).as_slice());
    append_chars(&mut v, chars_of("\n\n## Varför just denna tjänst?\n\n[Beskriv varför du är intresserad av just denna tjänst och detta företag]\n\n## Vad jag kan bidra med\n\n[Förklara hur din kompetens och erfarenhet matchar tjänstens krav]\n\nJag ser fram emot att höra från er och hoppas på möjligheten att diskutera hur jag kan bidra till ert team.\n\nMed vänliga hälsningar,\n[Ditt namn]\n[Din kontaktinformation]").as_slice());
    string_from_chars(v.as_slice())
}

// ---------------------------------------------------------------------------
// The live preview.
// ---------------------------------------------------------------------------

/// What `str::lines` yields: the pieces between line feeds, a `\r` before a
/// line feed dropped, and no empty last piece after a final line feed.
pub open spec fn str_lines(s: Seq<char>) -> Seq<Seq<char>> {
    let p = split(s, '\n');
    let body = p.drop_last().map_values(|l: Seq<char>| strip_cr(l));
    if p.last().len() == 0 { body } else { body.push(p.last()) }
}

pub open spec fn strip_cr(l: Seq<char>) -> Seq<char> {
    if l.len() > 0 && l.last() == '\r' { l.drop_last() } else { l }
}

/// The text with `p` removed from its start as often as it stands there
/// (`str::trim_start_matches`).
pub open spec fn strip_all(s: Seq<char>, p: Seq<char>) -> Seq<char>
    decreases s.len(),
{
    if p.len() > 0 && p.is_prefix_of(s) {
        strip_all(s.skip(p.len() as int), p)
    } else {
        s
    }
}

/// One block of the preview: a text and the size it is shown at.
#[derive(Debug, Clone)]
pub struct PreviewBlock {
    pub text: String,
    pub size: u32,
}

/// The preview while it is built: the blocks so far and the lines of the
/// paragraph being gathered, joined by spaces.
pub open spec fn flushed(blocks: Seq<(Seq<char>, u32)>, buf: Seq<char>) -> Seq<(Seq<char>, u32)> {
    if trim(buf).len() > 0 { blocks.push((trim(buf), 14u32)) } else { blocks }
}

pub open spec fn preview_step(state: (Seq<(Seq<char>, u32)>, Seq<char>), line: Seq<char>) -> (Seq<(Seq<char>, u32)>, Seq<char>) {
    let (blocks, buf) = state;
    let t = trim(line);
    if t.len() == 0 {
        (flushed(blocks, buf), if trim(buf).len() > 0 { Seq::empty() } else { buf })
    } else if "# "@.is_prefix_of(t) {
        (flushed(blocks, buf).push((trim(strip_all(t, "# "@)), 22u32)), if trim(buf).len() > 0 { Seq::empty() } else { buf })
    } else if "## "@.is_prefix_of(t) {
        (flushed(blocks, buf).push((trim(strip_all(t, "## "@)), 18u32)), if trim(buf).len() > 0 { Seq::empty() } else { buf })
    } else if "### "@.is_prefix_of(t) {
        (flushed(blocks, buf).push((trim(strip_all(t, "### "@)), 16u32)), if trim(buf).len() > 0 { Seq::empty() } else { buf })
    } else if "- "@.is_prefix_of(t) || "* "@.is_prefix_of(t) {
        (flushed(blocks, buf).push(("• "@ + trim(strip_all(strip_all(t, "- "@), "* "@)), 14u32)),
            if trim(buf).len() > 0 { Seq::empty() } else { buf })
    } else {
        (blocks, if buf.len() > 0 { buf + " "@ + t } else { buf + t })
    }
}

pub open spec fn preview_fold(lines: Seq<Seq<char>>) -> (Seq<(Seq<char>, u32)>, Seq<char>)
    decreases lines.len(),
{
    if lines.len() == 0 {
        (Seq::empty(), Seq::empty())
    } else {
        preview_step(preview_fold(lines.drop_last()), lines.last())
    }
}

/// The blocks of the preview of a Markdown text: headings of three levels
/// (sizes 22, 18, 16), bullets for `- ` and `* ` items, and paragraphs
/// gathered from consecutive lines (size 14).
pub open spec fn preview_spec(markdown: Seq<char>) -> Seq<(Seq<char>, u32)> {
    let st = preview_fold(str_lines(markdown));
    flushed(st.0, st.1)
}

pub open spec fn block_views(blocks: Seq<PreviewBlock>) -> Seq<(Seq<char>, u32)> {
    blocks.map_values(|b: PreviewBlock| (b.text@, b.size))
}

fn strip_all_chars(s: Vec<char>, p: &str) -> (r: Vec<char>)
    requires
        p@.len() > 0,
    ensures
        r@ == strip_all(s@, p@),
    decreases s@.len(),
{
    let pv = chars_of(p);
    if starts_with_chars(s.as_slice(), pv.as_slice()) {
        let rest = crate::text::copy_range(s.as_slice(), pv.len(), s.len());
        assert(rest@ == s@.skip(p@.len() as int));
        strip_all_chars(rest, p)
    } else {
        s
    }
}

fn flush(blocks: &mut Vec<PreviewBlock>, buf: &mut Vec<char>)
    ensures
        block_views(final(blocks)@) == flushed(block_views(old(blocks)@), old(buf)@),
        final(buf)@ == if trim(old(buf)@).len() > 0 { Seq::empty() } else { old(buf)@ },
{
    let t = trim_chars(buf.as_slice());
    if t.len() > 0 {
        let ghost before = blocks@;
        blocks.push(PreviewBlock { text: string_from_chars(t.as_slice()), size: 14 });
        assert(block_views(blocks@) =~= block_views(before).push((trim(old(buf)@), 14u32)));
        *buf = Vec::new();
    }
}

fn push_block(blocks: &mut Vec<PreviewBlock>, text: Vec<char>, size: u32)
    ensures
        block_views(final(blocks)@) == block_views(old(blocks)@).push((text@, size)),
{
    let ghost before = blocks@;
    blocks.push(PreviewBlock { text: string_from_chars(text.as_slice()), size });
    assert(block_views(blocks@) =~= block_views(before).push((text@, size)));
}

fn preview_line(blocks: &mut Vec<PreviewBlock>, buf: &mut Vec<char>, line: &[char])
    ensures
        (block_views(final(blocks)@), final(buf)@) == preview_step((block_views(old(blocks)@), old(buf)@), line@),
{
    proof {
        reveal_strlit("# ");
        reveal_strlit("## ");
        reveal_strlit("### ");
        reveal_strlit("- ");
        reveal_strlit("* ");
    }
    let t = trim_chars(line);
    if t.len() == 0 {
        flush(blocks, buf);
    } else if starts_with_chars(t.as_slice(), chars_of("# ").as_slice()) {
        flush(blocks, buf);
        let h = trim_chars(strip_all_chars(t, "# ").as_slice());
        push_block(blocks, h, 22);
    } else if starts_with_chars(t.as_slice(), chars_of("## ").as_slice()) {
        flush(blocks, buf);
        let h = trim_chars(strip_all_chars(t, "## ").as_slice());
        push_block(blocks, h, 18);
    } else if starts_with_chars(t.as_slice(), chars_of("### ").as_slice()) {
        flush(blocks, buf);
        let h = trim_chars(strip_all_chars(t, "### ").as_slice());
        push_block(blocks, h, 16);
    } else if starts_with_chars(t.as_slice(), chars_of("- ").as_slice()) || starts_with_chars(t.as_slice(), chars_of("* ").as_slice()) {
        flush(blocks, buf);
        let b = trim_chars(strip_all_chars(strip_all_chars(t, "- "), "* ").as_slice());
        let mut item = chars_of("• ");
        append_chars(&mut item, b.as_slice());
        push_block(blocks, item, 14);
    } else {
        if buf.len() > 0 {
            buf.push(' ');
            proof { reveal_strlit(" "); }
        }
        append_chars(buf, t.as_slice());
    }
}

/// The lines of a text (`str::lines`).
pub(crate) fn text_lines(s: &str) -> (r: Vec<Vec<char>>)
    ensures
        r@.len() == str_lines(s@).len(),
        forall|k: int| 0 <= k < r@.len() ==> #[trigger] r@[k]@ == str_lines(s@)[k],
{
    let pieces = split_chars(chars_of(s).as_slice(), '\n');
    proof { crate::text::lemma_split_nonempty(s@, '\n'); }
    let ghost p = split(s@, '\n');
    let n = pieces.len();
    let mut r: Vec<Vec<char>> = Vec::new();
    let mut i: usize = 0;
    while i + 1 < n
        invariant
            n == pieces@.len() == p.len() >= 1,
            forall|k: int| 0 <= k < n ==> #[trigger] pieces@[k]@ == p[k],
            i + 1 <= n,
            r@.len() == i,
            forall|k: int| 0 <= k < i ==> #[trigger] r@[k]@ == strip_cr(p[k]),
        decreases n - i,
    {
        let l = &pieces[i];
        if l.len() > 0 && l[l.len() - 1] == '\r' {
            let c = crate::text::copy_range(l.as_slice(), 0, l.len() - 1);
            assert(c@ =~= p[i as int].drop_last());
            r.push(c);
        } else {
            let c = crate::text::copy_range(l.as_slice(), 0, l.len());
            assert(c@ =~= p[i as int]);
            r.push(c);
        }
        i = i + 1;
    }
    let last = &pieces[n - 1];
    if last.len() > 0 {
        let c = crate::text::copy_range(last.as_slice(), 0, last.len());
        assert(c@ =~= p.last());
        r.push(c);
    }
    assert(p.drop_last().len() == n - 1);
    r
}

/// The blocks of the live preview of a letter.
pub fn preview_blocks(markdown: &str) -> (r: Vec<PreviewBlock>)
    ensures
        block_views(r@) == preview_spec(markdown@),
{
    let lines = text_lines(markdown);
    let ghost ls = str_lines(markdown@);
    let mut blocks: Vec<PreviewBlock> = Vec::new();
    let mut buf: Vec<char> = Vec::new();
    let mut i: usize = 0;
    assert(block_views(blocks@) =~= Seq::<(Seq<char>, u32)>::empty());
    while i < lines.len()
        invariant
            i <= lines@.len() == ls.len(),
            ls == str_lines(markdown@),
            forall|k: int| 0 <= k < lines@.len() ==> #[trigger] lines@[k]@ == ls[k],
            (block_views(blocks@), buf@) == preview_fold(ls.take(i as int)),
        decreases lines.len() - i,
    {
        assert(ls.take(i + 1).drop_last() =~= ls.take(i as int));
        preview_line(&mut blocks, &mut buf, lines[i].as_slice());
        i = i + 1;
    }
    assert(ls.take(ls.len() as int) =~= ls);
    flush(&mut blocks, &mut buf);
    blocks
}

// ---------------------------------------------------------------------------
// Markdown: plain text, HTML, Word paragraphs.
// ---------------------------------------------------------------------------

/// An event of the Markdown parser, as far as the library looks at it.
#[derive(Debug, Clone)]
pub enum MdEvent {
    /// The start of a heading of the given level (1 to 6).
    StartHeading(u32),
    StartParagraph,
    Text(String),
    Code(String),
    SoftBreak,
    HardBreak,
    EndParagraph,
    EndHeading,
    EndItem,
    /// Any other event.
    Other,
}

/// The events `pulldown_cmark::Parser::new` yields for a text, without
/// extensions.
pub uninterp spec fn markdown_events(md: Seq<char>) -> Seq<MdEvent>;

/// Runs the CommonMark parser (`pulldown_cmark::Parser::new`) and keeps of
/// each event what the library reads. The result is named.
#[verifier::external_body]
pub(crate) fn parse_markdown(md: &str) -> (r: Vec<MdEvent>)
    ensures
        r@ == markdown_events(md@),
{
    let mut v = Vec::new();
    for e in pulldown_cmark::Parser::new(md) { v.push(match e {
            Event::Start(Tag::Heading { level, .. }) => MdEvent::StartHeading(level as u32),
            Event::Start(Tag::Paragraph) => MdEvent::StartParagraph,
            Event::Text(t) => MdEvent::Text(t.into_string()),
            Event::Code(t) => MdEvent::Code(t.into_string()),
            Event::SoftBreak => MdEvent::SoftBreak,
            Event::HardBreak => MdEvent::HardBreak,
            Event::End(TagEnd::Paragraph) => MdEvent::EndParagraph,
            Event::End(TagEnd::Heading(_)) => MdEvent::EndHeading,
            Event::End(TagEnd::Item) => MdEvent::EndItem,
            _ => MdEvent::Other,
        }); }
    v
}

/// What one event adds to the plain text.
pub open spec fn plain_piece(e: MdEvent) -> Seq<char> {
    match e {
        MdEvent::Text(t) => t@,
        MdEvent::Code(t) => t@,
        MdEvent::SoftBreak => "\n"@,
        MdEvent::HardBreak => "\n"@,
        MdEvent::EndParagraph => "\n\n"@,
        MdEvent::EndHeading => "\n\n"@,
        MdEvent::EndItem => "\n"@,
        _ => Seq::empty(),
    }
}

pub open spec fn plain_of_events(events: Seq<MdEvent>) -> Seq<char>
    decreases events.len(),
{
    if events.len() == 0 {
        Seq::empty()
    } else {
        plain_of_events(events.drop_last()) + plain_piece(events.last())
    }
}

/// The plain text of events: text and code as they stand, a line break for
/// each break and list item, an empty line after paragraphs and headings,
/// trimmed.
pub open spec fn plain_text_spec(events: Seq<MdEvent>) -> Seq<char> {
    trim(plain_of_events(events))
}

/// A paragraph of two lines keeps its line break in the plain text: its
/// first line, a line feed, and its second line, for lines that do not
/// start or end the paragraph with white space.
pub proof fn lemma_plain_two_lines(first: String, second: String)
    requires
        first@.len() > 0,
        !white_space(first@[0]),
        second@.len() > 0,
        !white_space(second@.last()),
    ensures
        plain_text_spec(seq![
            MdEvent::StartParagraph,
            MdEvent::Text(first),
            MdEvent::SoftBreak,
            MdEvent::Text(second),
            MdEvent::EndParagraph,
        ]) == first@ + "\n"@ + second@,
{
    reveal_strlit("\n");
    reveal_strlit("\n\n");
    let es = seq![
        MdEvent::StartParagraph,
        MdEvent::Text(first),
        MdEvent::SoftBreak,
        MdEvent::Text(second),
        MdEvent::EndParagraph,
    ];
    let x = first@ + "\n"@ + second@;
    let e0 = Seq::<MdEvent>::empty();
    let e1 = e0.push(MdEvent::StartParagraph);
    let e2 = e1.push(MdEvent::Text(first));
    let e3 = e2.push(MdEvent::SoftBreak);
    let e4 = e3.push(MdEvent::Text(second));
    assert(es =~= e4.push(MdEvent::EndParagraph));
    assert(e1.drop_last() =~= e0);
    assert(e2.drop_last() =~= e1);
    assert(e3.drop_last() =~= e2);
    assert(e4.drop_last() =~= e3);
    assert(plain_of_events(e0) =~= Seq::<char>::empty());
    assert(plain_of_events(e1) =~= Seq::<char>::empty());
    assert(plain_of_events(e2) =~= first@);
    assert(plain_of_events(e3) =~= first@ + "\n"@);
    assert(plain_of_events(e4) =~= x);
    assert(es.drop_last() =~= e4);
    let s = x + "\n\n"@;
    assert(plain_of_events(es) =~= s);
    assert(s[0] == first@[0]);
    assert(trim_start(s) == s);
    assert(s.drop_last() =~= x + "\n"@);
    assert((x + "\n"@).drop_last() =~= x);
    assert(x.last() == second@.last());
    assert(trim_end(x) == x);
    assert(trim_end(x + "\n"@) == x);
    assert(trim_end(s) == x);
}

/// The plain text of parsed Markdown.
pub fn plain_text_of(events: &Vec<MdEvent>) -> (r: String)
    ensures
        r@ == plain_text_spec(events@),
{
    let mut out: Vec<char> = Vec::new();
    let mut i: usize = 0;
    assert(events@.take(0) =~= Seq::<MdEvent>::empty());
    while i < events.len()
        invariant
            i <= events@.len(),
            out@ == plain_of_events(events@.take(i as int)),
        decreases events.len() - i,
    {
        assert(events@.take(i + 1).drop_last() =~= events@.take(i as int));
        match &events[i] {
            MdEvent::Text(t) => append_chars(&mut out, chars_of(t.as_str()).as_slice()),
            MdEvent::Code(t) => append_chars(&mut out, chars_of(t.as_str()).as_slice()),
            MdEvent::SoftBreak => append_chars(&mut out, chars_of("\n").as_slice()),
            MdEvent::HardBreak => append_chars(&mut out, chars_of("\n").as_slice()),
            MdEvent::EndParagraph => append_chars(&mut out, chars_of("\n\n").as_slice()),
            MdEvent::EndHeading => append_chars(&mut out, chars_of("\n\n").as_slice()),
            MdEvent::EndItem => append_chars(&mut out, chars_of("\n").as_slice()),
            _ => {},
        }
        i = i + 1;
    }
    assert(events@.take(events@.len() as int) =~= events@);
    let t = trim_chars(out.as_slice());
    string_from_chars(t.as_slice())
}

/// The plain text of a Markdown letter, without its formatting.
pub fn to_plain_text(markdown: &str) -> (r: String)
    ensures
        r@ == plain_text_spec(markdown_events(markdown@)),
{
    let events = parse_markdown(markdown);
    plain_text_of(&events)
}

/// The HTML that `pulldown_cmark::html::push_html` writes for a text parsed
/// with strikethrough, tables and task lists.
pub uninterp spec fn markdown_html(md: Seq<char>) -> Seq<char>;

/// `pulldown_cmark::html::push_html` over `Parser::new_ext` with
/// strikethrough, tables and task lists enabled. The result is named.
#[verifier::external_body]
fn html_fragment(md: &str) -> (r: String)
    ensures
        r@ == markdown_html(md@),
{
    let mut options = pulldown_cmark::Options::empty();
    options.insert(pulldown_cmark::Options::ENABLE_STRIKETHROUGH);
    options.insert(pulldown_cmark::Options::ENABLE_TABLES);
    options.insert(pulldown_cmark::Options::ENABLE_TASKLISTS);
    let mut out = String::new();
    pulldown_cmark::html::push_html(&mut out, pulldown_cmark::Parser::new_ext(md, options));
    out
}

/// The start of the HTML page a letter is shown in: its head with the
/// style sheet, and the opening of its body.
pub open spec fn html_page_head() -> Seq<char> {
    "<!DOCTYPE html>\n<html>\n<head>\n    <meta charset=\"UTF-8\">\n    <style>\n        body {\n            font-family: 'Segoe UI', 'Arial', sans-serif;\n            font-size: 12pt;\n            line-height: 1.6;\n            max-width: 800px;\n            margin: 40px auto;\n            padding: 40px 60px;\n            color: #333;\n        }\n        h1 {\n            font-size: 24pt;\n            font-weight: bold;\n            margin: 24px 0 12px;\n            color: #1a1a1a;\n        }\n        h2 {\n            font-size: 18pt;\n            font-weight: bold;\n            margin: 20px 0 10px;\n            color: #1a1a1a;\n        }\n        h3 {\n            font-size: 14pt;\n            font-weight: bold;\n            margin: 16px 0 8px;\n            color: #1a1a1a;\n        }\n        p {\n            margin: 10px 0;\n            text-align: justify;\n        }\n        strong {\n            font-weight: bold;\n        }\n        em {\n            font-style: italic;\n        }\n        ul, ol {\n            margin: 10px 0;\n            padding-left: 30px;\n        }\n        li {\n            margin: 5px 0;\n        }\n        blockquote {\n            border-left: 4px solid #ccc;\n            padding-left: 16px;\n            margin: 16px 0;\n            color: #666;\n            font-style: italic;\n        }\n        a {\n            color: #0066cc;\n            text-decoration: none;\n        }\n        a:hover {\n            text-decoration: underline;\n        }\n        code {\n            background: #f4f4f4;\n            padding: 2px 6px;\n            border-radius: 3px;\n            font-family: 'Courier New', monospace;\n        }\n        pre {\n            background: #f4f4f4;\n            padding: 12px;\n            border-radius: 4px;\n            overflow-x: auto;\n        }\n        table {\n            border-collapse: collapse;\n            width: 100%;\n            margin: 16px 0;\n        }\n        th, td {\n            border: 1px solid #ddd;\n            padding: 8px;\n            text-align: left;\n        }\n        th {\n            background-color: #f4f4f4;\n            font-weight: bold;\n        }\n    </style>\n</head>\n<body>\n"@
}

/// The HTML page of a Markdown letter: the letter's HTML inside the page
/// with the letter style.
pub fn to_html(markdown: &str) -> (r: String)
    ensures
        r@ == html_page_head() + markdown_html(markdown@) + "\n</body>\n</html>"@,
{
    let frag = html_fragment(markdown);
    let mut v = chars_of("<!DOCTYPE html>\n<html>\n<head>\n    <meta charset=\"UTF-8\">\n    <style>\n        body {\n            font-family: 'Segoe UI', 'Arial', sans-serif;\n            font-size: 12pt;\n            line-height: 1.6;\n            max-width: 800px;\n            margin: 40px auto;\n            padding: 40px 60px;\n            color: #333;\n        }\n        h1 {\n            font-size: 24pt;\n            font-weight: bold;\n            margin: 24px 0 12px;\n            color: #1a1a1a;\n        }\n        h2 {\n            font-size: 18pt;\n            font-weight: bold;\n            margin: 20px 0 10px;\n            color: #1a1a1a;\n        }\n        h3 {\n            font-size: 14pt;\n            font-weight: bold;\n            margin: 16px 0 8px;\n            color: #1a1a1a;\n        }\n        p {\n            margin: 10px 0;\n            text-align: justify;\n        }\n        strong {\n            font-weight: bold;\n        }\n        em {\n            font-style: italic;\n        }\n        ul, ol {\n            margin: 10px 0;\n            padding-left: 30px;\n        }\n        li {\n            margin: 5px 0;\n        }\n        blockquote {\n            border-left: 4px solid #ccc;\n            padding-left: 16px;\n            margin: 16px 0;\n            color: #666;\n            font-style: italic;\n        }\n        a {\n            color: #0066cc;\n            text-decoration: none;\n        }\n        a:hover {\n            text-decoration: underline;\n        }\n        code {\n            background: #f4f4f4;\n            padding: 2px 6px;\n            border-radius: 3px;\n            font-family: 'Courier New', monospace;\n        }\n        pre {\n            background: #f4f4f4;\n            padding: 12px;\n            border-radius: 4px;\n            overflow-x: auto;\n        }\n        table {\n            border-collapse: collapse;\n            width: 100%;\n            margin: 16px 0;\n        }\n        th, td {\n            border: 1px solid #ddd;\n            padding: 8px;\n            text-align: left;\n        }\n        th {\n            background-color: #f4f4f4;\n            font-weight: bold;\n        }\n    </style>\n</head>\n<body>\n");
    append_chars(&mut v, chars_of(frag.as_str()).as_slice());
    append_chars(&mut v, chars_of("\n</body>\n</html>").as_slice());
    string_from_chars(v.as_slice())
}

} // verus!
