use jobseeker::document::{markdown_to_docx_paragraphs, DocRun, ParaAlign, ParaStyle};
use jobseeker::editor::{create_template, preview_blocks, to_html, to_plain_text, RichEditor, RichEditorMessage};

#[test]
fn test_plain_text_basic() {
    let md = "# Hello\n\nThis is a *test*.\n\n- One\n- Two";
    let plain = to_plain_text(md);
    assert!(plain.contains("Hello"));
    assert!(plain.contains("test"));
    assert!(plain.contains("One"));
}

#[test]
fn test_to_html_contains_heading_and_paragraph() {
    let md = "# Title\n\nParagraph";
    let html = to_html(md);
    assert!(html.contains("<h1"));
    assert!(html.contains("Paragraph"));
}

#[test]
fn test_to_iced_no_panic() {
    let md = "# Hello\n\n- Item1\n- Item2\n\nParagraph";
    let _blocks = preview_blocks(md);
}

#[test]
fn test_create_template_contains_position_and_profile() {
    let tpl = create_template("Acme AB", "Utvecklare", "Jag är erfaren");
    assert!(tpl.contains("Acme AB"));
    assert!(tpl.contains("Utvecklare"));
    assert!(tpl.contains("Jag är erfaren"));
    assert!(tpl.contains("# Ansökan"));
}

#[test]
fn test_rich_editor_bold_wraps_selection() {
    let mut editor = RichEditor::with_text("Ord");
    editor.update(RichEditorMessage::Bold);
    assert_eq!(editor.text(), "**Ord**");
}

#[test]
fn plain_text_is_exact() {
    let md = "# Hello\n\nThis is a *test*.\n\n- One\n- Two";
    assert_eq!(to_plain_text(md), "Hello\n\nThis is a test.\n\nOne\nTwo");
    assert_eq!(to_plain_text(""), "");
    assert_eq!(to_plain_text("Use `code` here"), "Use code here");
}

#[test]
fn html_page_wraps_the_fragment() {
    let html = to_html("# Title\n\nParagraph");
    assert!(html.starts_with("<!DOCTYPE html>\n<html>\n<head>\n    <meta charset=\"UTF-8\">"));
    assert!(html.contains("<body>\n<h1>Title</h1>\n<p>Paragraph</p>\n\n</body>\n</html>"));
    assert!(html.ends_with("</body>\n</html>"));
}

#[test]
fn preview_blocks_are_exact() {
    let blocks = preview_blocks("# Hello\n\n- Item1\n- Item2\n\nParagraph");
    let got: Vec<(String, u32)> = blocks.into_iter().map(|b| (b.text, b.size)).collect();
    assert_eq!(
        got,
        vec![
            ("Hello".to_string(), 22),
            ("• Item1".to_string(), 14),
            ("• Item2".to_string(), 14),
            ("Paragraph".to_string(), 14),
        ]
    );
}

#[test]
fn preview_joins_paragraph_lines_and_sizes_headings() {
    let blocks = preview_blocks("line one\r\n  line two\n\n## Sub\n### Third\n* star\n- - twice\ntail");
    let got: Vec<(String, u32)> = blocks.into_iter().map(|b| (b.text, b.size)).collect();
    assert_eq!(
        got,
        vec![
            ("line one line two".to_string(), 14),
            ("Sub".to_string(), 18),
            ("Third".to_string(), 16),
            ("• star".to_string(), 14),
            ("• twice".to_string(), 14),
            ("tail".to_string(), 14),
        ]
    );
    assert!(preview_blocks("").is_empty());
    assert!(preview_blocks("\n\n   \n").is_empty());
}

#[test]
fn editor_commands_change_the_text() {
    let cases = vec![
        (RichEditorMessage::Italic, "*x*"),
        (RichEditorMessage::Heading1, "# x"),
        (RichEditorMessage::Heading2, "## x"),
        (RichEditorMessage::Heading3, "### x"),
        (RichEditorMessage::BulletList, "- x"),
        (RichEditorMessage::NumberedList, "1. x"),
        (RichEditorMessage::Link, "[x](url)"),
        (RichEditorMessage::InsertText("abc".to_string()), "x\n\nabc"),
    ];
    for (m, want) in cases {
        let mut e = RichEditor::with_text("x");
        e.update(m);
        assert_eq!(e.text(), want);
    }
    let mut e = RichEditor::new();
    e.update(RichEditorMessage::InsertText("abc".to_string()));
    assert_eq!(e.text(), "abc");
    e.set_text("ny");
    assert_eq!(e.text(), "ny");
    let d = RichEditor::default();
    assert_eq!(d.text(), "");
}

#[test]
fn template_is_exact_at_its_start_and_end() {
    let tpl = create_template("Acme AB", "Utvecklare", "Jag är erfaren");
    assert!(tpl.starts_with(
        "# Ansökan - Utvecklare\n\n**Till:** Acme AB\n\nHej,\n\nJag skriver för att uttrycka mitt intresse för tjänsten som Utvecklare hos Acme AB.\n\n## Om mig\n\nJag är erfaren\n\n## Varför just denna tjänst?"
    ));
    assert!(tpl.ends_with("Med vänliga hälsningar,\n[Ditt namn]\n[Din kontaktinformation]"));
}

#[test]
fn markdown_becomes_word_paragraphs() {
    let paras = markdown_to_docx_paragraphs("# T\n\nA\nb");
    assert_eq!(paras.len(), 3);
    assert_eq!(paras[0].style, Some(ParaStyle::Normal));
    assert_eq!(paras[0].align, Some(ParaAlign::Left));
    assert!(paras[0].runs.is_empty());
    assert_eq!(paras[1].style, Some(ParaStyle::Heading1));
    assert!(matches!(&paras[1].runs[..], [DocRun::Text(t)] if t == "T"));
    assert_eq!(paras[2].align, Some(ParaAlign::Both));
    let texts: Vec<String> = paras[2]
        .runs
        .iter()
        .map(|r| match r {
            DocRun::Text(t) => t.clone(),
            DocRun::Break => "<br>".to_string(),
        })
        .collect();
    assert_eq!(texts, vec!["A".to_string(), " ".to_string(), "b".to_string()]);
}
