use bigrag_native::text_parser::{
    collapse_whitespace, collapse_whitespace_keep_lines, count_text, count_words, normalize_line_endings,
    normalize_text, parse_text_file, process_text, strip_markdown, text_of_markdown_events,
    MarkdownEvent, TextParseOptions,
};
use bigrag_native::file_read::FileRead;

#[test]
fn test_strip_markdown() {
    let markdown = "# Hello\n\nThis is **bold** and *italic*.\n\n- List item\n- Another\n\n```\ncode block\n```";
    let result = strip_markdown(markdown.to_string());

    assert!(result.contains("Hello"));
    assert!(result.contains("bold"));
    assert!(result.contains("italic"));
    assert!(!result.contains("**"));
    assert!(!result.contains('*'));
    assert!(!result.contains('#'));
}

#[test]
fn test_normalize_line_endings() {
    let text = "Line 1\r\nLine 2\rLine 3\nLine 4";
    let result = normalize_line_endings(text);
    assert_eq!(result, "Line 1\nLine 2\nLine 3\nLine 4");
}

#[test]
fn test_collapse_whitespace() {
    let text = "Hello    world\n\ttest";
    let result = collapse_whitespace(text);
    assert_eq!(result, "Hello world test");
}

#[test]
fn strip_markdown_keeps_text_and_inline_code() {
    assert_eq!(strip_markdown("Use `cargo build` now".to_string()), "Use cargo build now");
    assert_eq!(strip_markdown("a\nb".to_string()), "a b");
    assert_eq!(strip_markdown("~~gone~~ kept".to_string()), "gone kept");
    assert_eq!(strip_markdown("".to_string()), "");
}

#[test]
fn markdown_events_to_text() {
    let events = vec![
        MarkdownEvent::Other,
        MarkdownEvent::Text("Title".to_string()),
        MarkdownEvent::Other,
        MarkdownEvent::SoftBreak,
        MarkdownEvent::Code("x = 1".to_string()),
        MarkdownEvent::HardBreak,
        MarkdownEvent::Text("end".to_string()),
    ];
    assert_eq!(text_of_markdown_events(&events), "Title x = 1 end");
    assert_eq!(text_of_markdown_events(&Vec::new()), "");
}

#[test]
fn normalize_line_endings_edge_cases() {
    assert_eq!(normalize_line_endings("\r\r\n"), "\n\n");
    assert_eq!(normalize_line_endings("\n\r"), "\n\n");
    assert_eq!(normalize_line_endings(""), "");
    let once = normalize_line_endings("a\r\nb\r");
    assert_eq!(normalize_line_endings(&once), once);
}

#[test]
fn collapse_whitespace_unicode_and_edges() {
    assert_eq!(collapse_whitespace("  a\u{a0}b\u{3000}c  "), "a b c");
    assert_eq!(collapse_whitespace(" \t\n "), "");
    assert_eq!(collapse_whitespace(""), "");
    let once = collapse_whitespace("  x   y ");
    assert_eq!(collapse_whitespace(&once), once);
}

#[test]
fn collapse_whitespace_keep_lines_trims_and_drops_blank_lines() {
    assert_eq!(collapse_whitespace_keep_lines("  a  b \r\n\n c\t\n"), "a b\nc");
    assert_eq!(collapse_whitespace_keep_lines("x\t \u{a0}y\n  p   q  r "), "x y\np q r");
    assert_eq!(collapse_whitespace_keep_lines("\n\n  \n"), "");
    assert_eq!(collapse_whitespace_keep_lines("one"), "one");
    let once = collapse_whitespace_keep_lines(" p \n\n q ");
    assert_eq!(collapse_whitespace_keep_lines(&once), once);
}

#[test]
fn normalize_text_both_modes_and_idempotence() {
    assert_eq!(normalize_text("a \r\n b\r\r c".to_string(), false), "a b c");
    assert_eq!(normalize_text("a \r\n b\r\r c".to_string(), true), "a\nb\nc");
    assert_eq!(normalize_text("a   b\r\n\r\n  c".to_string(), true), "a b\nc");
    for preserve in [false, true] {
        let once = normalize_text(" x\r\n\r\n  y  z \r".to_string(), preserve);
        assert_eq!(normalize_text(once.clone(), preserve), once);
    }
}

#[test]
fn process_text_options() {
    let all = TextParseOptions { strip_markdown: true, preserve_line_breaks: true, collapse_whitespace: true };
    assert_eq!(process_text("# T\r\n\r\nsome *x*", &all), "Tsome x");
    let raw = TextParseOptions { strip_markdown: false, preserve_line_breaks: false, collapse_whitespace: false };
    assert_eq!(process_text("a\r\n  b", &raw), "a\n  b");
    let lines = TextParseOptions { strip_markdown: false, preserve_line_breaks: true, collapse_whitespace: false };
    assert_eq!(process_text("a\r  b ", &lines), "a\n  b ");
    let collapsed_lines = TextParseOptions { strip_markdown: false, preserve_line_breaks: true, collapse_whitespace: true };
    assert_eq!(process_text("a  b\r\n c \t d", &collapsed_lines), "a b\nc d");
}

#[test]
fn text_parse_options_default() {
    let o = TextParseOptions::default();
    assert!(!o.strip_markdown);
    assert!(!o.preserve_line_breaks);
    assert!(o.collapse_whitespace);
}

#[test]
fn parse_text_file_outcomes() {
    let missing = parse_text_file(FileRead::Missing, None);
    assert!(!missing.success);
    assert_eq!(missing.error.as_deref(), Some("File does not exist"));
    assert_eq!((missing.char_count, missing.word_count), (0, 0));

    let failed = parse_text_file(FileRead::Failed("permission denied".to_string()), None);
    assert!(!failed.success);
    assert_eq!(failed.error.as_deref(), Some("Failed to read file: permission denied"));

    let read = parse_text_file(FileRead::Contents("  héllo \r\n world ".to_string()), None);
    assert!(read.success);
    assert_eq!(read.text, "héllo world");
    assert_eq!(read.char_count, 12);
    assert_eq!(read.word_count, 2);
    assert!(read.error.is_none());

    let kept = parse_text_file(
        FileRead::Contents("a\r\n\r\nb".to_string()),
        Some(TextParseOptions { strip_markdown: false, preserve_line_breaks: true, collapse_whitespace: true }),
    );
    assert_eq!(kept.text, "a\nb");
}

#[test]
fn count_text_counts() {
    let c = count_text("hello wörld\nfoo");
    assert_eq!(c.char_count, 16);
    assert_eq!(c.word_count, 3);
    assert_eq!(c.line_count, 2);
    assert_eq!(c.word_bytes, 14);

    let e = count_text("");
    assert_eq!((e.char_count, e.word_count, e.line_count, e.word_bytes), (0, 0, 0, 0));

    assert_eq!(count_text("a\n").line_count, 1);
    assert_eq!(count_text("\n\n").line_count, 2);
    assert_eq!(count_text("a\nb").line_count, 2);
    assert_eq!(count_words("  one two\tthree "), 3);
}

#[test]
fn collapse_whitespace_keeps_the_words() {
    let text = " one\ttwo \u{2003}three\r\n";
    let collapsed = collapse_whitespace(text);
    assert_eq!(count_words(&collapsed), count_words(text));
    assert_eq!(
        collapsed.split(' ').collect::<Vec<&str>>(),
        text.split_whitespace().collect::<Vec<&str>>()
    );
}
