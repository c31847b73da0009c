use bigrag_native::file_read::FileRead;
use bigrag_native::html_parser::{
    html_result_from_text, parse_html, parse_html_string, parse_html_with_selectors, selected_text,
};

#[test]
fn test_parse_html_string() {
    let html = "<html><body><p>Hello World</p></body></html>";
    let result = parse_html_string(html.to_string());
    assert!(result.contains("Hello"));
    assert!(result.contains("World"));
}

#[test]
fn parse_html_string_collapses_whitespace() {
    let html = "<html><head><title>T</title></head><body><p>  a\n\n b</p><p>c</p></body></html>";
    assert_eq!(parse_html_string(html.to_string()), "T a bc");
    assert_eq!(parse_html_string(String::new()), "");
}

#[test]
fn parse_html_outcomes() {
    let ok = parse_html(FileRead::Contents("<p>one   two</p>".to_string()));
    assert!(ok.success);
    assert_eq!(ok.text, "one two");
    assert_eq!(ok.char_count, 7);
    assert!(ok.error.is_none());

    let empty = parse_html(FileRead::Contents("<html><body> </body></html>".to_string()));
    assert!(!empty.success);
    assert_eq!(empty.text, "");
    assert_eq!(empty.error.as_deref(), Some("No text content found in HTML"));

    let missing = parse_html(FileRead::Missing);
    assert!(!missing.success);
    assert_eq!(missing.error.as_deref(), Some("File does not exist"));

    let failed = parse_html(FileRead::Failed("is a directory".to_string()));
    assert_eq!(failed.error.as_deref(), Some("Failed to read file: is a directory"));
    assert_eq!(failed.char_count, 0);
}

#[test]
fn html_result_from_extracted_text() {
    let r = html_result_from_text("  a \n b ");
    assert!(r.success);
    assert_eq!(r.text, "a b");
    assert_eq!(r.char_count, 3);
    let blank = html_result_from_text(" \t ");
    assert!(!blank.success);
    assert_eq!(blank.error.as_deref(), Some("No text content found in HTML"));
}

#[test]
fn parse_html_with_selectors_picks_elements() {
    let html = "<div><p> One </p><p>Two</p><span>x</span><p>  </p></div>";
    let r = parse_html_with_selectors(
        FileRead::Contents(html.to_string()),
        vec!["p".to_string(), "!!bad".to_string(), "span".to_string()],
    );
    assert!(r.success);
    assert_eq!(r.text, "One Two x");
    assert_eq!(r.char_count, 9);

    let none = parse_html_with_selectors(FileRead::Contents(html.to_string()), vec!["table".to_string()]);
    assert!(!none.success);
    assert_eq!(none.error.as_deref(), Some("No text content found matching selectors"));

    let missing = parse_html_with_selectors(FileRead::Missing, vec!["p".to_string()]);
    assert_eq!(missing.error.as_deref(), Some("File does not exist"));
}

#[test]
fn selected_text_joins_trimmed_texts() {
    let selections = vec![
        Some(vec![" a ".to_string(), "   ".to_string()]),
        None,
        Some(vec!["b c".to_string()]),
        Some(Vec::new()),
    ];
    assert_eq!(selected_text(&selections), "a b c");
    assert_eq!(selected_text(&Vec::new()), "");
}
