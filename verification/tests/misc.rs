use bigrag_native::{epub_parser, epub_parser_simple};
use bigrag_native::indexer::estimate_tokens;
use bigrag_native::ocr::get_ocr_languages;

#[test]
fn test_get_ocr_languages() {
    let languages = get_ocr_languages();
    assert!(languages.contains(&"eng".to_string()));
    assert!(!languages.is_empty());
}

#[test]
fn ocr_languages_listed() {
    assert_eq!(
        get_ocr_languages(),
        ["eng", "spa", "fra", "deu", "ita", "por", "rus", "chi_sim", "chi_tra", "jpn", "kor", "ara", "hin"]
            .iter()
            .map(|s| s.to_string())
            .collect::<Vec<String>>()
    );
}

#[test]
fn token_estimates() {
    assert_eq!(estimate_tokens(String::new()), 0);
    assert_eq!(estimate_tokens("abcd".to_string()), 1);
    assert_eq!(estimate_tokens("abcde".to_string()), 2);
    assert_eq!(estimate_tokens("\u{e9}".to_string()), 1);
    assert_eq!(estimate_tokens("x".repeat(4001)), 1001);
}

#[test]
fn epub_results() {
    let missing = epub_parser::extract_epub_text(false);
    assert!(!missing.success);
    assert_eq!(missing.error.as_deref(), Some("File does not exist"));
    let present = epub_parser::extract_epub_text(true);
    assert!(!present.success);
    assert_eq!(present.chapters_processed, 0);
    assert_eq!(
        present.error.as_deref(),
        Some("Use TypeScript EPUB parser (epub2 crate requires async handling)")
    );
    let simple = epub_parser_simple::extract_epub_text(true);
    assert_eq!(
        simple.error.as_deref(),
        Some("EPUB parsing not yet fully implemented - use TypeScript fallback")
    );
    assert_eq!(epub_parser_simple::extract_epub_text(false).error.as_deref(), Some("File does not exist"));

    for sel in [
        epub_parser::extract_epub_text_selective("b.epub".to_string(), vec!["p".to_string()]),
    ] {
        assert!(!sel.success);
        assert_eq!(sel.error.as_deref(), Some("Selective EPUB extraction not yet implemented"));
    }
    let sel2 = epub_parser_simple::extract_epub_text_selective("b.epub".to_string(), Vec::new());
    assert_eq!(sel2.error.as_deref(), Some("Selective EPUB extraction not yet implemented"));

    let meta = epub_parser::get_epub_metadata("b.epub".to_string());
    assert_eq!((meta.title.as_str(), meta.author.as_str(), meta.chapter_count), ("", "", 0));
    let meta2 = epub_parser_simple::get_epub_metadata("b.epub".to_string());
    assert_eq!((meta2.language.as_str(), meta2.publisher.as_str()), ("", ""));
}
