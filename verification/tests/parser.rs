use bigrag_native::parser::{
    complete_document, get_supported_extensions, is_supported_extension, kind_of_extension, path_name_and_extension,
    plan_document, DocumentKind, DocumentPlan, ParserOutcome,
};

#[test]
fn test_is_supported_extension() {
    assert!(is_supported_extension("test.pdf".to_string()));
    assert!(is_supported_extension("test.html".to_string()));
    assert!(!is_supported_extension("test.xyz".to_string()));
}

#[test]
fn test_get_supported_extensions() {
    let exts = get_supported_extensions();
    assert!(exts.contains(&".pdf".to_string()));
    assert!(exts.contains(&".html".to_string()));
}

#[test]
fn supported_extensions_listed_in_order() {
    let exts = get_supported_extensions();
    let expected = [
        ".pdf", ".epub", ".html", ".htm", ".txt", ".md", ".markdown", ".rtf", ".jpg", ".jpeg", ".png",
        ".gif", ".bmp", ".tiff", ".webp",
    ];
    assert_eq!(exts, expected.iter().map(|e| e.to_string()).collect::<Vec<String>>());
}

#[test]
fn every_listed_extension_is_supported_in_any_case() {
    for ext in get_supported_extensions() {
        assert!(is_supported_extension(format!("dir/file{}", ext)));
        assert!(is_supported_extension(format!("FILE{}", ext.to_uppercase())));
    }
    assert!(!is_supported_extension("file.docx".to_string()));
    assert!(!is_supported_extension("pdf".to_string()));
    assert!(!is_supported_extension(".pdf".to_string()));
    assert!(!is_supported_extension("file.".to_string()));
    assert!(!is_supported_extension("".to_string()));
}

#[test]
fn path_names_and_extensions() {
    let pair = |p: &str| path_name_and_extension(p);
    assert_eq!(pair("docs/report.PDF"), ("report.PDF".to_string(), "PDF".to_string()));
    assert_eq!(pair("archive.tar.gz"), ("archive.tar.gz".to_string(), "gz".to_string()));
    assert_eq!(pair("dir/.hidden"), (".hidden".to_string(), "".to_string()));
    assert_eq!(pair(".x.md"), (".x.md".to_string(), "md".to_string()));
    assert_eq!(pair("dir.d/file"), ("file".to_string(), "".to_string()));
    assert_eq!(pair("a/b.txt/"), ("b.txt".to_string(), "txt".to_string()));
    assert_eq!(pair("a/b.txt/."), ("b.txt".to_string(), "txt".to_string()));
    assert_eq!(pair("a/.."), ("".to_string(), "".to_string()));
    assert_eq!(pair("/"), ("".to_string(), "".to_string()));
    assert_eq!(pair("file."), ("file.".to_string(), "".to_string()));
    assert_eq!(pair(""), ("".to_string(), "".to_string()));
}

fn finished(plan: DocumentPlan) -> bigrag_native::parser::DocumentParseResult {
    match plan {
        DocumentPlan::Finished(r) => r,
        DocumentPlan::Parse(_) => panic!("expected a finished plan"),
    }
}

#[test]
fn plan_document_routes() {
    let missing = finished(plan_document("gone/a.pdf".to_string(), false, true));
    assert!(!missing.success);
    assert_eq!(missing.file_path, "gone/a.pdf");
    assert_eq!(missing.file_name, "");
    assert_eq!(missing.extension, "");
    assert_eq!(missing.error.as_deref(), Some("File does not exist"));

    let unsupported = finished(plan_document("x/data.xyz".to_string(), true, true));
    assert_eq!(unsupported.file_name, "data.xyz");
    assert_eq!(unsupported.extension, "xyz");
    assert_eq!(unsupported.error.as_deref(), Some("Unsupported file type"));

    let no_ocr = finished(plan_document("pic.PNG".to_string(), true, false));
    assert_eq!(no_ocr.extension, "png");
    assert_eq!(no_ocr.error.as_deref(), Some("OCR is disabled"));
    assert!(!no_ocr.success);

    assert!(matches!(plan_document("pic.PNG".to_string(), true, true), DocumentPlan::Parse(DocumentKind::Image)));
    assert!(matches!(plan_document("a.pdf".to_string(), true, false), DocumentPlan::Parse(DocumentKind::Pdf)));
    assert!(matches!(plan_document("a.epub".to_string(), true, false), DocumentPlan::Parse(DocumentKind::Epub)));
    assert!(matches!(plan_document("a.HTM".to_string(), true, false), DocumentPlan::Parse(DocumentKind::Html)));
    assert!(matches!(plan_document("a.markdown".to_string(), true, false), DocumentPlan::Parse(DocumentKind::Text)));
}

#[test]
fn complete_document_results() {
    let ok = complete_document(
        "d/a.TXT".to_string(),
        DocumentKind::Text,
        ParserOutcome { success: true, text: "hello".to_string(), error: None },
    );
    assert!(ok.success);
    assert_eq!(ok.text, "hello");
    assert_eq!(ok.file_name, "a.TXT");
    assert_eq!(ok.extension, "txt");
    assert!(ok.error.is_none());

    let empty = complete_document(
        "a.txt".to_string(),
        DocumentKind::Text,
        ParserOutcome { success: true, text: String::new(), error: None },
    );
    assert!(!empty.success);
    assert!(empty.error.is_none());

    let failed = complete_document(
        "a.html".to_string(),
        DocumentKind::Html,
        ParserOutcome { success: false, text: "ignored".to_string(), error: Some("No text content found in HTML".to_string()) },
    );
    assert!(!failed.success);
    assert_eq!(failed.text, "");
    assert_eq!(failed.error.as_deref(), Some("No text content found in HTML"));

    let epub = complete_document(
        "b.epub".to_string(),
        DocumentKind::Epub,
        ParserOutcome { success: false, text: String::new(), error: Some("other".to_string()) },
    );
    assert_eq!(epub.error.as_deref(), Some("EPUB parsing requires TypeScript fallback"));
}

#[test]
fn kinds_of_extensions() {
    assert!(matches!(kind_of_extension("pdf"), Some(DocumentKind::Pdf)));
    assert!(matches!(kind_of_extension("htm"), Some(DocumentKind::Html)));
    assert!(matches!(kind_of_extension("rtf"), Some(DocumentKind::Text)));
    assert!(matches!(kind_of_extension("webp"), Some(DocumentKind::Image)));
    assert!(kind_of_extension("PDF").is_none());
    assert!(kind_of_extension("").is_none());
}
