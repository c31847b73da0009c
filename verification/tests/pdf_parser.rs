use bigrag_native::pdf_parser::{
    extract_page_text, extract_text_from_content, extract_with_lopdf, next_pdf_step, ocr_pdf_pages,
    PageContents, PdfProgress, PdfStep,
};
use std::path::Path;

#[test]
fn test_extract_pdf_text_nonexistent() {
    let file_exists = Path::new("nonexistent.pdf").exists();
    let result = match next_pdf_step(PdfProgress::Start { file_exists }) {
        PdfStep::Finish(r) => r,
        _ => panic!("a missing file ends the extraction"),
    };
    assert!(!result.success);
    assert_eq!(result.stage, "load");
}

#[test]
fn content_stream_strings() {
    assert_eq!(extract_text_from_content(b"BT (Hello) Tj ( World ) Tj ET"), "Hello  World");
    assert_eq!(extract_text_from_content(b"(a)(  )(b)"), "a b");
    assert_eq!(extract_text_from_content(b"(\xff\x41\x42\x07)"), "AB");
    assert_eq!(extract_text_from_content("(caf\u{e9})".as_bytes()), "caf\u{e9}");
    assert_eq!(extract_text_from_content(b"(abc"), "");
    assert_eq!(extract_text_from_content(b"((a)b)"), "(a");
    assert_eq!(extract_text_from_content(b""), "");
    assert_eq!(extract_text_from_content(b") x (y)"), "y");
}

#[test]
fn page_texts() {
    assert_eq!(extract_page_text(&PageContents::Unreadable), None);
    assert_eq!(extract_page_text(&PageContents::Stream(None)), None);
    assert_eq!(extract_page_text(&PageContents::Stream(Some(b"(Hi)".to_vec()))).as_deref(), Some("Hi"));
    assert_eq!(
        extract_page_text(&PageContents::Streams(vec![Some(b"(a)".to_vec()), None, Some(b"(b)".to_vec())]))
            .as_deref(),
        Some("ab"),
    );
    assert_eq!(extract_page_text(&PageContents::Other).as_deref(), Some(""));
}

#[test]
fn lopdf_tier_result() {
    let pages = vec![
        PageContents::Stream(Some(b"(Hi)".to_vec())),
        PageContents::Unreadable,
        PageContents::Streams(vec![Some(b"(a)".to_vec()), None, Some(b"(b)".to_vec())]),
        PageContents::Other,
    ];
    let r = extract_with_lopdf(&pages);
    assert!(r.success);
    assert_eq!(r.text, "Hi\n\nab\n\n");
    assert_eq!(r.stage, "lopdf");

    let blank = extract_with_lopdf(&vec![PageContents::Other, PageContents::Stream(Some(b"( )".to_vec()))]);
    assert!(!blank.success);
    assert_eq!(blank.text, "");
    assert_eq!(blank.error.as_deref(), Some("No text extracted"));

    let none = extract_with_lopdf(&Vec::new());
    assert!(!none.success);
}

fn long_stream() -> Vec<u8> {
    let mut s = b"(".to_vec();
    s.extend_from_slice("x".repeat(60).as_bytes());
    s.push(b')');
    s
}

#[test]
fn pdf_steps() {
    assert!(matches!(next_pdf_step(PdfProgress::Start { file_exists: true }), PdfStep::RunLopdf));
    assert!(matches!(next_pdf_step(PdfProgress::LopdfDone(None)), PdfStep::RunPdfExtract));
    let short = vec![PageContents::Stream(Some(b"(short)".to_vec()))];
    assert!(matches!(next_pdf_step(PdfProgress::LopdfDone(Some(short))), PdfStep::RunPdfExtract));
    match next_pdf_step(PdfProgress::LopdfDone(Some(vec![PageContents::Stream(Some(long_stream()))]))) {
        PdfStep::Finish(r) => {
            assert!(r.success);
            assert_eq!(r.stage, "lopdf");
            assert_eq!(r.text, "x".repeat(60));
        },
        _ => panic!("a long first-tier text stands"),
    }
    let raw = format!("  {}  \n\n {} ", "y".repeat(30), "z".repeat(30));
    match next_pdf_step(PdfProgress::PdfExtractDone(Some(raw))) {
        PdfStep::Finish(r) => {
            assert!(r.success);
            assert_eq!(r.stage, "pdf-extract");
            assert_eq!(r.text, format!("{} {}", "y".repeat(30), "z".repeat(30)));
        },
        _ => panic!("the second tier ends the extraction"),
    }
    for second in [Some("  too short ".to_string()), None] {
        match next_pdf_step(PdfProgress::PdfExtractDone(second)) {
            PdfStep::Finish(r) => {
                assert!(!r.success);
                assert_eq!(r.stage, "rust-fallback");
                assert_eq!(r.text, "");
                assert_eq!(r.error.as_deref(), Some("No text extracted - use LM Studio fallback"));
            },
            _ => panic!("the second tier ends the extraction"),
        }
    }
}

#[test]
fn pdf_ocr_is_not_done_here() {
    let r = ocr_pdf_pages("doc.pdf".to_string(), 7, "eng".to_string());
    assert!(!r.success);
    assert_eq!(r.pages_processed, 7);
    assert_eq!(r.text, "");
    assert_eq!(r.error.as_deref(), Some("PDF OCR requires image extraction - use image OCR directly"));
}
