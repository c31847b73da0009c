//! PDF text extraction: text from page content streams, the assembly of a
//! document's page texts, and the choice between extraction tiers.

use vstd::prelude::*;
use vstd::string::StringExecFns;
use vstd::utf8::{decode_utf8, valid_utf8};
use crate::text::{
    collapse_ws, is_blank, join, lemma_join_push, lemma_trim_idempotent, push_char, str_len, trim, trim_str,
};
use crate::text_parser::collapse_whitespace;

verus! {

/// The result of extracting the text of a PDF file.
pub struct PdfParseResult {
    pub success: bool,
    pub text: String,
    /// The extraction stage that produced the result.
    pub stage: String,
    pub error: Option<String>,
}

/// The result of OCR over the pages of a PDF file.
pub struct PdfOcrResult {
    pub success: bool,
    pub text: String,
    pub pages_processed: u32,
    pub error: Option<String>,
}

/// The printable ASCII bytes (32 to 126) of `bytes`, as characters.
pub open spec fn printable_ascii(bytes: Seq<u8>) -> Seq<char>
    decreases bytes.len(),
{
    if bytes.len() == 0 {
        seq![]
    } else {
        let b = bytes.last();
        printable_ascii(bytes.drop_last()) + if 32 <= b && b < 127 {
            seq![b as char]
        } else {
            seq![]
        }
    }
}

/// A string segment decoded: as UTF-8 when it is valid UTF-8, otherwise its
/// printable ASCII bytes.
pub open spec fn decode_segment(bytes: Seq<u8>) -> Seq<char> {
    if valid_utf8(bytes) {
        decode_utf8(bytes)
    } else {
        printable_ascii(bytes)
    }
}

/// The text a closed string segment contributes: the decoded segment and a
/// space, or nothing when the decoded segment is blank.
pub open spec fn segment_text(bytes: Seq<u8>) -> Seq<char> {
    let decoded = decode_segment(bytes);
    if trim(decoded).len() == 0 {
        seq![]
    } else {
        decoded.push(' ')
    }
}

/// Where a scan over a content stream stands: the text gathered so far,
/// whether it is inside a string, and the bytes of the open string.
pub struct ContentScan {
    pub text: Seq<char>,
    pub in_text: bool,
    pub current: Seq<u8>,
}

/// The scan of `content`: a `(` outside a string opens one, the next `)`
/// closes it and adds its text; bytes inside a string (a `(` too) belong to
/// it; other bytes are skipped.
pub open spec fn scan_content(content: Seq<u8>) -> ContentScan
    decreases content.len(),
{
    if content.len() == 0 {
        ContentScan { text: seq![], in_text: false, current: seq![] }
    } else {
        let st = scan_content(content.drop_last());
        let b = content.last();
        if b == 40 && !st.in_text {
            ContentScan { text: st.text, in_text: true, current: seq![] }
        } else if b == 41 && st.in_text {
            ContentScan { text: st.text + segment_text(st.current), in_text: false, current: seq![] }
        } else if st.in_text {
            ContentScan { text: st.text, in_text: true, current: st.current.push(b) }
        } else {
            st
        }
    }
}

/// The text of a content stream: the texts of its closed string segments,
/// trimmed.
pub open spec fn content_text(content: Seq<u8>) -> Seq<char> {
    trim(scan_content(content).text)
}

/// `String::from_utf8`: the bytes as a string when they are valid UTF-8,
/// otherwise the bytes back (`FromUtf8Error::into_bytes`). Claimed: `Ok`
/// exactly for valid UTF-8, with the decoded characters.
#[verifier::external_body]
fn string_from_utf8(bytes: Vec<u8>) -> (res: Result<String, Vec<u8>>)
    ensures
        match res {
            Ok(s) => valid_utf8(bytes@) && s@ == decode_utf8(bytes@),
            Err(b) => !valid_utf8(bytes@) && b@ == bytes@,
        },
{
    String::from_utf8(bytes).map_err(|e| e.into_bytes())
}

/// The printable ASCII bytes of `bytes` as a string.
fn printable_string(bytes: &Vec<u8>) -> (res: String)
    ensures
        res@ == printable_ascii(bytes@),
{
    let mut out = String::new();
    let mut i: usize = 0;
    while i < bytes.len()
        invariant
            i <= bytes@.len(),
            out@ == printable_ascii(bytes@.take(i as int)),
        decreases bytes@.len() - i,
    {
        let b = bytes[i];
        assert(bytes@.take(i + 1).drop_last() =~= bytes@.take(i as int));
        assert(bytes@.take(i + 1).last() == b);
        if 32 <= b && b < 127 {
            push_char(&mut out, b as char);
        } else {
            assert(out@ =~= out@ + Seq::<char>::empty());
        }
        i = i + 1;
    }
    assert(bytes@.take(bytes@.len() as int) =~= bytes@);
    out
}

/// The text of a PDF content stream: the strings between `(` and `)`,
/// decoded, blank ones skipped, each followed by a space, the whole trimmed.
pub fn extract_text_from_content(content: &[u8]) -> (res: String)
    ensures
        res@ == content_text(content@),
{
    let mut text = String::new();
    let mut in_text = false;
    let mut current: Vec<u8> = Vec::new();
    let mut i: usize = 0;
    while i < content.len()
        invariant
            i <= content@.len(),
            scan_content(content@.take(i as int)) == (ContentScan { text: text@, in_text, current: current@ }),
        decreases content@.len() - i,
    {
        let byte = content[i];
        assert(content@.take(i + 1).drop_last() =~= content@.take(i as int));
        assert(content@.take(i + 1).last() == byte);
        if byte == 40 && !in_text {
            in_text = true;
            current = Vec::new();
        } else if byte == 41 && in_text {
            in_text = false;
            let segment = current;
            current = Vec::new();
            let decoded = match string_from_utf8(segment) {
                Ok(s) => s,
                Err(bytes) => printable_string(&bytes),
            };
            if !is_blank(decoded.as_str()) {
                text.append(decoded.as_str());
                push_char(&mut text, ' ');
            } else {
                assert(text@ =~= text@ + Seq::<char>::empty());
            }
        } else if in_text {
            current.push(byte);
        }
        i = i + 1;
    }
    assert(content@.take(content@.len() as int) =~= content@);
    trim_str(text.as_str())
}

/// What the `/Contents` entry of a PDF page holds, as far as text
/// extraction reads it.
pub enum PageContents {
    /// The page object, its dictionary or its `/Contents` entry could not be
    /// read.
    Unreadable,
    /// `/Contents` is a stream: its decompressed bytes, or `None` when
    /// decompression failed.
    Stream(Option<Vec<u8>>),
    /// `/Contents` is an array: for each entry, the decompressed bytes of the
    /// stream it references, or `None` when the entry is not a reference to a
    /// stream or its decompression failed.
    Streams(Vec<Option<Vec<u8>>>),
    /// `/Contents` is something else.
    Other,
}

/// Optional bytes as a mathematical value.
pub open spec fn bytes_view(o: Option<Vec<u8>>) -> Option<Seq<u8>> {
    match o {
        Some(d) => Some(d@),
        None => None,
    }
}

/// The concatenated texts of the streams that could be read.
pub open spec fn streams_text(items: Seq<Option<Seq<u8>>>) -> Seq<char>
    decreases items.len(),
{
    if items.len() == 0 {
        seq![]
    } else {
        streams_text(items.drop_last()) + match items.last() {
            Some(d) => content_text(d),
            None => seq![],
        }
    }
}

/// The text of a page, or `None` when the page cannot be read.
pub open spec fn page_text(page: PageContents) -> Option<Seq<char>> {
    match page {
        PageContents::Unreadable => None,
        PageContents::Stream(None) => None,
        PageContents::Stream(Some(d)) => Some(content_text(d@)),
        PageContents::Streams(items) => Some(streams_text(items@.map_values(|o: Option<Vec<u8>>| bytes_view(o)))),
        PageContents::Other => Some(seq![]),
    }
}

/// The texts of the readable pages, in page order.
pub open spec fn page_texts(pages: Seq<PageContents>) -> Seq<Seq<char>>
    decreases pages.len(),
{
    if pages.len() == 0 {
        seq![]
    } else {
        page_texts(pages.drop_last()) + match page_text(pages.last()) {
            Some(t) => seq![t],
            None => seq![],
        }
    }
}

/// The text of one page, `None` when it cannot be read.
pub fn extract_page_text(page: &PageContents) -> (res: Option<String>)
    ensures
        match res {
            Some(t) => page_text(*page) == Some(t@),
            None => page_text(*page) is None,
        },
{
    match page {
        PageContents::Unreadable => None,
        PageContents::Stream(None) => None,
        PageContents::Stream(Some(data)) => Some(extract_text_from_content(data.as_slice())),
        PageContents::Streams(items) => {
            let ghost views = items@.map_values(|o: Option<Vec<u8>>| bytes_view(o));
            let mut text = String::new();
            let mut i: usize = 0;
            while i < items.len()
                invariant
                    i <= items@.len(),
                    views == items@.map_values(|o: Option<Vec<u8>>| bytes_view(o)),
                    text@ == streams_text(views.take(i as int)),
                decreases items@.len() - i,
            {
                assert(views.take(i + 1).drop_last() =~= views.take(i as int));
                assert(views.take(i + 1).last() == bytes_view(items@[i as int]));
                match &items[i] {
                    Some(data) => {
                        let t = extract_text_from_content(data.as_slice());
                        text.append(t.as_str());
                    },
                    None => {
                        assert(text@ =~= text@ + Seq::<char>::empty());
                    },
                }
                i = i + 1;
            }
            assert(views.take(items@.len() as int) =~= views);
            Some(text)
        },
        PageContents::Other => Some(String::new()),
    }
}

/// The separator between page texts.
pub open spec fn page_separator() -> Seq<char> {
    seq!['\n', '\n']
}

/// The text of a document's pages: the readable pages' texts joined by a
/// blank line.
pub open spec fn document_text(pages: Seq<PageContents>) -> Seq<char> {
    join(page_texts(pages), page_separator())
}

/// The first-tier result for a loaded document: its pages' text, a success
/// unless that text is blank.
pub fn extract_with_lopdf(pages: &Vec<PageContents>) -> (res: PdfParseResult)
    ensures
        res.stage@ == "lopdf"@,
        res.success == (trim(document_text(pages@)).len() > 0),
        res.success ==> res.text@ == document_text(pages@) && res.error is None,
        !res.success ==> res.text@ == Seq::<char>::empty() && (res.error matches Some(e) && e@
            == "No text extracted"@),
{
    let mut full = String::new();
    let mut count: usize = 0;
    let mut i: usize = 0;
    while i < pages.len()
        invariant
            i <= pages@.len(),
            count == page_texts(pages@.take(i as int)).len(),
            count <= i,
            full@ == join(page_texts(pages@.take(i as int)), page_separator()),
        decreases pages@.len() - i,
    {
        let ghost before = page_texts(pages@.take(i as int));
        assert(pages@.take(i + 1).drop_last() =~= pages@.take(i as int));
        assert(pages@.take(i + 1).last() == pages@[i as int]);
        match extract_page_text(&pages[i]) {
            Some(t) => {
                proof {
                    lemma_join_push(before, page_separator(), t@);
                    assert(before + seq![t@] =~= before.push(t@));
                }
                if count > 0 {
                    push_char(&mut full, '\n');
                    push_char(&mut full, '\n');
                }
                full.append(t.as_str());
                assert(full@ =~= join(before.push(t@), page_separator()));
                count = count + 1;
            },
            None => {
                assert(before + Seq::<Seq<char>>::empty() =~= before);
            },
        }
        i = i + 1;
    }
    assert(pages@.take(pages@.len() as int) =~= pages@);
    if is_blank(full.as_str()) {
        PdfParseResult {
            success: false,
            text: String::new(),
            stage: String::from_str("lopdf"),
            error: Some(String::from_str("No text extracted")),
        }
    } else {
        PdfParseResult { success: true, text: full, stage: String::from_str("lopdf"), error: None }
    }
}

/// How far the extraction of a PDF file has come.
pub enum PdfProgress {
    /// Nothing done yet but checking whether the file exists.
    Start { file_exists: bool },
    /// The first tier ran: the document's pages, or `None` when it could
    /// not be loaded.
    LopdfDone(Option<Vec<PageContents>>),
    /// The second tier ran: the text it extracted, or `None` when it failed.
    PdfExtractDone(Option<String>),
}

/// What to do next in the extraction of a PDF file.
pub enum PdfStep {
    /// Load the document and read its pages' contents.
    RunLopdf,
    /// Extract its text with the second-tier extractor.
    RunPdfExtract,
    /// Extraction is over, with this result.
    Finish(PdfParseResult),
}

/// The shortest text that a tier may return: longer than 50 bytes.
pub open spec fn enough_text(s: Seq<char>) -> bool {
    str_len(s) > 50
}

/// The next step of extracting the text of a PDF file: a missing file ends
/// at the load stage; otherwise the first tier runs, and its result stands
/// when it succeeded with more than 50 bytes of text; otherwise the second
/// tier runs, and its text, whitespace collapsed, stands when longer than 50
/// bytes; otherwise the result asks for the fallback parser.
pub fn next_pdf_step(progress: PdfProgress) -> (step: PdfStep)
    ensures
        match progress {
            PdfProgress::Start { file_exists } => if file_exists {
                step is RunLopdf
            } else {
                step matches PdfStep::Finish(r) && !r.success && r.text@ == Seq::<char>::empty()
                    && r.stage@ == "load"@ && (r.error matches Some(e) && e@
                    == "File does not exist"@)
            },
            PdfProgress::LopdfDone(pages) => match pages {
                Some(pages) => {
                    let text = document_text(pages@);
                    if trim(text).len() > 0 && enough_text(text) {
                        step matches PdfStep::Finish(r) && r.success && r.text@ == text
                            && r.stage@ == "lopdf"@ && r.error is None
                    } else {
                        step is RunPdfExtract
                    }
                },
                None => step is RunPdfExtract,
            },
            PdfProgress::PdfExtractDone(text) => {
                if text matches Some(t) && enough_text(collapse_ws(t@)) {
                    step matches PdfStep::Finish(r) && r.success && r.text@ == collapse_ws(
                        text->0@,
                    ) && r.stage@ == "pdf-extract"@ && r.error is None
                } else {
                    step matches PdfStep::Finish(r) && !r.success && r.text@
                        == Seq::<char>::empty() && r.stage@ == "rust-fallback"@ && (
                    r.error matches Some(e) && e@ == "No text extracted - use LM Studio fallback"@)
                }
            },
        },
{
    match progress {
        PdfProgress::Start { file_exists } => {
            if file_exists {
                PdfStep::RunLopdf
            } else {
                PdfStep::Finish(
                    PdfParseResult {
                        success: false,
                        text: String::new(),
                        stage: String::from_str("load"),
                        error: Some(String::from_str("File does not exist")),
                    },
                )
            }
        },
        PdfProgress::LopdfDone(pages) => match pages {
            Some(pages) => {
                let result = extract_with_lopdf(&pages);
                if result.success && result.text.as_str().len() > 50 {
                    PdfStep::Finish(result)
                } else {
                    PdfStep::RunPdfExtract
                }
            },
            None => PdfStep::RunPdfExtract,
        },
        PdfProgress::PdfExtractDone(text) => {
            let cleaned = match &text {
                Some(t) => Some(collapse_whitespace(t.as_str())),
                None => None,
            };
            match cleaned {
                Some(c) if c.as_str().len() > 50 => PdfStep::Finish(
                    PdfParseResult {
                        success: true,
                        text: c,
                        stage: String::from_str("pdf-extract"),
                        error: None,
                    },
                ),
                _ => PdfStep::Finish(
                    PdfParseResult {
                        success: false,
                        text: String::new(),
                        stage: String::from_str("rust-fallback"),
                        error: Some(String::from_str("No text extracted - use LM Studio fallback")),
                    },
                ),
            }
        },
    }
}

/// OCR over PDF pages is not done here: the result always reports that
/// images must be extracted and passed to image OCR, with `max_pages` as
/// the page count.
pub fn ocr_pdf_pages(path: String, max_pages: u32, lang: String) -> (res: PdfOcrResult)
    ensures
        !res.success,
        res.text@ == Seq::<char>::empty(),
        res.pages_processed == max_pages,
        res.error matches Some(e) && e@ == "PDF OCR requires image extraction - use image OCR directly"@,
{
    PdfOcrResult {
        success: false,
        text: String::new(),
        pages_processed: max_pages,
        error: Some(String::from_str("PDF OCR requires image extraction - use image OCR directly")),
    }
}

/// The text extracted from a content stream carries no leading or trailing
/// whitespace.
pub proof fn content_text_is_trimmed(content: Seq<u8>)
    ensures
        trim(content_text(content)) == content_text(content),
{
    lemma_trim_idempotent(scan_content(content).text);
}

/// Bytes that are all printable ASCII (32 to 126, the space included) are
/// kept, in order, each as the character of the same code.
pub proof fn printable_bytes_are_kept(bytes: Seq<u8>)
    requires
        forall|i: int| 0 <= i < bytes.len() ==> 32 <= #[trigger] bytes[i] && bytes[i] <= 126,
    ensures
        printable_ascii(bytes) == bytes.map_values(|b: u8| b as char),
    decreases bytes.len(),
{
    if bytes.len() > 0 {
        let init = bytes.drop_last();
        assert forall|i: int| 0 <= i < init.len() implies 32 <= #[trigger] init[i] && init[i] <= 126 by {
            assert(init[i] == bytes[i]);
        }
        printable_bytes_are_kept(init);
        assert(32 <= bytes[bytes.len() - 1] && bytes[bytes.len() - 1] <= 126);
        assert(bytes.map_values(|b: u8| b as char) =~= init.map_values(|b: u8| b as char) + seq![
            bytes.last() as char,
        ]);
    }
}

/// A byte below 32 or above 126 contributes nothing to the printable text.
pub proof fn unprintable_bytes_are_dropped(bytes: Seq<u8>, b: u8)
    requires
        b < 32 || b > 126,
    ensures
        printable_ascii(bytes.push(b)) == printable_ascii(bytes),
{
    assert(bytes.push(b).drop_last() =~= bytes);
    assert(printable_ascii(bytes) + Seq::<char>::empty() =~= printable_ascii(bytes));
}

/// A space byte is kept as a space.
pub proof fn space_byte_is_kept(bytes: Seq<u8>)
    ensures
        printable_ascii(bytes.push(32u8)) == printable_ascii(bytes).push(' '),
{
    assert(bytes.push(32u8).drop_last() =~= bytes);
    assert((32u8 as char) == ' ');
    assert(printable_ascii(bytes) + seq![' '] =~= printable_ascii(bytes).push(' '));
}

/// A tier's text stands only when longer than 50 bytes: 51 bytes are
/// enough, 50 are not.
pub proof fn tier_text_needs_more_than_fifty_bytes(s: Seq<char>)
    ensures
        str_len(s) == 51 ==> enough_text(s),
        str_len(s) <= 50 ==> !enough_text(s),
{
}

} // verus!
