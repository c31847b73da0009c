//! EPUB text extraction, stubbed: a TypeScript parser is used instead.

use vstd::prelude::*;
use vstd::string::StringExecFns;

verus! {

/// The result of extracting the text of an EPUB file.
pub struct EpubParseResult {
    pub success: bool,
    pub text: String,
    pub chapters_processed: u32,
    pub error: Option<String>,
}

/// The metadata of an EPUB file.
pub struct EpubMetadata {
    pub title: String,
    pub author: String,
    pub language: String,
    pub publisher: String,
    pub chapter_count: u32,
}

/// A failed result with no text and no chapters.
fn failed_epub_result(error: &str) -> (res: EpubParseResult)
    ensures
        !res.success,
        res.text@ == Seq::<char>::empty(),
        res.chapters_processed == 0,
        res.error matches Some(e) && e@ == error@,
{
    EpubParseResult {
        success: false,
        text: String::new(),
        chapters_processed: 0,
        error: Some(String::from_str(error)),
    }
}

/// The text of an EPUB file, given whether it exists: always a failure,
/// which names the missing file or the fallback parser.
pub fn extract_epub_text(file_exists: bool) -> (res: EpubParseResult)
    ensures
        !res.success,
        res.text@ == Seq::<char>::empty(),
        res.chapters_processed == 0,
        res.error matches Some(e) && e@ == if file_exists {
            "Use TypeScript EPUB parser (epub2 crate requires async handling)"@
        } else {
            "File does not exist"@
        },
{
    if !file_exists {
        failed_epub_result("File does not exist")
    } else {
        failed_epub_result("Use TypeScript EPUB parser (epub2 crate requires async handling)")
    }
}

/// The metadata of an EPUB file: empty, whatever the path.
pub fn get_epub_metadata(path: String) -> (res: EpubMetadata)
    ensures
        res.title@ == Seq::<char>::empty(),
        res.author@ == Seq::<char>::empty(),
        res.language@ == Seq::<char>::empty(),
        res.publisher@ == Seq::<char>::empty(),
        res.chapter_count == 0,
{
    EpubMetadata {
        title: String::new(),
        author: String::new(),
        language: String::new(),
        publisher: String::new(),
        chapter_count: 0,
    }
}

/// The text of the parts of an EPUB file that selectors pick: not
/// implemented, always a failure.
pub fn extract_epub_text_selective(path: String, selectors: Vec<String>) -> (res: EpubParseResult)
    ensures
        !res.success,
        res.text@ == Seq::<char>::empty(),
        res.chapters_processed == 0,
        res.error matches Some(e) && e@ == "Selective EPUB extraction not yet implemented"@,
{
    failed_epub_result("Selective EPUB extraction not yet implemented")
}

} // verus!
