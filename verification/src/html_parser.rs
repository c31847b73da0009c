//! HTML text extraction: the text of a whole document, or of the elements
//! that CSS selectors pick, with whitespace collapsed.

use vstd::prelude::*;
use vstd::string::StringExecFns;
use scraper::{Html, Selector};
use crate::file_read::FileRead;
use crate::text::{
    all_nonempty, append_trimmed, chars_of, collapse_ws, join, nonblank_trimmed, trim, with_nonblank,
};
use crate::text_parser::{collapse_whitespace, u32_byte_len};

verus! {

/// The result of extracting text from an HTML file.
pub struct HtmlParseResult {
    pub success: bool,
    pub text: String,
    /// The length of `text` in UTF-8 bytes, truncated to 32 bits.
    pub char_count: u32,
    pub error: Option<String>,
}

/// The text nodes under the root element of `html` as scraper parses it,
/// concatenated in document order.
pub uninterp spec fn html_text(html: Seq<char>) -> Seq<char>;

/// The texts of the elements that `selector` picks in `html`, in the order
/// in which scraper's `Html::select` walks the parsed tree's node store (the
/// order the nodes were allocated in), each its text nodes concatenated; `None` when scraper does not
/// accept the selector.
pub uninterp spec fn html_selection(html: Seq<char>, selector: Seq<char>) -> Option<Seq<Seq<char>>>;

/// Parses `html` with `scraper::Html::parse_document` and collects the text
/// of its root element (`ElementRef::text`). Claimed: the result is
/// `html_text(html)`, a function of the input alone.
#[verifier::external_body]
fn document_text(html: &str) -> (text: String)
    ensures
        text@ == html_text(html@),
{
    Html::parse_document(html).root_element().text().collect()
}

/// Parses `selector` with `scraper::Selector::parse` and, when it is
/// accepted, the text of each element of `Html::parse_document(html)` that
/// `Html::select` yields. Claimed: the result is `html_selection(html,
/// selector)`, a function of its inputs alone.
#[verifier::external_body]
fn select_texts(html: &str, selector: &str) -> (texts: Option<Vec<String>>)
    ensures
        match texts {
            Some(v) => html_selection(html@, selector@) == Some(v@.map_values(|s: String| s@)),
            None => html_selection(html@, selector@) is None,
        },
{
    let selector = Selector::parse(selector).ok()?;
    let document = Html::parse_document(html);
    Some(document.select(&selector).map(|element| element.text().collect()).collect())
}

/// The text of an HTML document with its whitespace collapsed.
pub fn parse_html_string(html: String) -> (res: String)
    ensures
        res@ == collapse_ws(html_text(html@)),
{
    let text = document_text(html.as_str());
    collapse_whitespace(text.as_str())
}

/// A failed result with the given message.
fn failed_html_result(error: String) -> (res: HtmlParseResult)
    ensures
        !res.success,
        res.text@ == Seq::<char>::empty(),
        res.char_count == 0,
        res.error == Some(error),
{
    HtmlParseResult { success: false, text: String::new(), char_count: 0, error: Some(error) }
}

/// The result for a missing or unreadable file.
fn unread_html_result(read: &FileRead) -> (res: HtmlParseResult)
    requires
        !(read is Contents),
    ensures
        !res.success,
        res.text@ == Seq::<char>::empty(),
        res.char_count == 0,
        res.error matches Some(e) && e@ == match read {
            FileRead::Failed(msg) => "Failed to read file: "@ + msg@,
            _ => "File does not exist"@,
        },
{
    match read {
        FileRead::Failed(msg) => {
            let mut error = String::from_str("Failed to read file: ");
            error.append(msg.as_str());
            failed_html_result(error)
        },
        _ => failed_html_result(String::from_str("File does not exist")),
    }
}

/// The result for extracted text `cleaned`: a success exactly when it is not
/// empty, otherwise a failure with `empty_message`.
fn html_result(cleaned: String, empty_message: &str) -> (res: HtmlParseResult)
    ensures
        res.text@ == cleaned@,
        res.char_count == u32_byte_len(cleaned@),
        res.success == (cleaned@.len() > 0),
        res.success ==> res.error is None,
        !res.success ==> (res.error matches Some(e) && e@ == empty_message@),
{
    let char_count = #[verifier::truncate] (cleaned.as_str().len() as u32);
    if cleaned.as_str().is_empty() {
        HtmlParseResult {
            success: false,
            text: cleaned,
            char_count,
            error: Some(String::from_str(empty_message)),
        }
    } else {
        HtmlParseResult { success: true, text: cleaned, char_count, error: None }
    }
}

/// The result of parsing an HTML file whose whole text is `text`: the text
/// with whitespace collapsed, a success when that is not empty.
pub fn html_result_from_text(text: &str) -> (res: HtmlParseResult)
    ensures
        res.text@ == collapse_ws(text@),
        res.char_count == u32_byte_len(res.text@),
        res.success == (res.text@.len() > 0),
        res.success ==> res.error is None,
        !res.success ==> (res.error matches Some(e) && e@ == "No text content found in HTML"@),
{
    html_result(collapse_whitespace(text), "No text content found in HTML")
}

/// Parses the contents of an HTML file: a missing or unreadable file gives a
/// failed result with its message; otherwise the document's text with
/// whitespace collapsed, a success when that is not empty.
pub fn parse_html(read: FileRead) -> (res: HtmlParseResult)
    ensures
        match read {
            FileRead::Contents(content) => {
                &&& res.text@ == collapse_ws(html_text(content@))
                &&& res.char_count == u32_byte_len(res.text@)
                &&& res.success == (res.text@.len() > 0)
                &&& res.success ==> res.error is None
                &&& !res.success ==> (res.error matches Some(e) && e@
                    == "No text content found in HTML"@)
            },
            FileRead::Failed(msg) => {
                &&& !res.success && res.text@ == Seq::<char>::empty() && res.char_count == 0
                &&& res.error matches Some(e) && e@ == "Failed to read file: "@ + msg@
            },
            FileRead::Missing => {
                &&& !res.success && res.text@ == Seq::<char>::empty() && res.char_count == 0
                &&& res.error matches Some(e) && e@ == "File does not exist"@
            },
        },
{
    match read {
        FileRead::Contents(content) => {
            let text = document_text(content.as_str());
            html_result_from_text(text.as_str())
        },
        _ => unread_html_result(&read),
    }
}

/// A selection as a mathematical value.
pub open spec fn selection_view(sel: Option<Vec<String>>) -> Option<Seq<Seq<char>>> {
    match sel {
        Some(v) => Some(v@.map_values(|s: String| s@)),
        None => None,
    }
}

/// The non-blank trimmed texts of a list of selections, in order; a selector
/// that was not accepted contributes nothing.
pub open spec fn selected_parts(selections: Seq<Option<Seq<Seq<char>>>>) -> Seq<Seq<char>>
    decreases selections.len(),
{
    if selections.len() == 0 {
        seq![]
    } else {
        selected_parts(selections.drop_last()) + match selections.last() {
            Some(texts) => nonblank_trimmed(texts),
            None => seq![],
        }
    }
}

/// What the selectors pick in `html`, selector by selector.
pub open spec fn selections_of(html: Seq<char>, selectors: Seq<Seq<char>>) -> Seq<Option<Seq<Seq<char>>>> {
    Seq::new(selectors.len(), |i: int| html_selection(html, selectors[i]))
}

/// The text of a list of selections: their non-blank trimmed texts joined
/// by single spaces.
pub fn selected_text(selections: &Vec<Option<Vec<String>>>) -> (res: String)
    ensures
        res@ == join(selected_parts(selections@.map_values(|o: Option<Vec<String>>| selection_view(o))), seq![' ']),
{
    let ghost views = selections@.map_values(|o: Option<Vec<String>>| selection_view(o));
    let mut out = String::new();
    let mut k: usize = 0;
    while k < selections.len()
        invariant
            k <= selections@.len(),
            views == selections@.map_values(|o: Option<Vec<String>>| selection_view(o)),
            out@ == join(selected_parts(views.take(k as int)), seq![' ']),
            all_nonempty(selected_parts(views.take(k as int))),
        decreases selections@.len() - k,
    {
        let ghost before = selected_parts(views.take(k as int));
        assert(views.take(k + 1).drop_last() =~= views.take(k as int));
        assert(views.take(k + 1).last() == selection_view(selections@[k as int]));
        match &selections[k] {
            None => {
                assert(selected_parts(views.take(k + 1)) =~= before);
            },
            Some(texts) => {
                let ghost tv = texts@.map_values(|s: String| s@);
                let mut j: usize = 0;
                while j < texts.len()
                    invariant
                        j <= texts@.len(),
                        tv == texts@.map_values(|s: String| s@),
                        out@ == join(before + nonblank_trimmed(tv.take(j as int)), seq![' ']),
                        all_nonempty(before + nonblank_trimmed(tv.take(j as int))),
                    decreases texts@.len() - j,
                {
                    let cs = chars_of(texts[j].as_str());
                    let ghost acc = before + nonblank_trimmed(tv.take(j as int));
                    assert(cs@.subrange(0, cs@.len() as int) =~= tv[j as int]);
                    append_trimmed(&mut out, &cs, 0, cs.len(), ' ', Ghost(acc));
                    assert(tv.take(j + 1).drop_last() =~= tv.take(j as int));
                    assert(with_nonblank(acc, trim(tv[j as int])) =~= before + nonblank_trimmed(tv.take(j + 1)));
                    j = j + 1;
                }
                assert(tv.take(texts@.len() as int) =~= tv);
            },
        }
        k = k + 1;
    }
    assert(views.take(selections@.len() as int) =~= views);
    out
}

/// Parses the contents of an HTML file and extracts the text of the
/// elements that `selectors` pick: a missing or unreadable file gives a
/// failed result with its message; otherwise the non-blank trimmed texts of
/// the selected elements, selector by selector, joined by single spaces,
/// a success when that is not empty.
pub fn parse_html_with_selectors(read: FileRead, selectors: Vec<String>) -> (res: HtmlParseResult)
    ensures
        match read {
            FileRead::Contents(content) => {
                &&& res.text@ == join(
                    selected_parts(selections_of(content@, selectors@.map_values(|s: String| s@))),
                    seq![' '],
                )
                &&& res.char_count == u32_byte_len(res.text@)
                &&& res.success == (res.text@.len() > 0)
                &&& res.success ==> res.error is None
                &&& !res.success ==> (res.error matches Some(e) && e@
                    == "No text content found matching selectors"@)
            },
            FileRead::Failed(msg) => {
                &&& !res.success && res.text@ == Seq::<char>::empty() && res.char_count == 0
                &&& res.error matches Some(e) && e@ == "Failed to read file: "@ + msg@
            },
            FileRead::Missing => {
                &&& !res.success && res.text@ == Seq::<char>::empty() && res.char_count == 0
                &&& res.error matches Some(e) && e@ == "File does not exist"@
            },
        },
{
    match read {
        FileRead::Contents(content) => {
            let mut selections: Vec<Option<Vec<String>>> = Vec::new();
            let mut i: usize = 0;
            while i < selectors.len()
                invariant
                    i <= selectors@.len(),
                    selections@.len() == i,
                    forall|k: int| 0 <= k < i ==> #[trigger] selection_view(selections@[k])
                        == html_selection(content@, selectors@[k]@),
                decreases selectors@.len() - i,
            {
                selections.push(select_texts(content.as_str(), selectors[i].as_str()));
                i = i + 1;
            }
            let text = selected_text(&selections);
            assert(selections@.map_values(|o: Option<Vec<String>>| selection_view(o)) =~= selections_of(
                content@,
                selectors@.map_values(|s: String| s@),
            ));
            html_result(text, "No text content found matching selectors")
        },
        _ => unread_html_result(&read),
    }
}

} // verus!
