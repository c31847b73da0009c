//! Plain-text and markdown processing: line-ending normalisation, whitespace
//! collapsing, markdown stripping and the text-file parse result.

use vstd::prelude::*;
use vstd::string::StringExecFns;
use vstd::utf8::encode_utf8;
use pulldown_cmark::{Event, Options, Parser};
use crate::file_read::FileRead;
use crate::text::{
    avoids, chars_of, collapse_ws, collapsed_lines, count_newlines, is_whitespace, is_ws, join,
    keep_lines, lemma_collapse_avoids_ws, lemma_collapse_idempotent, lemma_collapsed_lines_fixed,
    lemma_collapsed_lines_props, lemma_encode_push, lemma_join_avoids, lemma_join_empty,
    lemma_join_extend_last, lemma_join_push, lemma_normalize_identity, lemma_split_of_join,
    lemma_split_on_len, lemma_words_nonempty, line_count, normalize_newlines,
    push_char, replace_cr, replace_crlf, split_on, str_len, total_bytes, utf8_width, words,
};

verus! {

/// The words of `cs[lo..hi]` joined by single spaces.
pub fn collapse_range(cs: &Vec<char>, lo: usize, hi: usize) -> (res: String)
    requires
        lo <= hi <= cs@.len(),
    ensures
        res@ == collapse_ws(cs@.subrange(lo as int, hi as int)),
{
    let mut out = String::new();
    let mut prev_in_word = false;
    let mut i: usize = lo;
    assert(cs@.subrange(lo as int, lo as int) =~= Seq::<char>::empty());
    while i < hi
        invariant
            lo <= i <= hi <= cs@.len(),
            out@ == collapse_ws(cs@.subrange(lo as int, i as int)),
            prev_in_word == (i > lo && !is_ws(cs@[i - 1])),
            (out@.len() == 0) == (words(cs@.subrange(lo as int, i as int)).len() == 0),
        decreases hi - i,
    {
        let c = cs[i];
        let ghost p = cs@.subrange(lo as int, i as int);
        let ghost q = cs@.subrange(lo as int, i + 1);
        assert(q.drop_last() =~= p);
        assert(q.last() == c);
        if is_whitespace(c) {
            prev_in_word = false;
        } else if prev_in_word {
            proof {
                assert(p.last() == cs@[i - 1]);
                lemma_words_nonempty(p);
                lemma_join_extend_last(words(p), seq![' '], c);
            }
            push_char(&mut out, c);
        } else {
            proof {
                if i > lo {
                    assert(q[q.len() - 2] == cs@[i - 1]);
                }
                lemma_join_push(words(p), seq![' '], seq![c]);
            }
            if out.as_str().is_empty() {
                push_char(&mut out, c);
                assert(out@ =~= seq![c]);
            } else {
                push_char(&mut out, ' ');
                push_char(&mut out, c);
                assert(out@ =~= collapse_ws(p) + seq![' '] + seq![c]);
            }
            prev_in_word = true;
        }
        i = i + 1;
    }
    out
}

/// Whitespace collapsed: the words of `text` separated by single spaces
/// (`split_whitespace` joined with `" "`).
pub fn collapse_whitespace(text: &str) -> (res: String)
    ensures
        res@ == collapse_ws(text@),
{
    let cs = chars_of(text);
    assert(cs@.subrange(0, cs@.len() as int) =~= cs@);
    collapse_range(&cs, 0, cs.len())
}

/// Line endings normalised to Unix style: `"\r\n"` and lone `'\r'` become `'\n'`.
pub fn normalize_line_endings(text: &str) -> (res: String)
    ensures
        res@ == normalize_newlines(text@),
{
    let cs = chars_of(text);
    let mut mid: Vec<char> = Vec::new();
    let mut i: usize = 0;
    assert(cs@.skip(0) =~= cs@);
    assert(mid@ + replace_crlf(cs@) =~= replace_crlf(cs@));
    while i < cs.len()
        invariant
            i <= cs@.len(),
            replace_crlf(cs@) == mid@ + replace_crlf(cs@.skip(i as int)),
        decreases cs@.len() - i,
    {
        let ghost rest = cs@.skip(i as int);
        if i + 1 < cs.len() && cs[i] == '\r' && cs[i + 1] == '\n' {
            assert(rest[0] == '\r' && rest[1] == '\n');
            assert(rest.skip(2) =~= cs@.skip(i + 2));
            assert(replace_crlf(rest) == seq!['\n'] + replace_crlf(rest.skip(2)));
            mid.push('\n');
            assert(mid@ + replace_crlf(cs@.skip(i + 2)) =~= mid@.drop_last() + replace_crlf(rest));
            i = i + 2;
        } else {
            assert(rest[0] == cs@[i as int]);
            assert(rest.skip(1) =~= cs@.skip(i + 1));
            mid.push(cs[i]);
            assert(mid@ + replace_crlf(cs@.skip(i + 1)) =~= mid@.drop_last() + replace_crlf(rest));
            i = i + 1;
        }
    }
    assert(cs@.skip(i as int) =~= Seq::<char>::empty());
    assert(mid@ + Seq::<char>::empty() =~= mid@);
    let mut out = String::new();
    let mut j: usize = 0;
    while j < mid.len()
        invariant
            j <= mid@.len(),
            out@ == replace_cr(mid@.take(j as int)),
        decreases mid@.len() - j,
    {
        let c = mid[j];
        if c == '\r' {
            push_char(&mut out, '\n');
        } else {
            push_char(&mut out, c);
        }
        assert(replace_cr(mid@.take(j + 1)) =~= replace_cr(mid@.take(j as int)).push(
            if c == '\r' { '\n' } else { c },
        ));
        j = j + 1;
    }
    assert(mid@.take(mid@.len() as int) =~= mid@);
    out
}

/// Whitespace collapsed with line breaks kept: within each line runs of
/// whitespace become single spaces and the ends are trimmed, blank lines are
/// dropped, and the remaining lines are joined by `'\n'`.
pub fn collapse_whitespace_keep_lines(text: &str) -> (res: String)
    ensures
        res@ == keep_lines(text@),
{
    let cs = chars_of(text);
    let mut out = String::new();
    let mut start: usize = 0;
    let mut i: usize = 0;
    let ghost mut done: Seq<Seq<char>> = seq![];
    assert(cs@.take(0) =~= Seq::<char>::empty());
    assert(split_on(cs@.take(0), '\n') =~= done.push(cs@.subrange(0, 0)));
    while i < cs.len()
        invariant
            start <= i <= cs@.len(),
            split_on(cs@.take(i as int), '\n') == done.push(cs@.subrange(start as int, i as int)),
            out@ == join(collapsed_lines(done), seq!['\n']),
        decreases cs@.len() - i,
    {
        let ghost p = cs@.take(i as int);
        let ghost q = cs@.take(i + 1);
        assert(q.drop_last() =~= p);
        assert(q.last() == cs@[i as int]);
        if cs[i] == '\n' {
            add_collapsed_line(&mut out, &cs, start, i, Ghost(done));
            proof {
                done = done.push(cs@.subrange(start as int, i as int));
            }
            start = i + 1;
            assert(cs@.subrange(start as int, i + 1) =~= Seq::<char>::empty());
        } else {
            proof {
                lemma_split_on_len(p, '\n');
                let prev = split_on(p, '\n');
                assert(prev.len() == done.len() + 1);
                assert(prev.last() == cs@.subrange(start as int, i as int));
                assert(cs@.subrange(start as int, i as int).push(cs@[i as int]) =~= cs@.subrange(
                    start as int,
                    i + 1,
                ));
                assert(prev.update(prev.len() - 1, prev.last().push(cs@[i as int])) =~= done.push(
                    cs@.subrange(start as int, i + 1),
                ));
            }
        }
        i = i + 1;
    }
    assert(cs@.take(cs@.len() as int) =~= cs@);
    add_collapsed_line(&mut out, &cs, start, cs.len(), Ghost(done));
    assert(done.push(cs@.subrange(start as int, cs@.len() as int)) == split_on(cs@, '\n'));
    out
}

/// Appends the piece `cs[lo..hi]`, whitespace collapsed, to the joined
/// collapsed lines of `done`, when it is not blank.
fn add_collapsed_line(
    out: &mut String,
    cs: &Vec<char>,
    lo: usize,
    hi: usize,
    Ghost(done): Ghost<Seq<Seq<char>>>,
)
    requires
        lo <= hi <= cs@.len(),
        old(out)@ == join(collapsed_lines(done), seq!['\n']),
    ensures
        final(out)@ == join(collapsed_lines(done.push(cs@.subrange(lo as int, hi as int))), seq!['\n']),
{
    let ghost piece = cs@.subrange(lo as int, hi as int);
    assert(done.push(piece).drop_last() =~= done);
    assert(done.push(piece).last() == piece);
    let line = collapse_range(cs, lo, hi);
    if !line.as_str().is_empty() {
        proof {
            lemma_collapsed_lines_props(done);
            let kept = collapsed_lines(done);
            assert forall|k: int| 0 <= k < kept.len() implies #[trigger] kept[k].len() > 0 by {}
            lemma_join_empty(kept, seq!['\n']);
            lemma_join_push(kept, seq!['\n'], line@);
        }
        if !out.as_str().is_empty() {
            push_char(out, '\n');
        }
        out.append(line.as_str());
        assert(out@ =~= join(collapsed_lines(done).push(line@), seq!['\n']));
    }
}

/// One event of a markdown parse, as far as text extraction reads it.
pub enum MarkdownEvent {
    /// A text node.
    Text(String),
    /// An inline code node.
    Code(String),
    /// A soft line break.
    SoftBreak,
    /// A hard line break.
    HardBreak,
    /// Any other event: the start or end of an element, HTML, a horizontal
    /// rule, a footnote reference or a task-list marker.
    Other,
}

/// A markdown event as a mathematical value.
pub enum MarkdownEventView {
    Text(Seq<char>),
    Code(Seq<char>),
    SoftBreak,
    HardBreak,
    Other,
}

impl View for MarkdownEvent {
    type V = MarkdownEventView;

    open spec fn view(&self) -> MarkdownEventView {
        match self {
            MarkdownEvent::Text(s) => MarkdownEventView::Text(s@),
            MarkdownEvent::Code(s) => MarkdownEventView::Code(s@),
            MarkdownEvent::SoftBreak => MarkdownEventView::SoftBreak,
            MarkdownEvent::HardBreak => MarkdownEventView::HardBreak,
            MarkdownEvent::Other => MarkdownEventView::Other,
        }
    }
}

/// The markdown extensions a parse enables beyond CommonMark.
#[derive(Clone, Copy)]
pub struct MarkdownOptions {
    pub tables: bool,
    pub footnotes: bool,
    pub strikethrough: bool,
    pub tasklists: bool,
}

/// The events that pulldown-cmark's parser yields for `text` with the given
/// extensions enabled, each as far as text extraction reads it.
pub uninterp spec fn markdown_events(text: Seq<char>, options: MarkdownOptions) -> Seq<MarkdownEventView>;

/// Runs `pulldown_cmark::Parser::new_ext` on `text` with the extensions of
/// `options` and collects its events, keeping the contents of text and code
/// events and turning every other kind of event but line breaks into
/// `Other`. Claimed: the events are `markdown_events(text, options)`, a
/// function of the text and the options alone.
#[verifier::external_body]
fn parse_markdown(text: &str, options: MarkdownOptions) -> (events: Vec<MarkdownEvent>)
    ensures
        events@.map_values(|e: MarkdownEvent| e@) == markdown_events(text@, options),
{
    let mut flags = Options::empty();
    flags.set(Options::ENABLE_TABLES, options.tables);
    flags.set(Options::ENABLE_FOOTNOTES, options.footnotes);
    flags.set(Options::ENABLE_STRIKETHROUGH, options.strikethrough);
    flags.set(Options::ENABLE_TASKLISTS, options.tasklists);
    Parser::new_ext(text, flags).map(|event| match event {
        Event::Text(s) => MarkdownEvent::Text(s.into_string()),
        Event::Code(s) => MarkdownEvent::Code(s.into_string()),
        Event::SoftBreak => MarkdownEvent::SoftBreak,
        Event::HardBreak => MarkdownEvent::HardBreak,
        Event::Start(_) | Event::End(_) | Event::Html(_) | Event::InlineHtml(_) | Event::Rule
        | Event::FootnoteReference(_) | Event::TaskListMarker(_) => MarkdownEvent::Other,
    }).collect()
}

/// The text one event contributes: the contents of text and code events, a
/// space for a line break, nothing for the rest.
pub open spec fn event_text(e: MarkdownEventView) -> Seq<char> {
    match e {
        MarkdownEventView::Text(s) => s,
        MarkdownEventView::Code(s) => s,
        MarkdownEventView::SoftBreak => seq![' '],
        MarkdownEventView::HardBreak => seq![' '],
        MarkdownEventView::Other => seq![],
    }
}

/// The text of a sequence of markdown events, in order.
pub open spec fn events_text(events: Seq<MarkdownEventView>) -> Seq<char>
    decreases events.len(),
{
    if events.len() == 0 {
        seq![]
    } else {
        events_text(events.drop_last()) + event_text(events.last())
    }
}

/// The extensions that markdown stripping enables: strikethrough, tables,
/// footnotes and task lists.
pub open spec fn strip_options() -> MarkdownOptions {
    MarkdownOptions { tables: true, footnotes: true, strikethrough: true, tasklists: true }
}

/// The plain text of a markdown event sequence.
pub fn text_of_markdown_events(events: &Vec<MarkdownEvent>) -> (res: String)
    ensures
        res@ == events_text(events@.map_values(|e: MarkdownEvent| e@)),
{
    let ghost views = events@.map_values(|e: MarkdownEvent| e@);
    let mut out = String::new();
    let mut i: usize = 0;
    while i < events.len()
        invariant
            i <= events@.len(),
            views == events@.map_values(|e: MarkdownEvent| e@),
            out@ == events_text(views.take(i as int)),
        decreases events@.len() - i,
    {
        assert(views.take(i + 1).drop_last() =~= views.take(i as int));
        assert(views.take(i + 1).last() == events@[i as int]@);
        match &events[i] {
            MarkdownEvent::Text(s) => out.append(s.as_str()),
            MarkdownEvent::Code(s) => out.append(s.as_str()),
            MarkdownEvent::SoftBreak => push_char(&mut out, ' '),
            MarkdownEvent::HardBreak => push_char(&mut out, ' '),
            MarkdownEvent::Other => {
                assert(out@ =~= out@ + Seq::<char>::empty());
            },
        }
        i = i + 1;
    }
    assert(views.take(events@.len() as int) =~= views);
    out
}

/// Markdown syntax removed: the text of the events that pulldown-cmark
/// yields with strikethrough, tables, footnotes and task lists enabled.
pub fn strip_markdown(text: String) -> (res: String)
    ensures
        res@ == events_text(markdown_events(text@, strip_options())),
{
    let options = MarkdownOptions { tables: true, footnotes: true, strikethrough: true, tasklists: true };
    let events = parse_markdown(text.as_str(), options);
    text_of_markdown_events(&events)
}

/// Options of text parsing.
#[derive(Clone, Copy)]
pub struct TextParseOptions {
    /// Remove markdown syntax first.
    pub strip_markdown: bool,
    /// Keep line breaks when collapsing whitespace.
    pub preserve_line_breaks: bool,
    /// Collapse runs of whitespace.
    pub collapse_whitespace: bool,
}

impl Default for TextParseOptions {
    /// No markdown stripping, no line breaks kept, whitespace collapsed.
    fn default() -> (o: Self)
        ensures
            !o.strip_markdown,
            !o.preserve_line_breaks,
            o.collapse_whitespace,
    {
        TextParseOptions { strip_markdown: false, preserve_line_breaks: false, collapse_whitespace: true }
    }
}

/// The result of parsing a text file.
pub struct TextParseResult {
    pub success: bool,
    pub text: String,
    /// The length of `text` in UTF-8 bytes, truncated to 32 bits.
    pub char_count: u32,
    /// The number of whitespace-separated words of `text`, truncated to 32 bits.
    pub word_count: u32,
    pub error: Option<String>,
}

/// The length in UTF-8 bytes of `s` as `str::len() as u32` gives it.
pub open spec fn u32_byte_len(s: Seq<char>) -> u32 {
    str_len(s) as u32
}

/// What text processing makes of `text` under `options`: markdown stripped
/// if asked, line endings normalised, then whitespace collapsed (within
/// lines when line breaks are preserved) if asked.
pub open spec fn processed_text(text: Seq<char>, options: TextParseOptions) -> Seq<char> {
    let stripped = if options.strip_markdown {
        events_text(markdown_events(text, strip_options()))
    } else {
        text
    };
    let normalized = normalize_newlines(stripped);
    if options.preserve_line_breaks {
        if options.collapse_whitespace {
            keep_lines(normalized)
        } else {
            normalized
        }
    } else if options.collapse_whitespace {
        collapse_ws(normalized)
    } else {
        normalized
    }
}

/// Processes text under the given options.
pub fn process_text(text: &str, options: &TextParseOptions) -> (res: String)
    ensures
        res@ == processed_text(text@, *options),
{
    let processed = if options.strip_markdown {
        strip_markdown(String::from_str(text))
    } else {
        String::from_str(text)
    };
    let normalized = normalize_line_endings(processed.as_str());
    if options.preserve_line_breaks {
        if options.collapse_whitespace {
            collapse_whitespace_keep_lines(normalized.as_str())
        } else {
            normalized
        }
    } else if options.collapse_whitespace {
        collapse_whitespace(normalized.as_str())
    } else {
        normalized
    }
}

/// Line endings normalised, then whitespace collapsed, within lines when
/// lines are preserved.
pub open spec fn normalized_text(text: Seq<char>, preserve_lines: bool) -> Seq<char> {
    if preserve_lines {
        keep_lines(normalize_newlines(text))
    } else {
        collapse_ws(normalize_newlines(text))
    }
}

/// Line endings normalised, then whitespace collapsed, within lines when
/// `preserve_lines` holds.
pub fn normalize_text(text: String, preserve_lines: bool) -> (res: String)
    ensures
        res@ == normalized_text(text@, preserve_lines),
{
    let normalized = normalize_line_endings(text.as_str());
    if preserve_lines {
        collapse_whitespace_keep_lines(normalized.as_str())
    } else {
        collapse_whitespace(normalized.as_str())
    }
}

/// The number of whitespace-separated words of `text`.
pub fn count_words(text: &str) -> (n: usize)
    ensures
        n == words(text@).len(),
{
    let cs = chars_of(text);
    let mut n: usize = 0;
    let mut prev_in_word = false;
    let mut i: usize = 0;
    while i < cs.len()
        invariant
            i <= cs@.len(),
            n == words(cs@.take(i as int)).len(),
            n <= i,
            prev_in_word == (i > 0 && !is_ws(cs@[i - 1])),
        decreases cs@.len() - i,
    {
        let c = cs[i];
        let ghost p = cs@.take(i as int);
        let ghost q = cs@.take(i + 1);
        assert(q.drop_last() =~= p);
        assert(q.last() == c);
        if is_whitespace(c) {
            prev_in_word = false;
        } else {
            if prev_in_word {
                proof {
                    assert(p.last() == cs@[i - 1]);
                    lemma_words_nonempty(p);
                }
            } else {
                n = n + 1;
            }
            prev_in_word = true;
        }
        i = i + 1;
    }
    assert(cs@.take(cs@.len() as int) =~= cs@);
    n
}

/// Parses the contents of a text file: a missing or unreadable file gives a
/// failed result with its message; otherwise the contents are processed under
/// `options` (or the default options) and counted.
pub fn parse_text_file(read: FileRead, options: Option<TextParseOptions>) -> (res: TextParseResult)
    ensures
        match read {
            FileRead::Missing => {
                &&& !res.success
                &&& res.text@ == Seq::<char>::empty()
                &&& res.char_count == 0 && res.word_count == 0
                &&& res.error matches Some(e) && e@ == "File does not exist"@
            },
            FileRead::Failed(msg) => {
                &&& !res.success
                &&& res.text@ == Seq::<char>::empty()
                &&& res.char_count == 0 && res.word_count == 0
                &&& res.error matches Some(e) && e@ == "Failed to read file: "@ + msg@
            },
            FileRead::Contents(content) => {
                &&& res.success
                &&& res.text@ == processed_text(content@, match options {
                    Some(o) => o,
                    None => TextParseOptions { strip_markdown: false, preserve_line_breaks: false, collapse_whitespace: true },
                })
                &&& res.char_count == u32_byte_len(res.text@)
                &&& res.word_count == words(res.text@).len() as u32
                &&& res.error is None
            },
        },
{
    match read {
        FileRead::Missing => TextParseResult {
            success: false,
            text: String::new(),
            char_count: 0,
            word_count: 0,
            error: Some(String::from_str("File does not exist")),
        },
        FileRead::Failed(msg) => {
            let mut error = String::from_str("Failed to read file: ");
            error.append(msg.as_str());
            TextParseResult { success: false, text: String::new(), char_count: 0, word_count: 0, error: Some(error) }
        },
        FileRead::Contents(content) => {
            let options = match options {
                Some(o) => o,
                None => TextParseOptions::default(),
            };
            let text = process_text(content.as_str(), &options);
            let char_count = #[verifier::truncate] (text.as_str().len() as u32);
            let word_count = #[verifier::truncate] (count_words(text.as_str()) as u32);
            TextParseResult { success: true, text, char_count, word_count, error: None }
        },
    }
}

/// Counts of a text: what its statistics are computed from.
pub struct TextCounts {
    /// The UTF-8 length of the text, truncated to 32 bits.
    pub char_count: u32,
    /// The number of whitespace-separated words, truncated to 32 bits.
    pub word_count: u32,
    /// The number of lines, truncated to 32 bits.
    pub line_count: u32,
    /// The summed UTF-8 length of the words.
    pub word_bytes: u128,
}

/// The counts of `text`.
pub fn count_text(text: &str) -> (res: TextCounts)
    ensures
        res.char_count == u32_byte_len(text@),
        res.word_count == words(text@).len() as u32,
        res.line_count == line_count(text@) as u32,
        res.word_bytes == total_bytes(words(text@)),
{
    let cs = chars_of(text);
    let mut n_words: usize = 0;
    let mut n_newlines: usize = 0;
    let mut bytes: u128 = 0;
    let mut prev_in_word = false;
    let mut i: usize = 0;
    while i < cs.len()
        invariant
            i <= cs@.len(),
            n_words == words(cs@.take(i as int)).len(),
            n_words <= i,
            n_newlines == count_newlines(cs@.take(i as int)),
            n_newlines <= i,
            i > 0 && cs@[i - 1] != '\n' ==> n_newlines < i,
            bytes == total_bytes(words(cs@.take(i as int))),
            bytes <= 4 * i,
            prev_in_word == (i > 0 && !is_ws(cs@[i - 1])),
        decreases cs@.len() - i,
    {
        let c = cs[i];
        let ghost p = cs@.take(i as int);
        let ghost q = cs@.take(i + 1);
        assert(q.drop_last() =~= p);
        assert(q.last() == c);
        if c == '\n' {
            n_newlines = n_newlines + 1;
        }
        if is_whitespace(c) {
            prev_in_word = false;
        } else {
            let width = utf8_width(c);
            if prev_in_word {
                proof {
                    assert(p.last() == cs@[i - 1]);
                    lemma_words_nonempty(p);
                    let ws = words(p);
                    let ws2 = ws.update(ws.len() - 1, ws.last().push(c));
                    assert(ws2.drop_last() =~= ws.drop_last());
                    lemma_encode_push(ws.last(), c);
                }
            } else {
                n_words = n_words + 1;
                proof {
                    let ws = words(p);
                    assert(ws.push(seq![c]).drop_last() =~= ws);
                    lemma_encode_push(Seq::<char>::empty(), c);
                    assert(Seq::<char>::empty().push(c) =~= seq![c]);
                }
            }
            bytes = bytes + width as u128;
            prev_in_word = true;
        }
        i = i + 1;
    }
    assert(cs@.take(cs@.len() as int) =~= cs@);
    let mut n_lines = n_newlines;
    if cs.len() > 0 && cs[cs.len() - 1] != '\n' {
        n_lines = n_lines + 1;
    }
    TextCounts {
        char_count: #[verifier::truncate] (text.len() as u32),
        word_count: #[verifier::truncate] (n_words as u32),
        line_count: #[verifier::truncate] (n_lines as u32),
        word_bytes: bytes,
    }
}

/// Collapsing whitespace keeps the words of a text.
pub proof fn collapse_keeps_words(s: Seq<char>)
    ensures
        words(collapse_ws(s)) == words(s),
{
    lemma_collapse_idempotent(s);
}

/// Collapsing whitespace twice is collapsing it once.
pub proof fn collapse_whitespace_idempotent(s: Seq<char>)
    ensures
        collapse_ws(collapse_ws(s)) == collapse_ws(s),
{
    lemma_collapse_idempotent(s);
}

/// Normalised line endings hold no carriage return, and normalising them
/// again changes nothing.
pub proof fn normalize_line_endings_idempotent(s: Seq<char>)
    ensures
        avoids(normalize_newlines(s), '\r'),
        normalize_newlines(normalize_newlines(s)) == normalize_newlines(s),
{
    lemma_normalize_identity(normalize_newlines(s));
}

/// Text with whitespace collapsed and line breaks kept holds no carriage
/// return.
proof fn lemma_keep_lines_avoids_cr(s: Seq<char>)
    ensures
        avoids(keep_lines(s), '\r'),
{
    let kept = collapsed_lines(split_on(s, '\n'));
    lemma_collapsed_lines_props(split_on(s, '\n'));
    assert forall|k: int| 0 <= k < kept.len() implies avoids(#[trigger] kept[k], '\r') by {}
    assert(avoids(seq!['\n'], '\r'));
    lemma_join_avoids(kept, seq!['\n'], '\r');
}

/// Collapsing whitespace with line breaks kept, twice, is doing it once.
pub proof fn keep_lines_idempotent(s: Seq<char>)
    ensures
        keep_lines(keep_lines(s)) == keep_lines(s),
{
    let kept = collapsed_lines(split_on(s, '\n'));
    lemma_collapsed_lines_props(split_on(s, '\n'));
    if kept.len() == 0 {
        let e = Seq::<char>::empty();
        assert(keep_lines(s) =~= e);
        assert(split_on(e, '\n') =~= seq![e]);
        assert(seq![e].drop_last() =~= Seq::<Seq<char>>::empty());
        assert(seq![e].last() == e);
        assert(words(e) =~= Seq::<Seq<char>>::empty());
        assert(collapse_ws(e) =~= e);
        assert(collapsed_lines(Seq::<Seq<char>>::empty()) =~= Seq::<Seq<char>>::empty());
        assert(collapsed_lines(seq![e]) =~= Seq::<Seq<char>>::empty());
    } else {
        assert forall|k: int| 0 <= k < kept.len() implies avoids(#[trigger] kept[k], '\n') by {}
        lemma_split_of_join(kept, '\n');
        assert forall|k: int| 0 <= k < kept.len() implies #[trigger] kept[k].len() > 0 && collapse_ws(kept[k]) == kept[k] by {}
        lemma_collapsed_lines_fixed(kept);
    }
}

/// Normalising text twice is normalising it once, whether lines are
/// preserved or not.
pub proof fn normalize_text_idempotent(s: Seq<char>, preserve_lines: bool)
    ensures
        normalized_text(normalized_text(s, preserve_lines), preserve_lines) == normalized_text(s, preserve_lines),
{
    let n = normalize_newlines(s);
    if preserve_lines {
        lemma_keep_lines_avoids_cr(n);
        lemma_normalize_identity(keep_lines(n));
        keep_lines_idempotent(n);
    } else {
        lemma_collapse_avoids_ws(n, '\r');
        lemma_normalize_identity(collapse_ws(n));
        lemma_collapse_idempotent(n);
    }
}

/// Markdown is stripped with all four extensions on: tables, footnotes,
/// strikethrough and task lists.
pub proof fn strip_markdown_enables_all_extensions()
    ensures
        strip_options().tables,
        strip_options().footnotes,
        strip_options().strikethrough,
        strip_options().tasklists,
{
}

/// When markdown stripping is asked for, text processing is stripping the
/// markdown first and then processing the stripped text without it, whatever
/// the other options are.
pub proof fn stripping_comes_first(text: Seq<char>, options: TextParseOptions)
    requires
        options.strip_markdown,
    ensures
        processed_text(text, options) == processed_text(
            events_text(markdown_events(text, strip_options())),
            TextParseOptions {
                strip_markdown: false,
                preserve_line_breaks: options.preserve_line_breaks,
                collapse_whitespace: options.collapse_whitespace,
            },
        ),
{
}

/// The `'\n'` characters of a concatenation are those of its parts.
proof fn lemma_count_newlines_concat(a: Seq<char>, b: Seq<char>)
    ensures
        count_newlines(a + b) == count_newlines(a) + count_newlines(b),
    decreases b.len(),
{
    if b.len() == 0 {
        assert(a + b =~= a);
    } else {
        lemma_count_newlines_concat(a, b.drop_last());
        assert((a + b).drop_last() =~= a + b.drop_last());
        assert((a + b).last() == b.last());
    }
}

/// There is one more piece between `'\n'` separators than there are
/// `'\n'` characters.
proof fn lemma_pieces_count_newlines(s: Seq<char>)
    ensures
        split_on(s, '\n').len() == count_newlines(s) + 1,
    decreases s.len(),
{
    if s.len() > 0 {
        lemma_pieces_count_newlines(s.drop_last());
        lemma_split_on_len(s.drop_last(), '\n');
    }
}

/// The line count is the number of pieces between `'\n'` separators, less
/// the empty piece after a final `'\n'`; an empty text has no lines.
pub proof fn line_count_counts_pieces(s: Seq<char>)
    ensures
        line_count(s) == if s.len() == 0 {
            0
        } else if s.last() == '\n' {
            split_on(s, '\n').len() - 1
        } else {
            split_on(s, '\n').len() as int
        },
{
    lemma_pieces_count_newlines(s);
}

/// A `'\r'` before `'\n'` is part of the line ending: it adds no line.
pub proof fn crlf_is_one_line_break(a: Seq<char>, b: Seq<char>)
    ensures
        line_count(a + seq!['\r', '\n'] + b) == line_count(a + seq!['\n'] + b),
{
    let x = a + seq!['\r', '\n'] + b;
    let y = a + seq!['\n'] + b;
    lemma_count_newlines_concat(a + seq!['\r', '\n'], b);
    lemma_count_newlines_concat(a, seq!['\r', '\n']);
    lemma_count_newlines_concat(a + seq!['\n'], b);
    lemma_count_newlines_concat(a, seq!['\n']);
    assert(seq!['\r', '\n'].drop_last() =~= seq!['\r']);
    assert(seq!['\r'].drop_last() =~= Seq::<char>::empty());
    assert(seq!['\n'].drop_last() =~= Seq::<char>::empty());
    assert(count_newlines(Seq::<char>::empty()) == 0);
    assert(seq!['\r'].last() == '\r');
    assert(seq!['\r', '\n'].last() == '\n');
    assert(seq!['\n'].last() == '\n');
    assert(count_newlines(seq!['\r']) == 0);
    assert(count_newlines(seq!['\r', '\n']) == 1);
    assert(count_newlines(seq!['\n']) == 1);
    if b.len() == 0 {
        assert(x.last() == '\n');
        assert(y.last() == '\n');
    } else {
        assert(x.last() == b.last());
        assert(y.last() == b.last());
    }
}

} // verus!
