//! Routing of documents to parsers by file extension, and the document
//! parse result.

use vstd::prelude::*;
use vstd::string::StringExecFns;
use crate::text::{chars_of, push_char, same_chars, split_on, string_from_range};

verus! {

/// The components of a path that name something: the pieces between `'/'`
/// separators that are neither empty nor `"."`.
pub open spec fn named_components(pieces: Seq<Seq<char>>) -> Seq<Seq<char>>
    decreases pieces.len(),
{
    if pieces.len() == 0 {
        seq![]
    } else {
        let prev = named_components(pieces.drop_last());
        let last = pieces.last();
        if last.len() == 0 || last == seq!['.'] {
            prev
        } else {
            prev.push(last)
        }
    }
}

/// The final component of a path when it is a file or directory name
/// (`Path::file_name`): `None` for an empty path, a root, `"."` or a path
/// ending in `".."`.
pub open spec fn file_name(path: Seq<char>) -> Option<Seq<char>> {
    let comps = named_components(split_on(path, '/'));
    if comps.len() == 0 || comps.last() == seq!['.', '.'] {
        None
    } else {
        Some(comps.last())
    }
}

/// The index of the last `c` in `s`, or -1.
pub open spec fn last_index_of(s: Seq<char>, c: char) -> int
    decreases s.len(),
{
    if s.len() == 0 {
        -1
    } else if s.last() == c {
        s.len() - 1
    } else {
        last_index_of(s.drop_last(), c)
    }
}

/// The extension of a file name (`Path::extension`): what follows its last
/// `'.'`, unless it has none, its only dot leads it, or it is `".."`.
pub open spec fn name_extension(name: Seq<char>) -> Option<Seq<char>> {
    let k = last_index_of(name, '.');
    if name == seq!['.', '.'] || k <= 0 {
        None
    } else {
        Some(name.subrange(k + 1, name.len() as int))
    }
}

/// The file name of a path, empty when it has none.
pub open spec fn path_file_name(path: Seq<char>) -> Seq<char> {
    match file_name(path) {
        Some(n) => n,
        None => seq![],
    }
}

/// The extension of a path, empty when it has none.
pub open spec fn path_extension(path: Seq<char>) -> Seq<char> {
    match file_name(path) {
        Some(n) => match name_extension(n) {
            Some(e) => e,
            None => seq![],
        },
        None => seq![],
    }
}

/// `last` updated with the piece `cs[start..end]` that ends the pieces
/// `done`.
fn note_piece(cs: &Vec<char>, start: usize, end: usize, last: Option<(usize, usize)>, Ghost(done): Ghost<Seq<Seq<char>>>) -> (r: Option<(usize, usize)>)
    requires
        start <= end <= cs@.len(),
        match last {
            Some((a, b)) => a <= b <= cs@.len() && named_components(done).len() > 0
                && named_components(done).last() == cs@.subrange(a as int, b as int),
            None => named_components(done).len() == 0,
        },
    ensures
        match r {
            Some((a, b)) => {
                let named = named_components(done.push(cs@.subrange(start as int, end as int)));
                a <= b <= cs@.len() && named.len() > 0 && named.last() == cs@.subrange(a as int, b as int)
            },
            None => named_components(done.push(cs@.subrange(start as int, end as int))).len() == 0,
        },
{
    let ghost piece = cs@.subrange(start as int, end as int);
    assert(done.push(piece).drop_last() =~= done);
    let is_dot = end - start == 1 && cs[start] == '.';
    proof {
        if end - start == 1 {
            assert(piece =~= seq![cs@[start as int]]);
        }
        if end > start && !is_dot {
            if piece == seq!['.'] {
                assert(piece.len() == 1);
                assert(piece[0] == cs@[start as int]);
                assert(seq!['.'][0] == '.');
            }
        }
    }
    if end > start && !is_dot {
        Some((start, end))
    } else {
        last
    }
}

/// The bounds of the last named component of `cs`, when it has one.
fn last_named_component(cs: &Vec<char>) -> (r: Option<(usize, usize)>)
    ensures
        match r {
            Some((a, b)) => {
                &&& a <= b <= cs@.len()
                &&& named_components(split_on(cs@, '/')).len() > 0
                &&& named_components(split_on(cs@, '/')).last() == cs@.subrange(a as int, b as int)
            },
            None => named_components(split_on(cs@, '/')).len() == 0,
        },
{
    let mut last: Option<(usize, usize)> = None;
    let mut start: usize = 0;
    let mut i: usize = 0;
    let ghost mut done: Seq<Seq<char>> = seq![];
    assert(cs@.take(0) =~= Seq::<char>::empty());
    assert(split_on(cs@.take(0), '/') =~= done.push(cs@.subrange(0, 0)));
    while i < cs.len()
        invariant
            start <= i <= cs@.len(),
            split_on(cs@.take(i as int), '/') == done.push(cs@.subrange(start as int, i as int)),
            match last {
                Some((a, b)) => a <= b <= cs@.len() && named_components(done).len() > 0
                    && named_components(done).last() == cs@.subrange(a as int, b as int),
                None => named_components(done).len() == 0,
            },
        decreases cs@.len() - i,
    {
        let ghost p = cs@.take(i as int);
        let ghost q = cs@.take(i + 1);
        assert(q.drop_last() =~= p);
        assert(q.last() == cs@[i as int]);
        if cs[i] == '/' {
            last = note_piece(cs, start, i, last, Ghost(done));
            proof {
                done = done.push(cs@.subrange(start as int, i as int));
            }
            start = i + 1;
            assert(cs@.subrange(start as int, i + 1) =~= Seq::<char>::empty());
        } else {
            proof {
                crate::text::lemma_split_on_len(p, '/');
                let prev = split_on(p, '/');
                assert(prev.len() == done.len() + 1);
                assert(cs@.subrange(start as int, i as int).push(cs@[i as int]) =~= cs@.subrange(
                    start as int,
                    i + 1,
                ));
                assert(prev.update(prev.len() - 1, prev.last().push(cs@[i as int])) =~= done.push(
                    cs@.subrange(start as int, i + 1),
                ));
            }
        }
        i = i + 1;
    }
    assert(cs@.take(cs@.len() as int) =~= cs@);
    note_piece(cs, start, cs.len(), last, Ghost(done))
}

/// The file name and the extension of a path, each empty when it has none.
pub fn path_name_and_extension(path: &str) -> (r: (String, String))
    ensures
        r.0@ == path_file_name(path@),
        r.1@ == path_extension(path@),
{
    let cs = chars_of(path);
    match last_named_component(&cs) {
        None => (String::new(), String::new()),
        Some((a, b)) => {
            let ghost name = cs@.subrange(a as int, b as int);
            if b - a == 2 && cs[a] == '.' && cs[a + 1] == '.' {
                assert(name =~= seq!['.', '.']);
                return (String::new(), String::new());
            }
            assert(name != seq!['.', '.']) by {
                if name.len() == 2 {
                    assert(name[0] == cs@[a as int] && name[1] == cs@[a + 1]);
                }
            }
            let file = string_from_range(&cs, a, b);
            let mut k = b;
            while k > a && cs[k - 1] != '.'
                invariant
                    a <= k <= b <= cs@.len(),
                    name == cs@.subrange(a as int, b as int),
                    last_index_of(name, '.') == last_index_of(cs@.subrange(a as int, k as int), '.'),
                decreases k - a,
            {
                assert(cs@.subrange(a as int, k as int).drop_last() =~= cs@.subrange(a as int, k - 1));
                k = k - 1;
            }
            if k - a <= 1 {
                (file, String::new())
            } else {
                assert(cs@.subrange(a as int, b as int).subrange(k - a, b - a) =~= cs@.subrange(
                    k as int,
                    b as int,
                ));
                (file, string_from_range(&cs, k, b))
            }
        },
    }
}

/// The lowercase form of `s` as `str::to_lowercase` computes it (the Unicode
/// lowercase mapping).
pub uninterp spec fn lowercase(s: Seq<char>) -> Seq<char>;

/// Calls `str::to_lowercase`. Claimed: the result is `lowercase(s)`, a
/// function of `s` alone.
#[verifier::external_body]
fn to_lowercase(s: &str) -> (res: String)
    ensures
        res@ == lowercase(s@),
{
    s.to_lowercase()
}

/// The kinds of document there is a parser for.
#[derive(Clone, Copy)]
pub enum DocumentKind {
    Pdf,
    Epub,
    Html,
    Text,
    Image,
}

/// The lowercased extension of a path, by which documents are routed.
pub open spec fn document_extension(path: Seq<char>) -> Seq<char> {
    lowercase(path_extension(path))
}

/// The kind of document a (lowercased) extension names, if any.
pub open spec fn extension_kind(ext: Seq<char>) -> Option<DocumentKind> {
    if ext == seq!['p', 'd', 'f'] {
        Some(DocumentKind::Pdf)
    } else if ext == seq!['e', 'p', 'u', 'b'] {
        Some(DocumentKind::Epub)
    } else if ext == seq!['h', 't', 'm', 'l'] || ext == seq!['h', 't', 'm'] {
        Some(DocumentKind::Html)
    } else if ext == seq!['t', 'x', 't'] || ext == seq!['m', 'd'] || ext == seq![
        'm',
        'a',
        'r',
        'k',
        'd',
        'o',
        'w',
        'n',
    ] || ext == seq!['r', 't', 'f'] {
        Some(DocumentKind::Text)
    } else if ext == seq!['j', 'p', 'g'] || ext == seq!['j', 'p', 'e', 'g'] || ext == seq![
        'p',
        'n',
        'g',
    ] || ext == seq!['g', 'i', 'f'] || ext == seq!['b', 'm', 'p'] || ext == seq![
        't',
        'i',
        'f',
        'f',
    ] || ext == seq!['w', 'e', 'b', 'p'] {
        Some(DocumentKind::Image)
    } else {
        None
    }
}

/// The supported extensions, in the order they are listed.
pub open spec fn supported_extensions() -> Seq<Seq<char>> {
    seq![
        seq!['p', 'd', 'f'],
        seq!['e', 'p', 'u', 'b'],
        seq!['h', 't', 'm', 'l'],
        seq!['h', 't', 'm'],
        seq!['t', 'x', 't'],
        seq!['m', 'd'],
        seq!['m', 'a', 'r', 'k', 'd', 'o', 'w', 'n'],
        seq!['r', 't', 'f'],
        seq!['j', 'p', 'g'],
        seq!['j', 'p', 'e', 'g'],
        seq!['p', 'n', 'g'],
        seq!['g', 'i', 'f'],
        seq!['b', 'm', 'p'],
        seq!['t', 'i', 'f', 'f'],
        seq!['w', 'e', 'b', 'p'],
    ]
}

/// An extension with its leading dot.
pub open spec fn dotted(ext: Seq<char>) -> Seq<char> {
    seq!['.'] + ext
}

/// The kind of document a (lowercased) extension names, if any.
pub fn kind_of_extension(extension: &str) -> (res: Option<DocumentKind>)
    ensures
        res == extension_kind(extension@),
{
    let ext = &chars_of(extension);
    if same_chars(ext, &['p', 'd', 'f']) {
        Some(DocumentKind::Pdf)
    } else if same_chars(ext, &['e', 'p', 'u', 'b']) {
        Some(DocumentKind::Epub)
    } else if same_chars(ext, &['h', 't', 'm', 'l']) || same_chars(ext, &['h', 't', 'm']) {
        Some(DocumentKind::Html)
    } else if same_chars(ext, &['t', 'x', 't']) || same_chars(ext, &['m', 'd']) || same_chars(
        ext,
        &['m', 'a', 'r', 'k', 'd', 'o', 'w', 'n'],
    ) || same_chars(ext, &['r', 't', 'f']) {
        Some(DocumentKind::Text)
    } else if same_chars(ext, &['j', 'p', 'g']) || same_chars(ext, &['j', 'p', 'e', 'g'])
        || same_chars(ext, &['p', 'n', 'g']) || same_chars(ext, &['g', 'i', 'f']) || same_chars(
        ext,
        &['b', 'm', 'p'],
    ) || same_chars(ext, &['t', 'i', 'f', 'f']) || same_chars(ext, &['w', 'e', 'b', 'p']) {
        Some(DocumentKind::Image)
    } else {
        None
    }
}

/// The file name and the lowercased extension of a path, and the kind of
/// document the extension names.
fn route(path: &str) -> (r: (String, String, Option<DocumentKind>))
    ensures
        r.0@ == path_file_name(path@),
        r.1@ == document_extension(path@),
        r.2 == extension_kind(document_extension(path@)),
{
    let (file_name, extension) = path_name_and_extension(path);
    let lower = to_lowercase(extension.as_str());
    let kind = kind_of_extension(lower.as_str());
    (file_name, lower, kind)
}

/// Whether a path has an extension that some parser handles (compared
/// without regard to case).
pub fn is_supported_extension(path: String) -> (res: bool)
    ensures
        res == (extension_kind(document_extension(path@)) is Some),
{
    let (_, _, kind) = route(path.as_str());
    kind.is_some()
}

/// `"."` followed by `name`.
fn dotted_string(name: &[char]) -> (res: String)
    ensures
        res@ == dotted(name@),
{
    let mut s = String::new();
    push_char(&mut s, '.');
    let mut i: usize = 0;
    while i < name.len()
        invariant
            i <= name@.len(),
            s@ == dotted(name@.take(i as int)),
        decreases name@.len() - i,
    {
        push_char(&mut s, name[i]);
        assert(dotted(name@.take(i + 1)) =~= dotted(name@.take(i as int)).push(name@[i as int]));
        i = i + 1;
    }
    assert(name@.take(name@.len() as int) =~= name@);
    s
}

/// The supported extensions, each with its leading dot.
pub fn get_supported_extensions() -> (res: Vec<String>)
    ensures
        res@.map_values(|s: String| s@) == supported_extensions().map_values(|e: Seq<char>| dotted(e)),
{
    let mut v: Vec<String> = Vec::new();
    v.push(dotted_string(&['p', 'd', 'f']));
    v.push(dotted_string(&['e', 'p', 'u', 'b']));
    v.push(dotted_string(&['h', 't', 'm', 'l']));
    v.push(dotted_string(&['h', 't', 'm']));
    v.push(dotted_string(&['t', 'x', 't']));
    v.push(dotted_string(&['m', 'd']));
    v.push(dotted_string(&['m', 'a', 'r', 'k', 'd', 'o', 'w', 'n']));
    v.push(dotted_string(&['r', 't', 'f']));
    v.push(dotted_string(&['j', 'p', 'g']));
    v.push(dotted_string(&['j', 'p', 'e', 'g']));
    v.push(dotted_string(&['p', 'n', 'g']));
    v.push(dotted_string(&['g', 'i', 'f']));
    v.push(dotted_string(&['b', 'm', 'p']));
    v.push(dotted_string(&['t', 'i', 'f', 'f']));
    v.push(dotted_string(&['w', 'e', 'b', 'p']));
    assert(v@.map_values(|s: String| s@) =~= supported_extensions().map_values(|e: Seq<char>| dotted(e)));
    v
}

/// An extension names a kind of document exactly when it is one of the
/// supported extensions.
pub proof fn lemma_kind_iff_supported(ext: Seq<char>)
    ensures
        (extension_kind(ext) is Some) == supported_extensions().contains(ext),
{
    let names = supported_extensions();
    if extension_kind(ext) is Some {
        if ext == names[0] {
        } else if ext == names[1] {
        } else if ext == names[2] {
        } else if ext == names[3] {
        } else if ext == names[4] {
        } else if ext == names[5] {
        } else if ext == names[6] {
        } else if ext == names[7] {
        } else if ext == names[8] {
        } else if ext == names[9] {
        } else if ext == names[10] {
        } else if ext == names[11] {
        } else if ext == names[12] {
        } else if ext == names[13] {
        } else {
            assert(ext == names[14]);
        }
    }
    if names.contains(ext) {
        let i = choose|i: int| 0 <= i < names.len() && names[i] == ext;
        assert(0 <= i < 15);
        if i == 0 {
        } else if i == 1 {
        } else if i == 2 {
        } else if i == 3 {
        } else if i == 4 {
        } else if i == 5 {
        } else if i == 6 {
        } else if i == 7 {
        } else if i == 8 {
        } else if i == 9 {
        } else if i == 10 {
        } else if i == 11 {
        } else if i == 12 {
        } else if i == 13 {
        } else {
        }
    }
}

/// A path is supported exactly when its lowercased extension, with a
/// leading dot, is among the supported extensions that are listed.
pub proof fn supported_extension_is_listed(path: Seq<char>)
    ensures
        (extension_kind(document_extension(path)) is Some) == supported_extensions().map_values(
            |e: Seq<char>| dotted(e),
        ).contains(dotted(document_extension(path))),
{
    let ext = document_extension(path);
    let listed = supported_extensions().map_values(|e: Seq<char>| dotted(e));
    lemma_kind_iff_supported(ext);
    if supported_extensions().contains(ext) {
        let i = choose|i: int| 0 <= i < supported_extensions().len() && supported_extensions()[i] == ext;
        assert(listed[i] == dotted(ext));
    }
    if listed.contains(dotted(ext)) {
        let i = choose|i: int| 0 <= i < listed.len() && listed[i] == dotted(ext);
        let e = supported_extensions()[i];
        assert(dotted(e).drop_first() =~= e);
        assert(dotted(ext).drop_first() =~= ext);
        assert(supported_extensions()[i] == ext);
    }
}

/// The result of parsing a document of any kind.
pub struct DocumentParseResult {
    /// Whether text was extracted: the text is not empty and there is no error.
    pub success: bool,
    pub text: String,
    pub file_path: String,
    pub file_name: String,
    /// The lowercased extension.
    pub extension: String,
    pub error: Option<String>,
}

/// What the parser of a document's kind reported.
pub struct ParserOutcome {
    pub success: bool,
    pub text: String,
    pub error: Option<String>,
}

/// How to go on with a document.
pub enum DocumentPlan {
    /// Nothing to parse: this is the result.
    Finished(DocumentParseResult),
    /// Run the parser for this kind of document, then complete the result.
    Parse(DocumentKind),
}

/// Whether `kind` is `Image`.
pub open spec fn is_image(kind: DocumentKind) -> bool {
    kind is Image
}

/// A failed result for `path` with the given name, extension and error.
fn failed_document(path: String, file_name: String, extension: String, error: &str) -> (res: DocumentParseResult)
    ensures
        !res.success,
        res.text@ == Seq::<char>::empty(),
        res.file_path == path,
        res.file_name == file_name,
        res.extension == extension,
        res.error matches Some(e) && e@ == error@,
{
    DocumentParseResult {
        success: false,
        text: String::new(),
        file_path: path,
        file_name,
        extension,
        error: Some(String::from_str(error)),
    }
}

/// The first step of parsing the document at `path`: a missing file ends
/// with an error and no name or extension; an extension that no parser
/// handles, or an image while OCR is disabled, ends with an error; otherwise
/// the parser for the extension's kind is to run.
pub fn plan_document(path: String, file_exists: bool, enable_ocr: bool) -> (plan: DocumentPlan)
    ensures
        !file_exists ==> (plan matches DocumentPlan::Finished(r) && !r.success && r.text@
            == Seq::<char>::empty() && r.file_path == path && r.file_name@ == Seq::<char>::empty()
            && r.extension@ == Seq::<char>::empty() && (r.error matches Some(e) && e@
            == "File does not exist"@)),
        file_exists ==> match extension_kind(document_extension(path@)) {
            Some(kind) => if is_image(kind) && !enable_ocr {
                plan matches DocumentPlan::Finished(r) && !r.success && r.text@
                    == Seq::<char>::empty() && r.file_path == path && r.file_name@ == path_file_name(path@)
                    && r.extension@ == document_extension(path@) && (r.error matches Some(e) && e@
                    == "OCR is disabled"@)
            } else {
                plan == DocumentPlan::Parse(kind)
            },
            None => plan matches DocumentPlan::Finished(r) && !r.success && r.text@
                == Seq::<char>::empty() && r.file_path == path && r.file_name@ == path_file_name(path@)
                && r.extension@ == document_extension(path@) && (r.error matches Some(e) && e@
                == "Unsupported file type"@),
        },
{
    if !file_exists {
        return DocumentPlan::Finished(failed_document(path, String::new(), String::new(), "File does not exist"));
    }
    let (file_name, extension, kind) = route(path.as_str());
    match kind {
        Some(DocumentKind::Image) => {
            if enable_ocr {
                DocumentPlan::Parse(DocumentKind::Image)
            } else {
                DocumentPlan::Finished(failed_document(path, file_name, extension, "OCR is disabled"))
            }
        },
        Some(k) => DocumentPlan::Parse(k),
        None => DocumentPlan::Finished(failed_document(path, file_name, extension, "Unsupported file type")),
    }
}

/// The result of parsing the document at `path` with the parser for `kind`:
/// the parser's text when it succeeded; otherwise no text and the parser's
/// error, or for an EPUB file a note that another parser is needed. The
/// result is a success when its text is not empty and it has no error.
pub fn complete_document(path: String, kind: DocumentKind, outcome: ParserOutcome) -> (res: DocumentParseResult)
    ensures
        res.file_path == path,
        res.file_name@ == path_file_name(path@),
        res.extension@ == document_extension(path@),
        outcome.success ==> res.text == outcome.text && res.error is None,
        !outcome.success ==> res.text@ == Seq::<char>::empty() && if kind is Epub {
            res.error matches Some(e) && e@ == "EPUB parsing requires TypeScript fallback"@
        } else {
            res.error == outcome.error
        },
        res.success == (res.text@.len() > 0 && res.error is None),
{
    let (file_name, extension, _) = route(path.as_str());
    let (text, error) = if outcome.success {
        (outcome.text, None)
    } else {
        match kind {
            DocumentKind::Epub => (String::new(), Some(String::from_str("EPUB parsing requires TypeScript fallback"))),
            _ => (String::new(), outcome.error),
        }
    };
    let success = !text.as_str().is_empty() && error.is_none();
    DocumentParseResult { success, text, file_path: path, file_name, extension, error }
}

/// Each supported extension routes to the parser for its kind: PDF, EPUB,
/// HTML (`html`, `htm`), text (`txt`, `md`, `markdown`, `rtf`) and images
/// (`jpg`, `jpeg`, `png`, `gif`, `bmp`, `tiff`, `webp`).
pub proof fn extensions_route_to_their_kinds()
    ensures
        extension_kind(seq!['p', 'd', 'f']) == Some(DocumentKind::Pdf),
        extension_kind(seq!['e', 'p', 'u', 'b']) == Some(DocumentKind::Epub),
        extension_kind(seq!['h', 't', 'm', 'l']) == Some(DocumentKind::Html),
        extension_kind(seq!['h', 't', 'm']) == Some(DocumentKind::Html),
        extension_kind(seq!['t', 'x', 't']) == Some(DocumentKind::Text),
        extension_kind(seq!['m', 'd']) == Some(DocumentKind::Text),
        extension_kind(seq!['m', 'a', 'r', 'k', 'd', 'o', 'w', 'n']) == Some(DocumentKind::Text),
        extension_kind(seq!['r', 't', 'f']) == Some(DocumentKind::Text),
        extension_kind(seq!['j', 'p', 'g']) == Some(DocumentKind::Image),
        extension_kind(seq!['j', 'p', 'e', 'g']) == Some(DocumentKind::Image),
        extension_kind(seq!['p', 'n', 'g']) == Some(DocumentKind::Image),
        extension_kind(seq!['g', 'i', 'f']) == Some(DocumentKind::Image),
        extension_kind(seq!['b', 'm', 'p']) == Some(DocumentKind::Image),
        extension_kind(seq!['t', 'i', 'f', 'f']) == Some(DocumentKind::Image),
        extension_kind(seq!['w', 'e', 'b', 'p']) == Some(DocumentKind::Image),
{
}

} // verus!
