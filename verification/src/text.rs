//! Character-level specifications and helpers shared by the parsers:
//! Unicode whitespace, words, trimming, joining and line splitting.

use vstd::prelude::*;
use vstd::utf8::{encode_scalar, encode_utf8};

verus! {

/// The Unicode `White_Space` property, which is what `char::is_whitespace`
/// (and hence `str::split_whitespace`, `str::trim`) test.
pub open spec fn is_ws(c: char) -> bool {
    ||| ('\u{9}' <= c && c <= '\u{d}')
    ||| c == ' '
    ||| c == '\u{85}'
    ||| c == '\u{a0}'
    ||| c == '\u{1680}'
    ||| ('\u{2000}' <= c && c <= '\u{200a}')
    ||| c == '\u{2028}'
    ||| c == '\u{2029}'
    ||| c == '\u{202f}'
    ||| c == '\u{205f}'
    ||| c == '\u{3000}'
}

/// Executable whitespace test.
pub fn is_whitespace(c: char) -> (res: bool)
    ensures
        res == is_ws(c),
{
    ('\u{9}' <= c && c <= '\u{d}') || c == ' ' || c == '\u{85}' || c == '\u{a0}' || c
        == '\u{1680}' || ('\u{2000}' <= c && c <= '\u{200a}') || c == '\u{2028}' || c
        == '\u{2029}' || c == '\u{202f}' || c == '\u{205f}' || c == '\u{3000}'
}

/// `String::push`: appends one character.
#[verifier::external_body]
pub(crate) fn push_char(s: &mut String, c: char)
    ensures
        final(s)@ == old(s)@.push(c),
{
    s.push(c)
}

/// The characters of a string slice, in order.
pub fn chars_of(s: &str) -> (v: Vec<char>)
    ensures
        v@ == s@,
{
    let mut v: Vec<char> = Vec::new();
    for c in it: s.chars()
        invariant
            v@ == it.seq().take(it.index()),
    {
        v.push(c);
    }
    v
}


/// The words of `s`, in order: its maximal runs of non-whitespace characters
/// (what `str::split_whitespace` yields). Defined by extending `s` one
/// character at a time.
pub open spec fn words(s: Seq<char>) -> Seq<Seq<char>>
    decreases s.len(),
{
    if s.len() == 0 {
        seq![]
    } else {
        let prev = words(s.drop_last());
        let c = s.last();
        if is_ws(c) {
            prev
        } else if s.len() >= 2 && !is_ws(s[s.len() - 2]) {
            prev.update(prev.len() - 1, prev.last().push(c))
        } else {
            prev.push(seq![c])
        }
    }
}

/// `parts` joined with `sep` between consecutive parts (`[T]::join`).
pub open spec fn join(parts: Seq<Seq<char>>, sep: Seq<char>) -> Seq<char>
    decreases parts.len(),
{
    if parts.len() == 0 {
        seq![]
    } else if parts.len() == 1 {
        parts[0]
    } else {
        join(parts.drop_last(), sep) + sep + parts.last()
    }
}

/// The words of `s` joined by single spaces.
pub open spec fn collapse_ws(s: Seq<char>) -> Seq<char> {
    join(words(s), seq![' '])
}

/// `s` holds no whitespace character.
pub open spec fn no_ws(s: Seq<char>) -> bool {
    forall|j: int| 0 <= j < s.len() ==> !is_ws(#[trigger] s[j])
}

/// Every part is non-empty and free of whitespace.
pub open spec fn all_words(parts: Seq<Seq<char>>) -> bool {
    forall|k: int| 0 <= k < parts.len() ==> #[trigger] parts[k].len() > 0 && no_ws(parts[k])
}

/// A string ending in a non-whitespace character has at least one word.
pub proof fn lemma_words_nonempty(s: Seq<char>)
    requires
        s.len() > 0,
        !is_ws(s.last()),
    ensures
        words(s).len() > 0,
    decreases s.len(),
{
    if s.len() >= 2 && !is_ws(s[s.len() - 2]) {
        lemma_words_nonempty(s.drop_last());
    }
}

/// The words of a string are non-empty and free of whitespace.
pub proof fn lemma_words_are_words(s: Seq<char>)
    ensures
        all_words(words(s)),
    decreases s.len(),
{
    if s.len() > 0 {
        lemma_words_are_words(s.drop_last());
        let prev = words(s.drop_last());
        let c = s.last();
        if !is_ws(c) && s.len() >= 2 && !is_ws(s[s.len() - 2]) {
            lemma_words_nonempty(s.drop_last());
            let w = prev.last().push(c);
            assert(no_ws(w)) by {
                assert forall|j: int| 0 <= j < w.len() implies !is_ws(#[trigger] w[j]) by {
                    if j < w.len() - 1 {
                        assert(w[j] == prev[prev.len() - 1][j]);
                    }
                }
            }
        } else if !is_ws(c) {
            assert(no_ws(seq![c]));
        }
        let ws = words(s);
        assert forall|k: int| 0 <= k < ws.len() implies #[trigger] ws[k].len() > 0 && no_ws(ws[k]) by {
            if k < prev.len() {
                assert(prev[k].len() > 0 && no_ws(prev[k]));
            }
        }
    }
}

/// Appending one part to a join.
pub proof fn lemma_join_push(parts: Seq<Seq<char>>, sep: Seq<char>, p: Seq<char>)
    ensures
        join(parts.push(p), sep) == if parts.len() == 0 {
            p
        } else {
            join(parts, sep) + sep + p
        },
{
    assert(parts.push(p).drop_last() =~= parts);
}

/// Extending the last part of a join extends the join.
pub proof fn lemma_join_extend_last(parts: Seq<Seq<char>>, sep: Seq<char>, c: char)
    requires
        parts.len() > 0,
    ensures
        join(parts.update(parts.len() - 1, parts.last().push(c)), sep) == join(parts, sep).push(c),
{
    let q = parts.update(parts.len() - 1, parts.last().push(c));
    if parts.len() == 1 {
    } else {
        assert(q.drop_last() =~= parts.drop_last());
        assert((join(parts.drop_last(), sep) + sep + parts.last()).push(c) =~= join(
            parts.drop_last(),
            sep,
        ) + sep + parts.last().push(c));
    }
}

/// A join of non-empty parts is empty exactly when there are no parts.
pub proof fn lemma_join_empty(parts: Seq<Seq<char>>, sep: Seq<char>)
    requires
        forall|k: int| 0 <= k < parts.len() ==> #[trigger] parts[k].len() > 0,
    ensures
        (join(parts, sep).len() == 0) == (parts.len() == 0),
    decreases parts.len(),
{
    if parts.len() > 1 {
        assert(parts.last() == parts[parts.len() - 1]);
    }
}

/// `s` with every `"\r\n"` replaced by `"\n"` (`str::replace("\r\n", "\n")`).
pub open spec fn replace_crlf(s: Seq<char>) -> Seq<char>
    decreases s.len(),
{
    if s.len() == 0 {
        s
    } else if s.len() >= 2 && s[0] == '\r' && s[1] == '\n' {
        seq!['\n'] + replace_crlf(s.skip(2))
    } else {
        seq![s[0]] + replace_crlf(s.skip(1))
    }
}

/// `s` with every `'\r'` replaced by `'\n'` (`str::replace("\r", "\n")`).
pub open spec fn replace_cr(s: Seq<char>) -> Seq<char> {
    s.map_values(|c: char| if c == '\r' { '\n' } else { c })
}

/// Line endings normalised to `'\n'`: first `"\r\n"`, then any remaining `'\r'`.
pub open spec fn normalize_newlines(s: Seq<char>) -> Seq<char> {
    replace_cr(replace_crlf(s))
}

/// Leading whitespace removed (`str::trim_start`).
pub open spec fn trim_start(s: Seq<char>) -> Seq<char>
    decreases s.len(),
{
    if s.len() > 0 && is_ws(s[0]) {
        trim_start(s.skip(1))
    } else {
        s
    }
}

/// Trailing whitespace removed (`str::trim_end`).
pub open spec fn trim_end(s: Seq<char>) -> Seq<char>
    decreases s.len(),
{
    if s.len() > 0 && is_ws(s.last()) {
        trim_end(s.drop_last())
    } else {
        s
    }
}

/// Leading and trailing whitespace removed (`str::trim`).
pub open spec fn trim(s: Seq<char>) -> Seq<char> {
    trim_end(trim_start(s))
}

/// The pieces of `s` between `sep` separators; there is always at least one.
pub open spec fn split_on(s: Seq<char>, sep: char) -> Seq<Seq<char>>
    decreases s.len(),
{
    if s.len() == 0 {
        seq![seq![]]
    } else {
        let prev = split_on(s.drop_last(), sep);
        if s.last() == sep {
            prev.push(seq![])
        } else {
            prev.update(prev.len() - 1, prev.last().push(s.last()))
        }
    }
}

/// The trimmed pieces that are not empty, in order.
pub open spec fn nonblank_trimmed(pieces: Seq<Seq<char>>) -> Seq<Seq<char>>
    decreases pieces.len(),
{
    if pieces.len() == 0 {
        seq![]
    } else {
        let prev = nonblank_trimmed(pieces.drop_last());
        let t = trim(pieces.last());
        if t.len() > 0 {
            prev.push(t)
        } else {
            prev
        }
    }
}

/// The pieces with their whitespace collapsed, blank ones dropped, in order.
pub open spec fn collapsed_lines(pieces: Seq<Seq<char>>) -> Seq<Seq<char>>
    decreases pieces.len(),
{
    if pieces.len() == 0 {
        seq![]
    } else {
        let prev = collapsed_lines(pieces.drop_last());
        let t = collapse_ws(pieces.last());
        if t.len() > 0 {
            prev.push(t)
        } else {
            prev
        }
    }
}

/// Whitespace collapsed with line breaks kept: each line's words joined by
/// single spaces, blank lines dropped, the rest joined by `'\n'`. Splitting
/// at `'\n'` stands for `str::lines`: the two differ only by a final empty
/// piece and by a `'\r'` before each `'\n'`, and collapsing whitespace and
/// dropping blank pieces erase both differences.
pub open spec fn keep_lines(s: Seq<char>) -> Seq<char> {
    join(collapsed_lines(split_on(s, '\n')), seq!['\n'])
}

/// There is always at least one piece.
pub proof fn lemma_split_on_len(s: Seq<char>, sep: char)
    ensures
        split_on(s, sep).len() > 0,
    decreases s.len(),
{
    if s.len() > 0 {
        lemma_split_on_len(s.drop_last(), sep);
    }
}

/// Appends `cs[lo..hi]` to `out`.
pub fn push_range(out: &mut String, cs: &Vec<char>, lo: usize, hi: usize)
    requires
        lo <= hi <= cs@.len(),
    ensures
        final(out)@ == old(out)@ + cs@.subrange(lo as int, hi as int),
{
    let mut k = lo;
    while k < hi
        invariant
            lo <= k <= hi <= cs@.len(),
            out@ == old(out)@ + cs@.subrange(lo as int, k as int),
        decreases hi - k,
    {
        push_char(out, cs[k]);
        assert(cs@.subrange(lo as int, k + 1) =~= cs@.subrange(lo as int, k as int).push(cs@[k as int]));
        k = k + 1;
    }
}

/// The characters `cs[lo..hi]` as a string.
pub fn string_from_range(cs: &Vec<char>, lo: usize, hi: usize) -> (res: String)
    requires
        lo <= hi <= cs@.len(),
    ensures
        res@ == cs@.subrange(lo as int, hi as int),
{
    let mut out = String::new();
    push_range(&mut out, cs, lo, hi);
    assert(out@ =~= cs@.subrange(lo as int, hi as int));
    out
}

/// The bounds of `trim(cs[lo..hi])` inside `cs`.
pub fn trim_bounds(cs: &Vec<char>, lo: usize, hi: usize) -> (r: (usize, usize))
    requires
        lo <= hi <= cs@.len(),
    ensures
        lo <= r.0 <= r.1 <= hi,
        cs@.subrange(r.0 as int, r.1 as int) == trim(cs@.subrange(lo as int, hi as int)),
{
    let mut a = lo;
    while a < hi && is_whitespace(cs[a])
        invariant
            lo <= a <= hi <= cs@.len(),
            trim_start(cs@.subrange(lo as int, hi as int)) == trim_start(cs@.subrange(a as int, hi as int)),
        decreases hi - a,
    {
        assert(cs@.subrange(a as int, hi as int).skip(1) =~= cs@.subrange(a + 1, hi as int));
        a = a + 1;
    }
    let mut b = hi;
    while b > a && is_whitespace(cs[b - 1])
        invariant
            lo <= a <= b <= hi <= cs@.len(),
            trim_start(cs@.subrange(lo as int, hi as int)) == cs@.subrange(a as int, hi as int),
            trim_end(cs@.subrange(a as int, hi as int)) == trim_end(cs@.subrange(a as int, b as int)),
        decreases b - a,
    {
        assert(cs@.subrange(a as int, b as int).drop_last() =~= cs@.subrange(a as int, b - 1));
        b = b - 1;
    }
    (a, b)
}

/// The UTF-8 length of one character.
pub open spec fn char_width(c: char) -> nat {
    encode_scalar(c as u32).len()
}

/// The UTF-8 length of a character (`char::len_utf8`).
pub fn utf8_width(c: char) -> (n: usize)
    ensures
        n == char_width(c),
        1 <= n <= 4,
{
    proof {
        vstd::utf8::char_is_scalar(c);
    }
    let v = c as u32;
    if v <= 0x7f {
        1
    } else if v <= 0x7ff {
        2
    } else if v <= 0xffff {
        3
    } else {
        4
    }
}

/// Encoding one more character appends its encoding.
pub proof fn lemma_encode_push(s: Seq<char>, c: char)
    ensures
        encode_utf8(s.push(c)) == encode_utf8(s) + encode_scalar(c as u32),
    decreases s.len(),
{
    if s.len() == 0 {
        assert(s.push(c).drop_first() =~= Seq::<char>::empty());
        assert(s.push(c)[0] == c);
        assert(encode_utf8(Seq::<char>::empty()) =~= Seq::<u8>::empty());
        assert(encode_utf8(s.push(c)) =~= encode_scalar(c as u32) + Seq::<u8>::empty());
    } else {
        assert(s.push(c).drop_first() =~= s.drop_first().push(c));
        assert(s.push(c)[0] == s[0]);
        lemma_encode_push(s.drop_first(), c);
        assert(encode_utf8(s.push(c)) =~= encode_utf8(s) + encode_scalar(c as u32));
    }
}

/// The total UTF-8 length of some pieces of text.
pub open spec fn total_bytes(parts: Seq<Seq<char>>) -> nat
    decreases parts.len(),
{
    if parts.len() == 0 {
        0
    } else {
        total_bytes(parts.drop_last()) + encode_utf8(parts.last()).len()
    }
}

/// The number of `'\n'` characters of `s`.
pub open spec fn count_newlines(s: Seq<char>) -> nat
    decreases s.len(),
{
    if s.len() == 0 {
        0
    } else {
        count_newlines(s.drop_last()) + if s.last() == '\n' { 1nat } else { 0nat }
    }
}

/// The number of lines of `s` as `str::lines` counts them: one per `'\n'`,
/// plus one for a non-empty last line without a terminator.
pub open spec fn line_count(s: Seq<char>) -> nat {
    count_newlines(s) + if s.len() > 0 && s.last() != '\n' { 1nat } else { 0nat }
}

/// Every part is non-empty.
pub open spec fn all_nonempty(parts: Seq<Seq<char>>) -> bool {
    forall|k: int| 0 <= k < parts.len() ==> #[trigger] parts[k].len() > 0
}

/// `parts` with `t` added at the end when `t` is not empty.
pub open spec fn with_nonblank(parts: Seq<Seq<char>>, t: Seq<char>) -> Seq<Seq<char>> {
    if t.len() > 0 {
        parts.push(t)
    } else {
        parts
    }
}

/// Appends the trimmed text `cs[lo..hi]`, when it is not blank, to the join
/// of `parts` by `sep` held in `out`.
pub fn append_trimmed(
    out: &mut String,
    cs: &Vec<char>,
    lo: usize,
    hi: usize,
    sep: char,
    Ghost(parts): Ghost<Seq<Seq<char>>>,
)
    requires
        lo <= hi <= cs@.len(),
        old(out)@ == join(parts, seq![sep]),
        all_nonempty(parts),
    ensures
        final(out)@ == join(with_nonblank(parts, trim(cs@.subrange(lo as int, hi as int))), seq![sep]),
        all_nonempty(with_nonblank(parts, trim(cs@.subrange(lo as int, hi as int)))),
{
    let ghost t = trim(cs@.subrange(lo as int, hi as int));
    let (a, b) = trim_bounds(cs, lo, hi);
    if a < b {
        proof {
            lemma_join_empty(parts, seq![sep]);
            lemma_join_push(parts, seq![sep], t);
        }
        if !out.as_str().is_empty() {
            push_char(out, sep);
        }
        push_range(out, cs, a, b);
        assert(out@ =~= join(parts.push(t), seq![sep]));
        assert forall|k: int| 0 <= k < parts.push(t).len() implies #[trigger] parts.push(t)[k].len() > 0 by {
            if k < parts.len() {
                assert(parts.push(t)[k] == parts[k]);
            }
        }
    }
}

/// The UTF-8 length of `s` as `str::len` reports it.
pub open spec fn str_len(s: Seq<char>) -> usize {
    encode_utf8(s).len() as usize
}

/// `s` with leading and trailing whitespace removed.
pub fn trim_str(s: &str) -> (res: String)
    ensures
        res@ == trim(s@),
{
    let cs = chars_of(s);
    let (a, b) = trim_bounds(&cs, 0, cs.len());
    assert(cs@.subrange(0, cs@.len() as int) =~= cs@);
    string_from_range(&cs, a, b)
}

/// Whether `s` is blank: empty once trimmed.
pub fn is_blank(s: &str) -> (res: bool)
    ensures
        res == (trim(s@).len() == 0),
{
    let cs = chars_of(s);
    let (a, b) = trim_bounds(&cs, 0, cs.len());
    assert(cs@.subrange(0, cs@.len() as int) =~= cs@);
    a == b
}

/// Whether the characters of `a` are those of `b`.
pub fn same_chars(a: &Vec<char>, b: &[char]) -> (res: bool)
    ensures
        res == (a@ == b@),
{
    if a.len() != b.len() {
        return false;
    }
    let mut i: usize = 0;
    while i < a.len()
        invariant
            i <= a@.len(),
            a@.len() == b@.len(),
            forall|k: int| 0 <= k < i ==> a@[k] == b@[k],
        decreases a@.len() - i,
    {
        if a[i] != b[i] {
            return false;
        }
        i = i + 1;
    }
    assert(a@ =~= b@);
    true
}

/// A non-empty string without whitespace is a single word.
pub proof fn lemma_words_single(t: Seq<char>)
    requires
        t.len() > 0,
        no_ws(t),
    ensures
        words(t) == seq![t],
    decreases t.len(),
{
    let c = t.last();
    assert(!is_ws(t[t.len() - 1]));
    assert(!is_ws(c));
    if t.len() == 1 {
        assert(t.drop_last() =~= Seq::<char>::empty());
        assert(words(t.drop_last()) =~= Seq::<Seq<char>>::empty());
        assert(words(t) == words(t.drop_last()).push(seq![c]));
        assert(seq![c] =~= t);
        assert(Seq::<Seq<char>>::empty().push(t) =~= seq![t]);
    } else {
        let u = t.drop_last();
        assert(no_ws(u)) by {
            assert forall|j: int| 0 <= j < u.len() implies !is_ws(#[trigger] u[j]) by {
                assert(u[j] == t[j]);
            }
        }
        lemma_words_single(u);
        assert(!is_ws(t[t.len() - 2]));
        assert(u.push(c) =~= t);
        assert(words(t) == words(u).update(0, u.push(c)));
        assert(seq![u].update(0, u.push(c)) =~= seq![t]);
    }
}

/// A space then a word after `u` add that word to the words of `u`.
pub proof fn lemma_words_append_word(u: Seq<char>, t: Seq<char>)
    requires
        t.len() > 0,
        no_ws(t),
    ensures
        words(u + seq![' '] + t) == words(u).push(t),
    decreases t.len(),
{
    let s = u + seq![' '] + t;
    let c = t.last();
    assert(!is_ws(t[t.len() - 1]));
    assert(s.last() == c);
    assert(!is_ws(c));
    if t.len() == 1 {
        let v = u + seq![' '];
        assert(s.drop_last() =~= v);
        assert(v.drop_last() =~= u);
        assert(v.last() == ' ');
        assert(is_ws(' '));
        assert(words(v) == words(u));
        assert(s[s.len() - 2] == ' ');
        assert(words(s) == words(v).push(seq![c]));
        assert(seq![c] =~= t);
    } else {
        let t2 = t.drop_last();
        assert(no_ws(t2)) by {
            assert forall|j: int| 0 <= j < t2.len() implies !is_ws(#[trigger] t2[j]) by {
                assert(t2[j] == t[j]);
            }
        }
        lemma_words_append_word(u, t2);
        assert(s.drop_last() =~= u + seq![' '] + t2);
        assert(s[s.len() - 2] == t[t.len() - 2]);
        assert(!is_ws(t[t.len() - 2]));
        assert(t2.push(c) =~= t);
        let w = words(s.drop_last());
        assert(w == words(u).push(t2));
        assert(words(s) == w.update(w.len() - 1, w.last().push(c)));
        assert(words(u).push(t2).update(words(u).len() as int, t2.push(c)) =~= words(u).push(t));
    }
}

/// Joining words by single spaces and splitting again gives the words back.
pub proof fn lemma_words_of_join(parts: Seq<Seq<char>>)
    requires
        all_words(parts),
    ensures
        words(join(parts, seq![' '])) == parts,
    decreases parts.len(),
{
    if parts.len() == 0 {
    } else if parts.len() == 1 {
        assert(parts[0].len() > 0 && no_ws(parts[0]));
        lemma_words_single(parts[0]);
        assert(seq![parts[0]] =~= parts);
    } else {
        let init = parts.drop_last();
        assert(all_words(init)) by {
            assert forall|k: int| 0 <= k < init.len() implies #[trigger] init[k].len() > 0 && no_ws(init[k]) by {
                assert(init[k] == parts[k]);
            }
        }
        lemma_words_of_join(init);
        assert(parts[parts.len() - 1].len() > 0 && no_ws(parts[parts.len() - 1]));
        lemma_words_append_word(join(init, seq![' ']), parts.last());
        assert(init.push(parts.last()) =~= parts);
    }
}

/// `s` holds no `c`.
pub open spec fn avoids(s: Seq<char>, c: char) -> bool {
    forall|j: int| 0 <= j < s.len() ==> #[trigger] s[j] != c
}

/// Joining parts that avoid `c` with a separator that avoids `c` avoids `c`.
pub proof fn lemma_join_avoids(parts: Seq<Seq<char>>, sep: Seq<char>, c: char)
    requires
        forall|k: int| 0 <= k < parts.len() ==> avoids(#[trigger] parts[k], c),
        avoids(sep, c),
    ensures
        avoids(join(parts, sep), c),
    decreases parts.len(),
{
    if parts.len() == 1 {
        assert(avoids(parts[0], c));
    } else if parts.len() > 1 {
        let init = parts.drop_last();
        assert forall|k: int| 0 <= k < init.len() implies avoids(#[trigger] init[k], c) by {
            assert(init[k] == parts[k]);
        }
        lemma_join_avoids(init, sep, c);
        assert(avoids(parts[parts.len() - 1], c));
        let j = join(init, sep) + sep + parts.last();
        assert forall|i: int| 0 <= i < j.len() implies #[trigger] j[i] != c by {
            let a = join(init, sep).len();
            if i < a {
                assert(j[i] == join(init, sep)[i]);
            } else if i < a + sep.len() {
                assert(j[i] == sep[i - a]);
            } else {
                assert(j[i] == parts.last()[i - a - sep.len()]);
            }
        }
    }
}

/// Whitespace-collapsed text holds no whitespace character but spaces.
pub proof fn lemma_collapse_avoids_ws(s: Seq<char>, c: char)
    requires
        is_ws(c),
        c != ' ',
    ensures
        avoids(collapse_ws(s), c),
{
    lemma_words_are_words(s);
    let ws = words(s);
    assert forall|k: int| 0 <= k < ws.len() implies avoids(#[trigger] ws[k], c) by {
        assert(ws[k].len() > 0 && no_ws(ws[k]));
        assert forall|j: int| 0 <= j < ws[k].len() implies #[trigger] ws[k][j] != c by {
            assert(!is_ws(ws[k][j]));
        }
    }
    assert(avoids(seq![' '], c));
    lemma_join_avoids(ws, seq![' '], c);
}

/// Text without carriage returns is unchanged by `replace_crlf`.
pub proof fn lemma_replace_crlf_identity(s: Seq<char>)
    requires
        avoids(s, '\r'),
    ensures
        replace_crlf(s) == s,
    decreases s.len(),
{
    if s.len() > 0 {
        assert(s[0] != '\r');
        let r = s.skip(1);
        assert(avoids(r, '\r')) by {
            assert forall|j: int| 0 <= j < r.len() implies #[trigger] r[j] != '\r' by {
                assert(r[j] == s[j + 1]);
            }
        }
        lemma_replace_crlf_identity(r);
        assert(seq![s[0]] + r =~= s);
    }
}

/// Text without carriage returns is unchanged by line-ending normalisation.
pub proof fn lemma_normalize_identity(s: Seq<char>)
    requires
        avoids(s, '\r'),
    ensures
        normalize_newlines(s) == s,
{
    lemma_replace_crlf_identity(s);
    assert(replace_cr(s) =~= s);
}


/// Trimming the start leaves no leading whitespace.
pub proof fn lemma_trim_start(s: Seq<char>)
    ensures
        trim_start(s).len() > 0 ==> !is_ws(trim_start(s)[0]),
    decreases s.len(),
{
    if s.len() > 0 && is_ws(s[0]) {
        lemma_trim_start(s.skip(1));
    }
}

/// Trimming the end gives a prefix without trailing whitespace.
pub proof fn lemma_trim_end(s: Seq<char>)
    ensures
        trim_end(s).len() <= s.len(),
        forall|i: int| 0 <= i < trim_end(s).len() ==> #[trigger] trim_end(s)[i] == s[i],
        trim_end(s).len() > 0 ==> !is_ws(trim_end(s).last()),
    decreases s.len(),
{
    if s.len() > 0 && is_ws(s.last()) {
        lemma_trim_end(s.drop_last());
    }
}

/// Trimming twice is trimming once.
pub proof fn lemma_trim_idempotent(s: Seq<char>)
    ensures
        trim(trim(s)) == trim(s),
{
    let t = trim_start(s);
    lemma_trim_start(s);
    lemma_trim_end(t);
    let u = trim_end(t);
    if u.len() > 0 {
        assert(u[0] == t[0]);
        assert(trim_start(u) == u);
        assert(trim_end(u) == u);
    } else {
        assert(trim_start(u) == u);
        assert(trim_end(u) == u);
    }
}

/// A text without the separator is a single piece.
pub proof fn lemma_split_on_single(t: Seq<char>, sep: char)
    requires
        avoids(t, sep),
    ensures
        split_on(t, sep) == seq![t],
    decreases t.len(),
{
    if t.len() > 0 {
        let init = t.drop_last();
        assert(avoids(init, sep)) by {
            assert forall|j: int| 0 <= j < init.len() implies #[trigger] init[j] != sep by {
                assert(init[j] == t[j]);
            }
        }
        lemma_split_on_single(init, sep);
        assert(t[t.len() - 1] != sep);
        assert(init.push(t.last()) =~= t);
        assert(seq![init].update(0, init.push(t.last())) =~= seq![t]);
    } else {
        assert(t =~= Seq::<char>::empty());
    }
}

/// A separator then a piece after `u` add that piece to the pieces of `u`.
pub proof fn lemma_split_on_append(u: Seq<char>, sep: char, t: Seq<char>)
    requires
        avoids(t, sep),
    ensures
        split_on(u + seq![sep] + t, sep) == split_on(u, sep).push(t),
    decreases t.len(),
{
    let s = u + seq![sep] + t;
    if t.len() == 0 {
        assert(s.drop_last() =~= u);
        assert(s.last() == sep);
        assert(t =~= Seq::<char>::empty());
    } else {
        let t2 = t.drop_last();
        assert(avoids(t2, sep)) by {
            assert forall|j: int| 0 <= j < t2.len() implies #[trigger] t2[j] != sep by {
                assert(t2[j] == t[j]);
            }
        }
        lemma_split_on_append(u, sep, t2);
        assert(s.drop_last() =~= u + seq![sep] + t2);
        assert(s.last() == t[t.len() - 1]);
        assert(t2.push(t.last()) =~= t);
        let p = split_on(u, sep).push(t2);
        assert(p.update(p.len() - 1, p.last().push(t.last())) =~= split_on(u, sep).push(t));
    }
}

/// Splitting a join of separator-free pieces gives the pieces back.
pub proof fn lemma_split_of_join(parts: Seq<Seq<char>>, sep: char)
    requires
        parts.len() > 0,
        forall|k: int| 0 <= k < parts.len() ==> avoids(#[trigger] parts[k], sep),
    ensures
        split_on(join(parts, seq![sep]), sep) == parts,
    decreases parts.len(),
{
    if parts.len() == 1 {
        assert(avoids(parts[0], sep));
        lemma_split_on_single(parts[0], sep);
        assert(seq![parts[0]] =~= parts);
    } else {
        let init = parts.drop_last();
        assert forall|k: int| 0 <= k < init.len() implies avoids(#[trigger] init[k], sep) by {
            assert(init[k] == parts[k]);
        }
        lemma_split_of_join(init, sep);
        assert(avoids(parts[parts.len() - 1], sep));
        lemma_split_on_append(join(init, seq![sep]), sep, parts.last());
        assert(init.push(parts.last()) =~= parts);
    }
}

/// Collapsing whitespace twice is collapsing it once.
pub proof fn lemma_collapse_idempotent(s: Seq<char>)
    ensures
        words(collapse_ws(s)) == words(s),
        collapse_ws(collapse_ws(s)) == collapse_ws(s),
{
    lemma_words_are_words(s);
    lemma_words_of_join(words(s));
}

/// The collapsed lines are non-empty, already collapsed, and hold neither
/// line feeds nor carriage returns.
pub proof fn lemma_collapsed_lines_props(pieces: Seq<Seq<char>>)
    ensures
        forall|k: int| 0 <= k < collapsed_lines(pieces).len() ==> {
            let line = #[trigger] collapsed_lines(pieces)[k];
            &&& line.len() > 0
            &&& collapse_ws(line) == line
            &&& avoids(line, '\n')
            &&& avoids(line, '\r')
        },
    decreases pieces.len(),
{
    if pieces.len() > 0 {
        let init = pieces.drop_last();
        lemma_collapsed_lines_props(init);
        let t = collapse_ws(pieces.last());
        lemma_collapse_idempotent(pieces.last());
        lemma_collapse_avoids_ws(pieces.last(), '\n');
        lemma_collapse_avoids_ws(pieces.last(), '\r');
        let prev = collapsed_lines(init);
        let cur = collapsed_lines(pieces);
        assert forall|k: int| 0 <= k < cur.len() implies {
            let line = #[trigger] cur[k];
            &&& line.len() > 0
            &&& collapse_ws(line) == line
            &&& avoids(line, '\n')
            &&& avoids(line, '\r')
        } by {
            if k < prev.len() {
                assert(cur[k] == prev[k]);
            }
        }
    }
}

/// Pieces that are non-empty and already collapsed are kept as they are.
pub proof fn lemma_collapsed_lines_fixed(pieces: Seq<Seq<char>>)
    requires
        forall|k: int| 0 <= k < pieces.len() ==> #[trigger] pieces[k].len() > 0 && collapse_ws(pieces[k]) == pieces[k],
    ensures
        collapsed_lines(pieces) == pieces,
    decreases pieces.len(),
{
    if pieces.len() > 0 {
        let init = pieces.drop_last();
        assert forall|k: int| 0 <= k < init.len() implies #[trigger] init[k].len() > 0 && collapse_ws(init[k]) == init[k] by {
            assert(init[k] == pieces[k]);
        }
        lemma_collapsed_lines_fixed(init);
        assert(pieces[pieces.len() - 1].len() > 0 && collapse_ws(pieces[pieces.len() - 1]) == pieces[pieces.len() - 1]);
        assert(init.push(pieces.last()) =~= pieces);
    }
}

/// Among ASCII characters exactly the space, tab, line feed, vertical tab,
/// form feed and carriage return are whitespace; beyond ASCII the Unicode
/// `White_Space` characters are, among them the no-break and ideographic
/// spaces and the line and paragraph separators.
pub proof fn whitespace_characters(c: char)
    ensures
        (c as u32) < 128 ==> (is_ws(c) == (c == ' ' || c == '\t' || c == '\n' || c == '\u{b}' || c
            == '\u{c}' || c == '\r')),
        is_ws('\u{85}') && is_ws('\u{a0}') && is_ws('\u{1680}') && is_ws('\u{2000}') && is_ws(
            '\u{200a}',
        ) && is_ws('\u{2028}') && is_ws('\u{2029}') && is_ws('\u{202f}') && is_ws('\u{205f}') && is_ws(
            '\u{3000}',
        ),
        !is_ws('\u{200b}') && !is_ws('\u{180e}') && !is_ws('\u{feff}'),
{
}

} // verus!
