//! Texts as sequences of characters: decoding, line splitting, line-ending
//! detection, and the whitespace-insensitive key of a line.

use vstd::prelude::*;
use vstd::utf8::valid_utf8;
use vstd::utf8::decode_utf8;
use vstd::utf8::pop_first_scalar;
use vstd::utf8::length_of_first_scalar;

verus! {

/// The pieces of `s` between line feeds, in order; there is always at least one.
pub open spec fn newline_pieces(s: Seq<char>) -> Seq<Seq<char>>
    decreases s.len(),
{
    if s.len() == 0 {
        seq![Seq::<char>::empty()]
    } else {
        let prev = newline_pieces(s.drop_last());
        if s.last() == '\n' {
            prev.push(Seq::<char>::empty())
        } else {
            prev.update(prev.len() - 1, prev.last().push(s.last()))
        }
    }
}

/// A line without the carriage return that ends it, if any.
pub open spec fn strip_cr(line: Seq<char>) -> Seq<char> {
    if line.len() > 0 && line.last() == '\r' {
        line.drop_last()
    } else {
        line
    }
}

pub open spec fn ends_with_newline(s: Seq<char>) -> bool {
    s.len() > 0 && s.last() == '\n'
}

/// The logical lines of a text: the pieces between line feeds, each without a
/// final carriage return, and without the empty piece after a final line feed.
pub open spec fn split_lines_spec(s: Seq<char>) -> Seq<Seq<char>> {
    let pieces = newline_pieces(s).map_values(|p: Seq<char>| strip_cr(p));
    if ends_with_newline(s) {
        pieces.drop_last()
    } else {
        pieces
    }
}

/// The character sequences held by a vector of character vectors.
pub open spec fn view_lines(v: Seq<Vec<char>>) -> Seq<Seq<char>> {
    v.map_values(|l: Vec<char>| l@)
}

pub proof fn lemma_newline_pieces_nonempty(s: Seq<char>)
    ensures
        newline_pieces(s).len() >= 1,
    decreases s.len(),
{
    if s.len() > 0 {
        lemma_newline_pieces_nonempty(s.drop_last());
    }
}

fn strip_trailing_cr(line: &mut Vec<char>)
    ensures
        final(line)@ == strip_cr(old(line)@),
{
    let n = line.len();
    if n > 0 && line[n - 1] == '\r' {
        line.pop();
    }
}

/// Splits a text into its logical lines (see `split_lines_spec`).
pub fn split_lines(text: &Vec<char>) -> (lines: Vec<Vec<char>>)
    ensures
        view_lines(lines@) == split_lines_spec(text@),
{
    let mut lines: Vec<Vec<char>> = Vec::new();
    let mut current: Vec<char> = Vec::new();
    let mut i: usize = 0;
    while i < text.len()
        invariant
            i <= text.len(),
            newline_pieces(text@.take(i as int)).len() >= 1,
            view_lines(lines@) == newline_pieces(text@.take(i as int)).drop_last().map_values(
                |p: Seq<char>| strip_cr(p),
            ),
            current@ == newline_pieces(text@.take(i as int)).last(),
        decreases text.len() - i,
    {
        proof {
            assert(text@.take(i + 1).drop_last() =~= text@.take(i as int));
            lemma_newline_pieces_nonempty(text@.take(i as int));
        }
        let c = text[i];
        if c == '\n' {
            let ghost before = lines@;
            let mut finished = current;
            strip_trailing_cr(&mut finished);
            lines.push(finished);
            proof {
                assert(lines@ == before.push(finished));
            }
            current = Vec::new();
            proof {
                let prev = newline_pieces(text@.take(i as int));
                let next = newline_pieces(text@.take(i + 1));
                assert(next == prev.push(Seq::<char>::empty()));
                assert(next.drop_last() =~= prev);
                assert(view_lines(lines@) =~= view_lines(before).push(strip_cr(prev.last())));
                assert(view_lines(lines@) =~= next.drop_last().map_values(|p: Seq<char>| strip_cr(p)));
            }
        } else {
            current.push(c);
            proof {
                let prev = newline_pieces(text@.take(i as int));
                let next = newline_pieces(text@.take(i + 1));
                assert(next == prev.update(prev.len() - 1, prev.last().push(c)));
                assert(next.drop_last() =~= prev.drop_last());
            }
        }
        i = i + 1;
    }
    proof {
        assert(text@.take(text@.len() as int) =~= text@);
    }
    if text.len() > 0 && text[text.len() - 1] == '\n' {
        proof {
            let pieces = newline_pieces(text@);
            assert(text@.drop_last() =~= text@.take(text@.len() - 1));
            assert(pieces.map_values(|p: Seq<char>| strip_cr(p)).drop_last() =~= pieces.drop_last().map_values(
                |p: Seq<char>| strip_cr(p),
            ));
        }
    } else {
        let ghost before = lines@;
        let mut last = current;
        strip_trailing_cr(&mut last);
        lines.push(last);
        proof {
            let pieces = newline_pieces(text@);
            assert(lines@ == before.push(last));
            assert(view_lines(lines@) =~= view_lines(before).push(strip_cr(pieces.last())));
            assert(pieces.map_values(|p: Seq<char>| strip_cr(p)) =~= pieces.drop_last().map_values(
                |p: Seq<char>| strip_cr(p),
            ).push(strip_cr(pieces.last())));
        }
    }
    lines
}

/// How a text ends its lines: not at all, only with LF, only with CRLF, only
/// with a lone CR, or with more than one of these.
#[derive(Clone, Copy, Debug, PartialEq, Eq, Structural)]
pub enum LineEndings {
    Absent,
    Lf,
    Crlf,
    Cr,
    Mixed,
}

/// A line feed at `i` that does not complete a CRLF pair.
pub open spec fn lone_lf_at(s: Seq<char>, i: int) -> bool {
    0 <= i < s.len() && s[i] == '\n' && !(i > 0 && s[i - 1] == '\r')
}

/// A CRLF pair starting at `i`.
pub open spec fn crlf_at(s: Seq<char>, i: int) -> bool {
    0 <= i && i + 1 < s.len() && s[i] == '\r' && s[i + 1] == '\n'
}

/// A carriage return at `i` that is not followed by a line feed.
pub open spec fn lone_cr_at(s: Seq<char>, i: int) -> bool {
    0 <= i < s.len() && s[i] == '\r' && !(i + 1 < s.len() && s[i + 1] == '\n')
}

pub open spec fn line_endings_of(s: Seq<char>) -> LineEndings {
    let lf = exists|i: int| lone_lf_at(s, i);
    let crlf = exists|i: int| crlf_at(s, i);
    let cr = exists|i: int| lone_cr_at(s, i);
    if !lf && !crlf && !cr {
        LineEndings::Absent
    } else if lf && !crlf && !cr {
        LineEndings::Lf
    } else if !lf && crlf && !cr {
        LineEndings::Crlf
    } else if !lf && !crlf && cr {
        LineEndings::Cr
    } else {
        LineEndings::Mixed
    }
}

impl LineEndings {
    pub open spec fn name_spec(self) -> Seq<char> {
        match self {
            LineEndings::Absent => "none"@,
            LineEndings::Lf => "lf"@,
            LineEndings::Crlf => "crlf"@,
            LineEndings::Cr => "cr"@,
            LineEndings::Mixed => "mixed"@,
        }
    }

    /// The report's name for this style.
    pub fn name(self) -> (name: &'static str)
        ensures
            name@ == self.name_spec(),
    {
        match self {
            LineEndings::Absent => "none",
            LineEndings::Lf => "lf",
            LineEndings::Crlf => "crlf",
            LineEndings::Cr => "cr",
            LineEndings::Mixed => "mixed",
        }
    }
}

/// Scans a text once and reports which line-ending styles occur in it.
pub fn line_ending_style(text: &Vec<char>) -> (style: LineEndings)
    ensures
        style == line_endings_of(text@),
{
    let ghost s = text@;
    let n = text.len();
    let mut index: usize = 0;
    let mut lf = false;
    let mut crlf = false;
    let mut cr = false;
    while index < n
        invariant
            n == s.len(),
            s == text@,
            index <= n,
            !(0 < index < n && s[index - 1] == '\r' && s[index as int] == '\n'),
            lf == exists|i: int| 0 <= i < index && lone_lf_at(s, i),
            crlf == exists|i: int| 0 <= i < index && crlf_at(s, i),
            cr == exists|i: int| 0 <= i < index && lone_cr_at(s, i),
        decreases n - index,
    {
        let c = text[index];
        if c == '\r' {
            if index + 1 < n && text[index + 1] == '\n' {
                proof {
                    assert(crlf_at(s, index as int));
                    assert(!lone_lf_at(s, index + 1));
                    assert(!lone_cr_at(s, index as int));
                    assert(!crlf_at(s, index + 1));
                    assert(!lone_cr_at(s, index + 1));
                    assert(!lone_lf_at(s, index as int));
                }
                crlf = true;
                index = index + 2;
            } else {
                proof {
                    assert(lone_cr_at(s, index as int));
                    assert(!crlf_at(s, index as int));
                    assert(!lone_lf_at(s, index as int));
                }
                cr = true;
                index = index + 1;
            }
        } else if c == '\n' {
            proof {
                assert(lone_lf_at(s, index as int));
                assert(!crlf_at(s, index as int));
                assert(!lone_cr_at(s, index as int));
            }
            lf = true;
            index = index + 1;
        } else {
            proof {
                assert(!lone_lf_at(s, index as int));
                assert(!crlf_at(s, index as int));
                assert(!lone_cr_at(s, index as int));
            }
            index = index + 1;
        }
    }
    proof {
        assert(lf == exists|i: int| lone_lf_at(s, i));
        assert(crlf == exists|i: int| crlf_at(s, i));
        assert(cr == exists|i: int| lone_cr_at(s, i));
    }
    if !lf && !crlf && !cr {
        LineEndings::Absent
    } else if lf && !crlf && !cr {
        LineEndings::Lf
    } else if !lf && crlf && !cr {
        LineEndings::Crlf
    } else if !lf && !crlf && cr {
        LineEndings::Cr
    } else {
        LineEndings::Mixed
    }
}

/// The characters with the Unicode `White_Space` property.
pub open spec fn is_white_space(c: char) -> bool {
    ||| '\u{9}' <= c <= '\u{d}'
    ||| c == ' '
    ||| c == '\u{85}'
    ||| c == '\u{a0}'
    ||| c == '\u{1680}'
    ||| '\u{2000}' <= c <= '\u{200a}'
    ||| c == '\u{2028}'
    ||| c == '\u{2029}'
    ||| c == '\u{202f}'
    ||| c == '\u{205f}'
    ||| c == '\u{3000}'
}

/// Whether a character has the Unicode `White_Space` property (the test that
/// `char::is_whitespace` documents).
pub fn is_whitespace_char(c: char) -> (r: bool)
    ensures
        r == is_white_space(c),
{
    ('\u{9}' <= c && c <= '\u{d}') || c == ' ' || c == '\u{85}' || c == '\u{a0}' || c == '\u{1680}' || ('\u{2000}'
        <= c && c <= '\u{200a}') || c == '\u{2028}' || c == '\u{2029}' || c == '\u{202f}' || c == '\u{205f}' || c
        == '\u{3000}'
}

/// The whitespace-separated words of `s`, in order.
pub open spec fn words(s: Seq<char>) -> Seq<Seq<char>>
    decreases s.len(),
{
    if s.len() == 0 {
        Seq::<Seq<char>>::empty()
    } else {
        let prev = words(s.drop_last());
        let c = s.last();
        if is_white_space(c) {
            prev
        } else if s.len() == 1 || is_white_space(s[s.len() - 2]) {
            prev.push(seq![c])
        } else {
            prev.update(prev.len() - 1, prev.last().push(c))
        }
    }
}

/// Words joined by single spaces.
pub open spec fn join_words(ws: Seq<Seq<char>>) -> Seq<char>
    decreases ws.len(),
{
    if ws.len() == 0 {
        Seq::<char>::empty()
    } else if ws.len() == 1 {
        ws[0]
    } else {
        join_words(ws.drop_last()) + seq![' '] + ws.last()
    }
}

/// The key under which a line is matched when whitespace is ignored: its
/// words, joined by single spaces.
pub open spec fn normalize_key_spec(s: Seq<char>) -> Seq<char> {
    join_words(words(s))
}

proof fn lemma_words_last(s: Seq<char>)
    requires
        s.len() > 0,
        !is_white_space(s.last()),
    ensures
        words(s).len() >= 1,
    decreases s.len(),
{
    if s.len() > 1 && !is_white_space(s[s.len() - 2]) {
        assert(s.drop_last().last() == s[s.len() - 2]);
        lemma_words_last(s.drop_last());
    }
}

proof fn lemma_words_nonempty(s: Seq<char>)
    ensures
        forall|k: int| 0 <= k < words(s).len() ==> #[trigger] words(s)[k].len() > 0,
    decreases s.len(),
{
    if s.len() > 0 {
        lemma_words_nonempty(s.drop_last());
        let prev = words(s.drop_last());
        let c = s.last();
        if !is_white_space(c) && !(s.len() == 1 || is_white_space(s[s.len() - 2])) {
            assert(s.drop_last().last() == s[s.len() - 2]);
            lemma_words_last(s.drop_last());
            assert forall|k: int| 0 <= k < words(s).len() implies #[trigger] words(s)[k].len() > 0 by {
                if k < prev.len() - 1 {
                    assert(words(s)[k] == prev[k]);
                }
            }
        }
    }
}

proof fn lemma_join_extend_last(ws: Seq<Seq<char>>, c: char)
    requires
        ws.len() >= 1,
    ensures
        join_words(ws.update(ws.len() - 1, ws.last().push(c))) == join_words(ws).push(c),
{
    let ws2 = ws.update(ws.len() - 1, ws.last().push(c));
    if ws.len() > 1 {
        assert(ws2.drop_last() =~= ws.drop_last());
        assert(join_words(ws2) =~= join_words(ws).push(c));
    }
}

proof fn lemma_join_push(ws: Seq<Seq<char>>, w: Seq<char>)
    ensures
        ws.len() == 0 ==> join_words(ws.push(w)) == w,
        ws.len() > 0 ==> join_words(ws.push(w)) == join_words(ws) + seq![' '] + w,
{
    assert(ws.push(w).drop_last() =~= ws);
}

proof fn lemma_join_empty(ws: Seq<Seq<char>>)
    requires
        forall|k: int| 0 <= k < ws.len() ==> #[trigger] ws[k].len() > 0,
    ensures
        (join_words(ws).len() == 0) == (ws.len() == 0),
    decreases ws.len(),
{
    if ws.len() > 1 {
        assert(ws.last() == ws[ws.len() - 1]);
    } else if ws.len() == 1 {
        assert(ws[0].len() > 0);
    }
}

/// Computes `normalize_key_spec(line)`: the words of the line joined by single spaces.
pub fn normalize_key(line: &Vec<char>) -> (key: Vec<char>)
    ensures
        key@ == normalize_key_spec(line@),
{
    let mut key: Vec<char> = Vec::new();
    let mut in_word = false;
    let mut i: usize = 0;
    while i < line.len()
        invariant
            i <= line.len(),
            key@ == join_words(words(line@.take(i as int))),
            in_word == (i > 0 && !is_white_space(line@[i - 1])),
        decreases line.len() - i,
    {
        let ghost prefix = line@.take(i as int);
        let ghost next = line@.take(i + 1);
        proof {
            assert(next.drop_last() =~= prefix);
            lemma_words_nonempty(prefix);
            lemma_join_empty(words(prefix));
        }
        let c = line[i];
        if is_whitespace_char(c) {
            in_word = false;
        } else {
            if !in_word {
                if key.len() > 0 {
                    key.push(' ');
                }
                key.push(c);
                proof {
                    lemma_join_push(words(prefix), seq![c]);
                }
            } else {
                key.push(c);
                proof {
                    assert(next[next.len() - 2] == line@[i - 1]);
                    lemma_words_last(prefix);
                    lemma_join_extend_last(words(prefix), c);
                }
            }
            in_word = true;
        }
        i = i + 1;
    }
    proof {
        assert(line@.take(line@.len() as int) =~= line@);
    }
    key
}

/// `std::str::from_utf8` accepts exactly the byte strings that are valid
/// UTF-8; the characters of the accepted string are the UTF-8 decoding of the
/// bytes.
#[verifier::external_body]
pub(crate) fn decode_text(bytes: &[u8]) -> (text: Option<Vec<char>>)
    ensures
        text is Some <==> valid_utf8(bytes@),
        text matches Some(t) ==> t@ == decode_utf8(bytes@),
{
    std::str::from_utf8(bytes).ok().map(|s| s.chars().collect())
}

/// `String::from_iter` over characters (`FromIterator<&char>`) yields the
/// string made of exactly those characters, in order.
#[verifier::external_body]
pub(crate) fn string_from_chars(chars: &[char]) -> (s: String)
    ensures
        s@ == chars@,
{
    String::from_iter(chars.iter())
}

/// A text prepared for line diffing: its characters, its logical lines, whether
/// it ends with a line feed, and its line-ending style.
pub struct LineInput {
    pub text: Vec<char>,
    pub lines: Vec<Vec<char>>,
    pub trailing_newline: bool,
    pub line_endings: LineEndings,
}

impl LineInput {
    /// The fields describe `self.text`.
    pub open spec fn wf(self) -> bool {
        &&& view_lines(self.lines@) == split_lines_spec(self.text@)
        &&& self.trailing_newline == ends_with_newline(self.text@)
        &&& self.line_endings == line_endings_of(self.text@)
    }

    pub fn new(text: Vec<char>) -> (input: Self)
        ensures
            input.text@ == text@,
            input.wf(),
    {
        let lines = split_lines(&text);
        let trailing_newline = text.len() > 0 && text[text.len() - 1] == '\n';
        let line_endings = line_ending_style(&text);
        LineInput { text, lines, trailing_newline, line_endings }
    }
}

/// Whether two texts are the same.
pub fn chars_equal(a: &[char], b: &[char]) -> (same: bool)
    ensures
        same == (a@ == b@),
{
    if a.len() != b.len() {
        return false;
    }
    let mut i: usize = 0;
    while i < a.len()
        invariant
            i <= a.len() == b.len(),
            a@.take(i as int) == b@.take(i as int),
        decreases a.len() - i,
    {
        if a[i] != b[i] {
            proof {
                assert(a@.take(i + 1)[i as int] != b@.take(i + 1)[i as int]);
            }
            return false;
        }
        i = i + 1;
        proof {
            assert(a@.take(i as int) =~= b@.take(i as int));
        }
    }
    proof {
        assert(a@.take(a@.len() as int) =~= a@);
        assert(b@.take(b@.len() as int) =~= b@);
    }
    true
}

/// Whether two sequences of lines are the same.
pub fn lines_equal(a: &Vec<Vec<char>>, b: &Vec<Vec<char>>) -> (same: bool)
    ensures
        same == (view_lines(a@) == view_lines(b@)),
{
    if a.len() != b.len() {
        proof {
            assert(view_lines(a@).len() != view_lines(b@).len());
        }
        return false;
    }
    let mut i: usize = 0;
    while i < a.len()
        invariant
            i <= a.len() == b.len(),
            view_lines(a@).take(i as int) == view_lines(b@).take(i as int),
        decreases a.len() - i,
    {
        if !chars_equal(a[i].as_slice(), b[i].as_slice()) {
            proof {
                assert(view_lines(a@)[i as int] != view_lines(b@)[i as int]);
            }
            return false;
        }
        i = i + 1;
        proof {
            assert(view_lines(a@).take(i as int) =~= view_lines(b@).take(i as int));
        }
    }
    proof {
        assert(view_lines(a@).take(a@.len() as int) =~= view_lines(a@));
        assert(view_lines(b@).take(b@.len() as int) =~= view_lines(b@));
    }
    true
}

/// Decoding never yields more characters than there are bytes.
pub proof fn lemma_decode_len(bytes: Seq<u8>)
    requires
        valid_utf8(bytes),
    ensures
        decode_utf8(bytes).len() <= bytes.len(),
    decreases bytes.len(),
{
    if bytes.len() > 0 {
        let rest = pop_first_scalar(bytes);
        assert(1 <= length_of_first_scalar(bytes) <= bytes.len());
        assert(rest.len() == bytes.len() - length_of_first_scalar(bytes));
        lemma_decode_len(rest);
    }
}

pub proof fn lemma_newline_pieces_len(s: Seq<char>)
    ensures
        newline_pieces(s).len() <= s.len() + 1,
    decreases s.len(),
{
    if s.len() > 0 {
        lemma_newline_pieces_len(s.drop_last());
        lemma_newline_pieces_nonempty(s.drop_last());
    }
}

/// A text has at most one more line than it has characters.
pub proof fn lemma_split_lines_len(s: Seq<char>)
    ensures
        split_lines_spec(s).len() <= s.len() + 1,
{
    lemma_newline_pieces_len(s);
}

proof fn lemma_pieces_no_lf(s: Seq<char>)
    ensures
        forall|k: int, q: int|
            0 <= k < newline_pieces(s).len() && 0 <= q < newline_pieces(s)[k].len() ==> #[trigger] newline_pieces(
                s,
            )[k][q] != '\n',
    decreases s.len(),
{
    if s.len() > 0 {
        lemma_pieces_no_lf(s.drop_last());
        lemma_newline_pieces_nonempty(s.drop_last());
        let prev = newline_pieces(s.drop_last());
        let cur = newline_pieces(s);
        assert forall|k: int, q: int| 0 <= k < cur.len() && 0 <= q < cur[k].len() implies #[trigger] cur[k][q]
            != '\n' by {
            if s.last() == '\n' {
                if k < prev.len() {
                    assert(cur[k] == prev[k]);
                }
            } else {
                if k < prev.len() - 1 {
                    assert(cur[k] == prev[k]);
                } else {
                    assert(cur[k] == prev.last().push(s.last()));
                    if q < prev.last().len() {
                        assert(cur[k][q] == prev[prev.len() - 1][q]);
                    }
                }
            }
        }
    }
}

/// No line of a text holds a line feed.
pub proof fn law_lines_hold_no_line_feed(s: Seq<char>)
    ensures
        forall|k: int, q: int|
            0 <= k < split_lines_spec(s).len() && 0 <= q < split_lines_spec(s)[k].len() ==> #[trigger] split_lines_spec(
                s,
            )[k][q] != '\n',
{
    lemma_pieces_no_lf(s);
    let pieces = newline_pieces(s);
    let lines = split_lines_spec(s);
    assert forall|k: int, q: int| 0 <= k < lines.len() && 0 <= q < lines[k].len() implies #[trigger] lines[k][q]
        != '\n' by {
        assert(lines[k] == strip_cr(pieces[k]));
        assert(lines[k][q] == pieces[k][q]);
    }
}

/// A text has no line endings exactly when it holds no line feed and no
/// carriage return.
pub proof fn law_no_line_endings(s: Seq<char>)
    ensures
        (line_endings_of(s) == LineEndings::Absent) == (forall|i: int|
            0 <= i < s.len() ==> #[trigger] s[i] != '\n' && s[i] != '\r'),
{
    if line_endings_of(s) == LineEndings::Absent {
        assert forall|i: int| 0 <= i < s.len() implies #[trigger] s[i] != '\n' && s[i] != '\r' by {
            if s[i] == '\n' {
                if i > 0 && s[i - 1] == '\r' {
                    assert(crlf_at(s, i - 1));
                } else {
                    assert(lone_lf_at(s, i));
                }
            }
            if s[i] == '\r' {
                if i + 1 < s.len() && s[i + 1] == '\n' {
                    assert(crlf_at(s, i));
                } else {
                    assert(lone_cr_at(s, i));
                }
            }
        }
    }
}

/// Lines joined with line feeds between them.
pub open spec fn join_lines(ls: Seq<Seq<char>>) -> Seq<char>
    decreases ls.len(),
{
    if ls.len() == 0 {
        Seq::<char>::empty()
    } else if ls.len() == 1 {
        ls[0]
    } else {
        join_lines(ls.drop_last()) + seq!['\n'] + ls.last()
    }
}

proof fn lemma_join_pieces(s: Seq<char>)
    ensures
        join_lines(newline_pieces(s)) == s,
    decreases s.len(),
{
    if s.len() > 0 {
        let prev = newline_pieces(s.drop_last());
        let cur = newline_pieces(s);
        lemma_join_pieces(s.drop_last());
        lemma_newline_pieces_nonempty(s.drop_last());
        if s.last() == '\n' {
            assert(cur.drop_last() =~= prev);
            assert(s =~= s.drop_last() + seq!['\n'] + Seq::<char>::empty());
        } else {
            if prev.len() == 1 {
                assert(s =~= prev[0].push(s.last()));
            } else {
                assert(cur.drop_last() =~= prev.drop_last());
                assert(join_lines(prev) == join_lines(prev.drop_last()) + seq!['\n'] + prev.last());
                let a = join_lines(prev.drop_last()) + seq!['\n'];
                assert(s =~= s.drop_last().push(s.last()));
                assert((a + prev.last()).push(s.last()) =~= a + prev.last().push(s.last()));
            }
        }
    }
}

proof fn lemma_pieces_avoid(s: Seq<char>, c: char)
    requires
        forall|i: int| 0 <= i < s.len() ==> #[trigger] s[i] != c,
    ensures
        forall|k: int, q: int|
            0 <= k < newline_pieces(s).len() && 0 <= q < newline_pieces(s)[k].len() ==> #[trigger] newline_pieces(
                s,
            )[k][q] != c,
    decreases s.len(),
{
    if s.len() > 0 {
        assert forall|i: int| 0 <= i < s.drop_last().len() implies #[trigger] s.drop_last()[i] != c by {
            assert(s.drop_last()[i] == s[i]);
        }
        lemma_pieces_avoid(s.drop_last(), c);
        lemma_newline_pieces_nonempty(s.drop_last());
        let prev = newline_pieces(s.drop_last());
        let cur = newline_pieces(s);
        assert forall|k: int, q: int| 0 <= k < cur.len() && 0 <= q < cur[k].len() implies #[trigger] cur[k][q]
            != c by {
            if s.last() == '\n' {
                if k < prev.len() {
                    assert(cur[k] == prev[k]);
                }
            } else {
                if k < prev.len() - 1 {
                    assert(cur[k] == prev[k]);
                } else {
                    assert(cur[k] == prev.last().push(s.last()));
                    if q < prev.last().len() {
                        assert(cur[k][q] == prev[prev.len() - 1][q]);
                    } else {
                        assert(cur[k][q] == s[s.len() - 1]);
                    }
                }
            }
        }
    }
}

/// A text without carriage returns is given back by its lines, joined with
/// line feeds, and a final line feed where the text ends with one.
pub proof fn law_lines_rebuild_text(s: Seq<char>)
    requires
        forall|i: int| 0 <= i < s.len() ==> #[trigger] s[i] != '\r',
    ensures
        join_lines(split_lines_spec(s)) + (if ends_with_newline(s) {
            seq!['\n']
        } else {
            Seq::<char>::empty()
        }) == s,
{
    let pieces = newline_pieces(s);
    lemma_join_pieces(s);
    lemma_pieces_avoid(s, '\r');
    lemma_newline_pieces_nonempty(s);
    assert forall|k: int| 0 <= k < pieces.len() implies #[trigger] strip_cr(pieces[k]) == pieces[k] by {
        if pieces[k].len() > 0 {
            assert(pieces[k][pieces[k].len() - 1] != '\r');
        }
    }
    let stripped = pieces.map_values(|p: Seq<char>| strip_cr(p));
    assert(stripped =~= pieces);
    if ends_with_newline(s) {
        let prev = newline_pieces(s.drop_last());
        lemma_newline_pieces_nonempty(s.drop_last());
        assert(pieces.drop_last() =~= prev);
        assert(pieces.last() =~= Seq::<char>::empty());
        assert(join_lines(pieces) == join_lines(prev) + seq!['\n'] + Seq::<char>::empty());
        assert(join_lines(split_lines_spec(s)) + seq!['\n'] =~= join_lines(pieces));
    } else {
        assert(join_lines(split_lines_spec(s)) + Seq::<char>::empty() =~= join_lines(pieces));
    }
}

/// A word holds characters, none of them whitespace.
pub open spec fn is_word(w: Seq<char>) -> bool {
    w.len() > 0 && forall|q: int| 0 <= q < w.len() ==> !is_white_space(#[trigger] w[q])
}

proof fn lemma_words_are_words(s: Seq<char>)
    ensures
        forall|k: int| 0 <= k < words(s).len() ==> is_word(#[trigger] words(s)[k]),
    decreases s.len(),
{
    if s.len() > 0 {
        lemma_words_are_words(s.drop_last());
        let prev = words(s.drop_last());
        let c = s.last();
        let cur = words(s);
        if !is_white_space(c) && !(s.len() == 1 || is_white_space(s[s.len() - 2])) {
            assert(s.drop_last().last() == s[s.len() - 2]);
            lemma_words_last(s.drop_last());
            assert forall|k: int| 0 <= k < cur.len() implies is_word(#[trigger] cur[k]) by {
                if k < prev.len() - 1 {
                    assert(cur[k] == prev[k]);
                } else {
                    assert(is_word(prev[prev.len() - 1]));
                    let w = prev.last().push(c);
                    assert(cur[k] == w);
                    assert forall|q: int| 0 <= q < w.len() implies !is_white_space(#[trigger] w[q]) by {
                        if q < prev.last().len() {
                            assert(w[q] == prev[prev.len() - 1][q]);
                        }
                    }
                }
            }
        } else if !is_white_space(c) {
            assert forall|k: int| 0 <= k < cur.len() implies is_word(#[trigger] cur[k]) by {
                if k < prev.len() {
                    assert(cur[k] == prev[k]);
                } else {
                    assert(cur[k] == seq![c]);
                }
            }
        }
    }
}

proof fn lemma_words_of_word(w: Seq<char>)
    requires
        is_word(w),
    ensures
        words(w) == seq![w],
    decreases w.len(),
{
    let c = w.last();
    assert(!is_white_space(w[w.len() - 1]));
    if w.len() == 1 {
        assert(w.drop_last() =~= Seq::<char>::empty());
        assert(words(w.drop_last()) =~= Seq::<Seq<char>>::empty());
        assert(w =~= seq![c]);
        assert(words(w) =~= seq![w]);
    } else {
        let v = w.drop_last();
        assert forall|q: int| 0 <= q < v.len() implies !is_white_space(#[trigger] v[q]) by {
            assert(v[q] == w[q]);
        }
        lemma_words_of_word(v);
        assert(!is_white_space(w[w.len() - 2]));
        assert(v.push(c) =~= w);
        assert(words(w) =~= seq![w]);
    }
}

proof fn lemma_words_split(a: Seq<char>, b: Seq<char>)
    ensures
        words(a + seq![' '] + b) == words(a) + words(b),
    decreases b.len(),
{
    let x = a + seq![' '] + b;
    if b.len() == 0 {
        assert(x =~= a.push(' '));
        assert(x.drop_last() =~= a);
        assert(words(x) =~= words(a) + words(b));
    } else {
        let b0 = b.drop_last();
        let c = b.last();
        lemma_words_split(a, b0);
        assert(x.drop_last() =~= a + seq![' '] + b0);
        assert(x.last() == c);
        if is_white_space(c) {
            assert(words(x) =~= words(a) + words(b));
        } else {
            assert(x[x.len() - 2] == if b0.len() == 0 { ' ' } else { b0.last() });
            if b0.len() == 0 || is_white_space(b0.last()) {
                if b0.len() > 0 {
                    assert(b[b.len() - 2] == b0.last());
                }
                assert(words(x) =~= words(a) + words(b));
            } else {
                assert(b[b.len() - 2] == b0.last());
                lemma_words_last(b0);
                let wa = words(a);
                let wb = words(b0);
                assert((wa + wb).update(wa.len() + wb.len() - 1, wb.last().push(c)) =~= wa + wb.update(
                    wb.len() - 1,
                    wb.last().push(c),
                ));
                assert((wa + wb).last() == wb.last());
                assert(words(x) =~= words(a) + words(b));
            }
        }
    }
}

proof fn lemma_words_of_join(ws: Seq<Seq<char>>)
    requires
        forall|k: int| 0 <= k < ws.len() ==> is_word(#[trigger] ws[k]),
    ensures
        words(join_words(ws)) == ws,
    decreases ws.len(),
{
    if ws.len() == 0 {
        assert(words(join_words(ws)) =~= ws);
    } else if ws.len() == 1 {
        lemma_words_of_word(ws[0]);
        assert(seq![ws[0]] =~= ws);
    } else {
        let prev = ws.drop_last();
        assert forall|k: int| 0 <= k < prev.len() implies is_word(#[trigger] prev[k]) by {
            assert(prev[k] == ws[k]);
        }
        lemma_words_of_join(prev);
        assert(is_word(ws[ws.len() - 1]));
        lemma_words_of_word(ws.last());
        lemma_words_split(join_words(prev), ws.last());
        assert(prev + seq![ws.last()] =~= ws);
    }
}

/// Normalizing a line's whitespace twice changes nothing more than doing it
/// once.
pub proof fn law_normalize_key_idempotent(s: Seq<char>)
    ensures
        normalize_key_spec(normalize_key_spec(s)) == normalize_key_spec(s),
{
    lemma_words_are_words(s);
    lemma_words_of_join(words(s));
}

/// Two lines get the same key, and so match when whitespace is ignored,
/// exactly when they hold the same words in the same order.
pub proof fn law_keys_match_words(a: Seq<char>, b: Seq<char>)
    ensures
        (normalize_key_spec(a) == normalize_key_spec(b)) == (words(a) == words(b)),
{
    lemma_words_are_words(a);
    lemma_words_are_words(b);
    lemma_words_of_join(words(a));
    lemma_words_of_join(words(b));
}

} // verus!
