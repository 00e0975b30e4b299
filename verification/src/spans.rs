//! Inline spans: runs of text with one highlight kind, and the display of
//! whitespace as visible markers.

use vstd::prelude::*;
use crate::text::string_from_chars;

verus! {

/// The highlight of a span; the marker kinds hold visible whitespace markers.
#[derive(Clone, Copy, Debug, PartialEq, Eq, Structural)]
pub enum SpanKind {
    Equal,
    Delete,
    Insert,
    EqualMarker,
    DeleteMarker,
    InsertMarker,
}

impl SpanKind {
    pub open spec fn name_spec(self) -> Seq<char> {
        match self {
            SpanKind::Equal => "equal"@,
            SpanKind::Delete => "delete"@,
            SpanKind::Insert => "insert"@,
            SpanKind::EqualMarker => "equal-marker"@,
            SpanKind::DeleteMarker => "delete-marker"@,
            SpanKind::InsertMarker => "insert-marker"@,
        }
    }

    /// The report's name for this kind.
    pub fn name(self) -> (name: &'static str)
        ensures
            name@ == self.name_spec(),
    {
        match self {
            SpanKind::Equal => "equal",
            SpanKind::Delete => "delete",
            SpanKind::Insert => "insert",
            SpanKind::EqualMarker => "equal-marker",
            SpanKind::DeleteMarker => "delete-marker",
            SpanKind::InsertMarker => "insert-marker",
        }
    }
}

/// A run of text with one highlight kind.
pub struct InlineSpan {
    pub kind: SpanKind,
    pub text: String,
}

/// The mathematical content of a span.
pub struct SpanModel {
    pub kind: SpanKind,
    pub text: Seq<char>,
}

impl View for InlineSpan {
    type V = SpanModel;

    open spec fn view(&self) -> SpanModel {
        SpanModel { kind: self.kind, text: self.text@ }
    }
}

pub open spec fn view_spans(v: Seq<InlineSpan>) -> Seq<SpanModel> {
    v.map_values(|s: InlineSpan| s@)
}

/// Appends `text` with highlight `kind`: it joins the last span when that span
/// has the same kind, and starts a new span otherwise.
pub open spec fn push_text_spec(spans: Seq<SpanModel>, kind: SpanKind, text: Seq<char>) -> Seq<SpanModel> {
    if spans.len() > 0 && spans.last().kind == kind {
        spans.update(spans.len() - 1, SpanModel { kind, text: spans.last().text + text })
    } else {
        spans.push(SpanModel { kind, text })
    }
}

pub open spec fn display_char_spec(c: char, show_whitespace: bool) -> char {
    if !show_whitespace {
        c
    } else if c == ' ' {
        '\u{b7}'
    } else if c == '\t' {
        '\u{2192}'
    } else if c == '\n' {
        '\u{21b5}'
    } else if c == '\r' {
        '\u{240d}'
    } else {
        c
    }
}

pub open spec fn is_marker_spec(c: char) -> bool {
    c == '\u{b7}' || c == '\u{2192}' || c == '\u{21b5}' || c == '\u{240d}'
}

pub open spec fn marker_kind_spec(kind: SpanKind) -> SpanKind {
    match kind {
        SpanKind::Delete => SpanKind::DeleteMarker,
        SpanKind::Insert => SpanKind::InsertMarker,
        _ => SpanKind::EqualMarker,
    }
}

/// The whitespace characters that are drawn as markers when whitespace is
/// shown: space, tab, line feed and carriage return.
pub open spec fn is_shown_whitespace(c: char) -> bool {
    c == ' ' || c == '\t' || c == '\n' || c == '\r'
}

/// The kind under which a character is displayed: the marker kind exactly
/// when it is whitespace drawn as a marker. A marker character that stands in
/// the text itself keeps the plain kind.
pub open spec fn display_kind_spec(kind: SpanKind, c: char, show_whitespace: bool) -> SpanKind {
    if show_whitespace && is_shown_whitespace(c) {
        marker_kind_spec(kind)
    } else {
        kind
    }
}

pub open spec fn push_display_char_spec(
    spans: Seq<SpanModel>,
    kind: SpanKind,
    c: char,
    show_whitespace: bool,
) -> Seq<SpanModel> {
    push_text_spec(
        spans,
        display_kind_spec(kind, c, show_whitespace),
        seq![display_char_spec(c, show_whitespace)],
    )
}

/// Displays each character of `text` in turn.
pub open spec fn push_display_chars_spec(
    spans: Seq<SpanModel>,
    kind: SpanKind,
    text: Seq<char>,
    show_whitespace: bool,
) -> Seq<SpanModel>
    decreases text.len(),
{
    if text.len() == 0 {
        spans
    } else {
        push_display_char_spec(
            push_display_chars_spec(spans, kind, text.drop_last(), show_whitespace),
            kind,
            text.last(),
            show_whitespace,
        )
    }
}

/// Appends each token in turn as text of one kind.
pub open spec fn push_texts_spec(spans: Seq<SpanModel>, kind: SpanKind, tokens: Seq<Seq<char>>) -> Seq<SpanModel>
    decreases tokens.len(),
{
    if tokens.len() == 0 {
        spans
    } else {
        push_text_spec(push_texts_spec(spans, kind, tokens.drop_last()), kind, tokens.last())
    }
}

/// The tokens written one after the other.
pub open spec fn concat(tokens: Seq<Seq<char>>) -> Seq<char>
    decreases tokens.len(),
{
    if tokens.len() == 0 {
        Seq::<char>::empty()
    } else {
        concat(tokens.drop_last()) + tokens.last()
    }
}

/// Appends tokens with one kind: as plain text, or character by character
/// with whitespace markers when whitespace is shown.
pub open spec fn push_span_spec(
    spans: Seq<SpanModel>,
    kind: SpanKind,
    tokens: Seq<Seq<char>>,
    show_whitespace: bool,
) -> Seq<SpanModel> {
    if !show_whitespace {
        push_texts_spec(spans, kind, tokens)
    } else {
        push_display_chars_spec(spans, kind, concat(tokens), show_whitespace)
    }
}

/// A whole text as spans of one kind.
pub open spec fn display_spans_spec(text: Seq<char>, kind: SpanKind, show_whitespace: bool) -> Seq<SpanModel> {
    if !show_whitespace {
        seq![SpanModel { kind, text }]
    } else {
        push_display_chars_spec(Seq::<SpanModel>::empty(), kind, text, show_whitespace)
    }
}

/// Where the run of spaces and tabs that ends `text` begins.
pub open spec fn trailing_start_spec(text: Seq<char>) -> nat
    decreases text.len(),
{
    if text.len() == 0 {
        0
    } else if text.last() == ' ' || text.last() == '\t' {
        trailing_start_spec(text.drop_last())
    } else {
        text.len()
    }
}

/// An unchanged line with its trailing spaces and tabs shown as markers.
pub open spec fn trailing_whitespace_spans_spec(text: Seq<char>) -> Seq<SpanModel> {
    let start = trailing_start_spec(text) as int;
    let head = if start > 0 {
        push_text_spec(Seq::<SpanModel>::empty(), SpanKind::Equal, text.take(start))
    } else {
        Seq::<SpanModel>::empty()
    };
    push_display_chars_spec(head, SpanKind::Equal, text.skip(start), true)
}

pub open spec fn equal_spans_spec(text: Seq<char>, show_whitespace: bool) -> Option<Seq<SpanModel>> {
    if !show_whitespace || trailing_start_spec(text) >= text.len() {
        None
    } else {
        Some(trailing_whitespace_spans_spec(text))
    }
}

/// How a character is displayed: spaces, tabs, line feeds and carriage
/// returns become visible markers when whitespace is shown.
pub fn display_char(ch: char, show_whitespace: bool) -> (shown: char)
    ensures
        shown == display_char_spec(ch, show_whitespace),
{
    if !show_whitespace {
        return ch;
    }
    if ch == ' ' {
        '\u{b7}'
    } else if ch == '\t' {
        '\u{2192}'
    } else if ch == '\n' {
        '\u{21b5}'
    } else if ch == '\r' {
        '\u{240d}'
    } else {
        ch
    }
}

pub fn is_whitespace_marker(ch: char) -> (marker: bool)
    ensures
        marker == is_marker_spec(ch),
{
    ch == '\u{b7}' || ch == '\u{2192}' || ch == '\u{21b5}' || ch == '\u{240d}'
}

pub fn marker_kind(kind: SpanKind) -> (marker: SpanKind)
    ensures
        marker == marker_kind_spec(kind),
{
    match kind {
        SpanKind::Delete => SpanKind::DeleteMarker,
        SpanKind::Insert => SpanKind::InsertMarker,
        _ => SpanKind::EqualMarker,
    }
}

/// Appends `text` with highlight `kind` (see `push_text_spec`).
pub fn push_text(spans: &mut Vec<InlineSpan>, kind: SpanKind, text: &[char])
    ensures
        view_spans(final(spans)@) == push_text_spec(view_spans(old(spans)@), kind, text@),
{
    let n = spans.len();
    if n > 0 && spans[n - 1].kind == kind {
        let ghost before = spans@;
        let mut last = spans.pop().unwrap();
        let added = string_from_chars(text);
        last.text.append(added.as_str());
        spans.push(last);
        proof {
            assert(spans@ =~= before.update(n - 1, last));
            assert(view_spans(spans@) =~= push_text_spec(view_spans(before), kind, text@));
        }
    } else {
        let ghost before = spans@;
        let span = InlineSpan { kind, text: string_from_chars(text) };
        spans.push(span);
        proof {
            assert(view_spans(spans@) =~= view_spans(before).push(span@));
        }
    }
}

/// Appends one character with highlight `kind`.
pub fn push_char(spans: &mut Vec<InlineSpan>, kind: SpanKind, ch: char)
    ensures
        view_spans(final(spans)@) == push_text_spec(view_spans(old(spans)@), kind, seq![ch]),
{
    let one = [ch];
    proof {
        assert(one@ =~= seq![ch]);
    }
    push_text(spans, kind, &one);
}

/// Appends one character as it is displayed.
pub fn push_display_char(spans: &mut Vec<InlineSpan>, kind: SpanKind, ch: char, show_whitespace: bool)
    ensures
        view_spans(final(spans)@) == push_display_char_spec(view_spans(old(spans)@), kind, ch, show_whitespace),
{
    let displayed = display_char(ch, show_whitespace);
    let kind = if show_whitespace && is_whitespace_marker(displayed) && displayed != ch {
        marker_kind(kind)
    } else {
        kind
    };
    push_char(spans, kind, displayed);
}

/// Appends the characters of `text` one by one as they are displayed.
pub fn push_display_chars(spans: &mut Vec<InlineSpan>, kind: SpanKind, text: &[char], show_whitespace: bool)
    ensures
        view_spans(final(spans)@) == push_display_chars_spec(view_spans(old(spans)@), kind, text@, show_whitespace),
{
    let ghost start = view_spans(spans@);
    let mut i: usize = 0;
    while i < text.len()
        invariant
            i <= text.len(),
            view_spans(spans@) == push_display_chars_spec(start, kind, text@.take(i as int), show_whitespace),
        decreases text.len() - i,
    {
        proof {
            assert(text@.take(i + 1).drop_last() =~= text@.take(i as int));
        }
        push_display_char(spans, kind, text[i], show_whitespace);
        i = i + 1;
    }
    proof {
        assert(text@.take(text@.len() as int) =~= text@);
    }
}

/// A whole text as spans of one kind (see `display_spans_spec`).
pub fn display_spans(text: &[char], kind: SpanKind, show_whitespace: bool) -> (spans: Vec<InlineSpan>)
    ensures
        view_spans(spans@) == display_spans_spec(text@, kind, show_whitespace),
{
    if !show_whitespace {
        let span = InlineSpan { kind, text: string_from_chars(text) };
        let spans = vec![span];
        proof {
            assert(view_spans(spans@) =~= seq![span@]);
        }
        return spans;
    }
    let mut spans: Vec<InlineSpan> = Vec::new();
    proof {
        assert(view_spans(spans@) =~= Seq::<SpanModel>::empty());
    }
    push_display_chars(&mut spans, kind, text, show_whitespace);
    spans
}

pub fn deleted_spans(text: &[char], show_whitespace: bool) -> (spans: Vec<InlineSpan>)
    ensures
        view_spans(spans@) == display_spans_spec(text@, SpanKind::Delete, show_whitespace),
{
    display_spans(text, SpanKind::Delete, show_whitespace)
}

pub fn inserted_spans(text: &[char], show_whitespace: bool) -> (spans: Vec<InlineSpan>)
    ensures
        view_spans(spans@) == display_spans_spec(text@, SpanKind::Insert, show_whitespace),
{
    display_spans(text, SpanKind::Insert, show_whitespace)
}

/// Where the run of spaces and tabs that ends `text` begins.
pub fn trailing_horizontal_whitespace_start(text: &[char]) -> (start: usize)
    ensures
        start == trailing_start_spec(text@),
{
    let mut start = text.len();
    proof {
        assert(text@.take(text@.len() as int) =~= text@);
    }
    while start > 0 && (text[start - 1] == ' ' || text[start - 1] == '\t')
        invariant
            start <= text.len(),
            trailing_start_spec(text@.take(start as int)) == trailing_start_spec(text@),
        decreases start,
    {
        proof {
            assert(text@.take(start as int).drop_last() =~= text@.take(start - 1));
        }
        start = start - 1;
    }
    proof {
        if start > 0 {
            assert(text@.take(start as int).last() == text@[start - 1]);
        }
    }
    start
}

proof fn lemma_trailing_start_take(text: Seq<char>)
    ensures
        trailing_start_spec(text) <= text.len(),
        trailing_start_spec(text.take(text.len() as int)) == trailing_start_spec(text),
    decreases text.len(),
{
    assert(text.take(text.len() as int) =~= text);
    if text.len() > 0 {
        lemma_trailing_start_take(text.drop_last());
    }
}

pub fn has_trailing_horizontal_whitespace(text: &[char]) -> (has: bool)
    ensures
        has == (trailing_start_spec(text@) < text@.len()),
{
    trailing_horizontal_whitespace_start(text) < text.len()
}

/// An unchanged line whose trailing spaces and tabs are shown as markers.
pub fn display_trailing_whitespace_spans(text: &[char]) -> (spans: Vec<InlineSpan>)
    ensures
        view_spans(spans@) == trailing_whitespace_spans_spec(text@),
{
    let start = trailing_horizontal_whitespace_start(text);
    proof {
        lemma_trailing_start_take(text@);
    }
    let mut spans: Vec<InlineSpan> = Vec::new();
    proof {
        assert(view_spans(spans@) =~= Seq::<SpanModel>::empty());
    }
    if start > 0 {
        let head = slice_prefix(text, start);
        push_text(&mut spans, SpanKind::Equal, &head);
    }
    let tail = slice_suffix(text, start);
    push_display_chars(&mut spans, SpanKind::Equal, &tail, true);
    spans
}

/// Unchanged lines get spans only when whitespace is shown and the line ends
/// with spaces or tabs.
pub fn equal_spans(text: &[char], show_whitespace: bool) -> (spans: Option<Vec<InlineSpan>>)
    ensures
        spans matches Some(s) ==> equal_spans_spec(text@, show_whitespace) == Some(view_spans(s@)),
        spans is None ==> equal_spans_spec(text@, show_whitespace) is None,
{
    if !show_whitespace || !has_trailing_horizontal_whitespace(text) {
        return None;
    }
    Some(display_trailing_whitespace_spans(text))
}

/// The first `n` characters of `text`.
fn slice_prefix(text: &[char], n: usize) -> (head: Vec<char>)
    requires
        n <= text@.len(),
    ensures
        head@ == text@.take(n as int),
{
    let mut head: Vec<char> = Vec::new();
    let mut i: usize = 0;
    while i < n
        invariant
            i <= n <= text@.len(),
            head@ == text@.take(i as int),
        decreases n - i,
    {
        head.push(text[i]);
        i = i + 1;
        proof {
            assert(head@ =~= text@.take(i as int));
        }
    }
    head
}

/// The characters of `text` from position `n` on.
fn slice_suffix(text: &[char], n: usize) -> (tail: Vec<char>)
    requires
        n <= text@.len(),
    ensures
        tail@ == text@.skip(n as int),
{
    let mut tail: Vec<char> = Vec::new();
    let mut i: usize = n;
    while i < text.len()
        invariant
            n <= i <= text@.len(),
            tail@ == text@.subrange(n as int, i as int),
        decreases text.len() - i,
    {
        tail.push(text[i]);
        i = i + 1;
        proof {
            assert(tail@ =~= text@.subrange(n as int, i as int));
        }
    }
    proof {
        assert(tail@ =~= text@.skip(n as int));
    }
    tail
}

/// The texts of spans written one after the other.
pub open spec fn spans_text(spans: Seq<SpanModel>) -> Seq<char>
    decreases spans.len(),
{
    if spans.len() == 0 {
        Seq::<char>::empty()
    } else {
        spans_text(spans.drop_last()) + spans.last().text
    }
}

/// `shown` is `text` with some of its whitespace characters drawn as their
/// visible markers, one for one, and every other character kept.
pub open spec fn shows(shown: Seq<char>, text: Seq<char>) -> bool {
    &&& shown.len() == text.len()
    &&& forall|i: int|
        0 <= i < text.len() ==> #[trigger] shown[i] == text[i] || shown[i] == display_char_spec(text[i], true)
}

pub proof fn lemma_shows_append(a: Seq<char>, b: Seq<char>, c: Seq<char>, d: Seq<char>)
    requires
        shows(a, b),
        shows(c, d),
    ensures
        shows(a + c, b + d),
{
    assert forall|i: int| 0 <= i < (b + d).len() implies #[trigger] (a + c)[i] == (b + d)[i] || (a + c)[i]
        == display_char_spec((b + d)[i], true) by {
        if i < b.len() {
            assert((a + c)[i] == a[i] && (b + d)[i] == b[i]);
        } else {
            assert((a + c)[i] == c[i - b.len()] && (b + d)[i] == d[i - b.len()]);
        }
    }
}

pub proof fn lemma_shows_displayed(text: Seq<char>, show_whitespace: bool)
    ensures
        shows(text.map_values(|c: char| display_char_spec(c, show_whitespace)), text),
{
}

pub proof fn lemma_shows_same(text: Seq<char>)
    ensures
        shows(text, text),
{
}

/// The text of the unchanged spans, in order.
pub open spec fn equal_text(spans: Seq<SpanModel>) -> Seq<char>
    decreases spans.len(),
{
    if spans.len() == 0 {
        Seq::<char>::empty()
    } else {
        equal_text(spans.drop_last()) + if spans.last().kind == SpanKind::Equal {
            spans.last().text
        } else {
            Seq::<char>::empty()
        }
    }
}

/// A kind that may stand on the side of `side` (delete or insert): unchanged,
/// the side's own kind, or the side's marker kind when whitespace is shown.
pub open spec fn side_kind(kind: SpanKind, side: SpanKind, show_whitespace: bool) -> bool {
    kind == SpanKind::Equal || kind == side || (show_whitespace && kind == marker_kind_spec(side))
}

pub open spec fn kinds_of_side(spans: Seq<SpanModel>, side: SpanKind, show_whitespace: bool) -> bool {
    forall|i: int| 0 <= i < spans.len() ==> side_kind(#[trigger] spans[i].kind, side, show_whitespace)
}

/// No span is empty.
pub open spec fn texts_nonempty(spans: Seq<SpanModel>) -> bool {
    forall|i: int| 0 <= i < spans.len() ==> #[trigger] spans[i].text.len() > 0
}

pub open spec fn tokens_nonempty(tokens: Seq<Seq<char>>) -> bool {
    forall|i: int| 0 <= i < tokens.len() ==> #[trigger] tokens[i].len() > 0
}

pub proof fn lemma_push_text_sides(
    spans: Seq<SpanModel>,
    kind: SpanKind,
    text: Seq<char>,
    side: SpanKind,
    show_whitespace: bool,
)
    ensures
        equal_text(push_text_spec(spans, kind, text)) == equal_text(spans) + if kind == SpanKind::Equal {
            text
        } else {
            Seq::<char>::empty()
        },
        kinds_of_side(spans, side, show_whitespace) && side_kind(kind, side, show_whitespace) ==> kinds_of_side(
            push_text_spec(spans, kind, text),
            side,
            show_whitespace,
        ),
        texts_nonempty(spans) && text.len() > 0 ==> texts_nonempty(push_text_spec(spans, kind, text)),
{
    let r = push_text_spec(spans, kind, text);
    if spans.len() > 0 && spans.last().kind == kind {
        assert(r.drop_last() =~= spans.drop_last());
        if kind == SpanKind::Equal {
            assert(equal_text(r) =~= equal_text(spans) + text);
        } else {
            assert(equal_text(r) =~= equal_text(spans) + Seq::<char>::empty());
        }
        assert forall|i: int| 0 <= i < r.len() && i < r.len() - 1 implies r[i] == spans[i] by {}
    } else {
        assert(r.drop_last() =~= spans);
        if kind == SpanKind::Equal {
            assert(equal_text(r) =~= equal_text(spans) + text);
        } else {
            assert(equal_text(r) =~= equal_text(spans) + Seq::<char>::empty());
        }
    }
    if kinds_of_side(spans, side, show_whitespace) && side_kind(kind, side, show_whitespace) {
        assert forall|i: int| 0 <= i < r.len() implies side_kind(#[trigger] r[i].kind, side, show_whitespace) by {
            if i < spans.len() && !(spans.len() > 0 && spans.last().kind == kind && i == spans.len() - 1) {
                assert(r[i] == spans[i]);
            }
        }
    }
    if texts_nonempty(spans) && text.len() > 0 {
        assert forall|i: int| 0 <= i < r.len() implies #[trigger] r[i].text.len() > 0 by {
            if i < spans.len() && !(spans.len() > 0 && spans.last().kind == kind && i == spans.len() - 1) {
                assert(r[i] == spans[i]);
            }
        }
    }
}

pub proof fn lemma_push_texts_sides(
    spans: Seq<SpanModel>,
    kind: SpanKind,
    tokens: Seq<Seq<char>>,
    side: SpanKind,
    show_whitespace: bool,
)
    ensures
        equal_text(push_texts_spec(spans, kind, tokens)) == equal_text(spans) + if kind == SpanKind::Equal {
            concat(tokens)
        } else {
            Seq::<char>::empty()
        },
        kinds_of_side(spans, side, show_whitespace) && side_kind(kind, side, show_whitespace) ==> kinds_of_side(
            push_texts_spec(spans, kind, tokens),
            side,
            show_whitespace,
        ),
        texts_nonempty(spans) && tokens_nonempty(tokens) ==> texts_nonempty(push_texts_spec(spans, kind, tokens)),
    decreases tokens.len(),
{
    if tokens.len() == 0 {
        assert(equal_text(spans) + Seq::<char>::empty() =~= equal_text(spans));
        assert(equal_text(spans) + concat(tokens) =~= equal_text(spans));
    } else {
        let prev = push_texts_spec(spans, kind, tokens.drop_last());
        assert(tokens_nonempty(tokens) ==> tokens_nonempty(tokens.drop_last())) by {
            if tokens_nonempty(tokens) {
                assert forall|i: int| 0 <= i < tokens.drop_last().len() implies #[trigger] tokens.drop_last()[i].len()
                    > 0 by {
                    assert(tokens.drop_last()[i] == tokens[i]);
                }
            }
        }
        lemma_push_texts_sides(spans, kind, tokens.drop_last(), side, show_whitespace);
        lemma_push_text_sides(prev, kind, tokens.last(), side, show_whitespace);
        assert(tokens_nonempty(tokens) ==> tokens[tokens.len() - 1].len() > 0);
        if kind == SpanKind::Equal {
            assert(equal_text(spans) + concat(tokens.drop_last()) + tokens.last() =~= equal_text(spans) + concat(
                tokens,
            ));
        } else {
            assert(equal_text(spans) + Seq::<char>::empty() + Seq::<char>::empty() =~= equal_text(spans)
                + Seq::<char>::empty());
        }
    }
}

/// Displaying characters as changed text (deleted or inserted) adds no
/// unchanged text, keeps to the side's kinds, and adds no empty span.
pub proof fn lemma_push_display_chars_sides(
    spans: Seq<SpanModel>,
    side: SpanKind,
    text: Seq<char>,
    show_whitespace: bool,
)
    requires
        side == SpanKind::Delete || side == SpanKind::Insert,
    ensures
        equal_text(push_display_chars_spec(spans, side, text, show_whitespace)) == equal_text(spans),
        kinds_of_side(spans, side, show_whitespace) ==> kinds_of_side(
            push_display_chars_spec(spans, side, text, show_whitespace),
            side,
            show_whitespace,
        ),
        texts_nonempty(spans) ==> texts_nonempty(push_display_chars_spec(spans, side, text, show_whitespace)),
    decreases text.len(),
{
    if text.len() > 0 {
        let prev = push_display_chars_spec(spans, side, text.drop_last(), show_whitespace);
        let c = text.last();
        lemma_push_display_chars_sides(spans, side, text.drop_last(), show_whitespace);
        let k = display_kind_spec(side, c, show_whitespace);
        lemma_push_text_sides(prev, k, seq![display_char_spec(c, show_whitespace)], side, show_whitespace);
        assert(k != SpanKind::Equal);
        assert(side_kind(k, side, show_whitespace));
        assert(equal_text(prev) + Seq::<char>::empty() =~= equal_text(prev));
    }
}

/// A changed span holds no whitespace that should have been drawn as a
/// marker, and a changed marker span holds only markers.
pub open spec fn marks_fit(span: SpanModel) -> bool {
    &&& (span.kind == SpanKind::Delete || span.kind == SpanKind::Insert) ==> forall|q: int|
        0 <= q < span.text.len() ==> !is_shown_whitespace(#[trigger] span.text[q])
    &&& (span.kind == SpanKind::DeleteMarker || span.kind == SpanKind::InsertMarker) ==> forall|q: int|
        0 <= q < span.text.len() ==> is_marker_spec(#[trigger] span.text[q])
}

pub open spec fn all_marks_fit(spans: Seq<SpanModel>) -> bool {
    forall|i: int| 0 <= i < spans.len() ==> marks_fit(#[trigger] spans[i])
}

pub proof fn lemma_push_text_marks(spans: Seq<SpanModel>, kind: SpanKind, text: Seq<char>)
    requires
        all_marks_fit(spans),
        marks_fit(SpanModel { kind, text }),
    ensures
        all_marks_fit(push_text_spec(spans, kind, text)),
{
    let r = push_text_spec(spans, kind, text);
    assert forall|i: int| 0 <= i < r.len() implies marks_fit(#[trigger] r[i]) by {
        if spans.len() > 0 && spans.last().kind == kind && i == spans.len() - 1 {
            let old_last = spans[i];
            let t = old_last.text + text;
            assert(r[i] == SpanModel { kind, text: t });
            assert(marks_fit(old_last));
            assert(old_last.kind == kind);
            let fresh = SpanModel { kind, text };
            assert(marks_fit(fresh));
            let n = old_last.text.len() as int;
            if kind == SpanKind::Delete || kind == SpanKind::Insert {
                assert forall|q: int| 0 <= q < t.len() implies !is_shown_whitespace(#[trigger] t[q]) by {
                    if q < n {
                        assert(t[q] == old_last.text[q]);
                    } else {
                        assert(t[q] == fresh.text[q - n]);
                    }
                }
            }
            if kind == SpanKind::DeleteMarker || kind == SpanKind::InsertMarker {
                assert forall|q: int| 0 <= q < t.len() implies is_marker_spec(#[trigger] t[q]) by {
                    if q < n {
                        assert(t[q] == old_last.text[q]);
                    } else {
                        assert(t[q] == fresh.text[q - n]);
                    }
                }
            }
        } else if i < spans.len() {
            assert(r[i] == spans[i]);
        }
    }
}

pub proof fn lemma_push_texts_marks(spans: Seq<SpanModel>, tokens: Seq<Seq<char>>)
    requires
        all_marks_fit(spans),
    ensures
        all_marks_fit(push_texts_spec(spans, SpanKind::Equal, tokens)),
    decreases tokens.len(),
{
    if tokens.len() > 0 {
        lemma_push_texts_marks(spans, tokens.drop_last());
        lemma_push_text_marks(push_texts_spec(spans, SpanKind::Equal, tokens.drop_last()), SpanKind::Equal, tokens.last());
    }
}

/// Displaying changed characters with whitespace shown draws every space,
/// tab, line feed and carriage return as its marker under the marker kind,
/// and leaves every other character under the plain kind.
pub proof fn lemma_push_display_chars_marks(spans: Seq<SpanModel>, side: SpanKind, text: Seq<char>)
    requires
        side == SpanKind::Delete || side == SpanKind::Insert,
        all_marks_fit(spans),
    ensures
        all_marks_fit(push_display_chars_spec(spans, side, text, true)),
    decreases text.len(),
{
    if text.len() > 0 {
        let c = text.last();
        lemma_push_display_chars_marks(spans, side, text.drop_last());
        let k = display_kind_spec(side, c, true);
        let shown = seq![display_char_spec(c, true)];
        assert(marks_fit(SpanModel { kind: k, text: shown })) by {
            assert(shown[0] == display_char_spec(c, true));
        }
        lemma_push_text_marks(push_display_chars_spec(spans, side, text.drop_last(), true), k, shown);
    }
}

/// With whitespace shown, the spans of a whole deleted or inserted line draw
/// all its whitespace as markers.
pub proof fn law_display_spans_mark_whitespace(text: Seq<char>, side: SpanKind)
    requires
        side == SpanKind::Delete || side == SpanKind::Insert,
    ensures
        all_marks_fit(display_spans_spec(text, side, true)),
{
    lemma_push_display_chars_marks(Seq::<SpanModel>::empty(), side, text);
}

/// The kind of each character of the spans' text, in order.
pub open spec fn span_kinds(spans: Seq<SpanModel>) -> Seq<SpanKind>
    decreases spans.len(),
{
    if spans.len() == 0 {
        Seq::<SpanKind>::empty()
    } else {
        span_kinds(spans.drop_last()) + Seq::new(spans.last().text.len(), |q: int| spans.last().kind)
    }
}

pub open spec fn is_marker_kind(kind: SpanKind) -> bool {
    kind == SpanKind::EqualMarker || kind == SpanKind::DeleteMarker || kind == SpanKind::InsertMarker
}

/// `shown`, with a kind for each of its characters, displays `text`: a
/// character under a marker kind is whitespace of the text drawn as its
/// marker, every other character is the text's own; and when whitespace is
/// shown, no character under a plain changed kind is whitespace that should
/// have been drawn.
pub open spec fn displays(shown: Seq<char>, kinds: Seq<SpanKind>, text: Seq<char>, show_whitespace: bool) -> bool {
    &&& shown.len() == text.len()
    &&& kinds.len() == text.len()
    &&& forall|p: int|
        0 <= p < text.len() ==> #[trigger] shown[p] == if is_marker_kind(kinds[p]) {
            display_char_spec(text[p], true)
        } else {
            text[p]
        }
    &&& forall|p: int| 0 <= p < text.len() && is_marker_kind(#[trigger] kinds[p]) ==> is_shown_whitespace(text[p])
    &&& forall|p: int|
        0 <= p < text.len() && show_whitespace && (kinds[p] == SpanKind::Delete || #[trigger] kinds[p]
            == SpanKind::Insert) ==> !is_shown_whitespace(text[p])
}

pub proof fn lemma_displays_append(
    a: Seq<char>,
    ka: Seq<SpanKind>,
    ta: Seq<char>,
    b: Seq<char>,
    kb: Seq<SpanKind>,
    tb: Seq<char>,
    show_whitespace: bool,
)
    requires
        displays(a, ka, ta, show_whitespace),
        displays(b, kb, tb, show_whitespace),
    ensures
        displays(a + b, ka + kb, ta + tb, show_whitespace),
{
    let n = ta.len() as int;
    assert forall|p: int| 0 <= p < (ta + tb).len() implies #[trigger] (a + b)[p] == if is_marker_kind((ka + kb)[p]) {
        display_char_spec((ta + tb)[p], true)
    } else {
        (ta + tb)[p]
    } by {
        if p < n {
            assert((a + b)[p] == a[p] && (ka + kb)[p] == ka[p] && (ta + tb)[p] == ta[p]);
        } else {
            assert((a + b)[p] == b[p - n] && (ka + kb)[p] == kb[p - n] && (ta + tb)[p] == tb[p - n]);
        }
    }
    assert forall|p: int| 0 <= p < (ta + tb).len() && is_marker_kind(#[trigger] (ka + kb)[p]) implies is_shown_whitespace(
        (ta + tb)[p],
    ) by {
        if p < n {
            assert((ka + kb)[p] == ka[p] && (ta + tb)[p] == ta[p]);
        } else {
            assert((ka + kb)[p] == kb[p - n] && (ta + tb)[p] == tb[p - n]);
        }
    }
    assert forall|p: int|
        0 <= p < (ta + tb).len() && show_whitespace && ((ka + kb)[p] == SpanKind::Delete || #[trigger] (ka + kb)[p]
            == SpanKind::Insert) implies !is_shown_whitespace((ta + tb)[p]) by {
        if p < n {
            assert((ka + kb)[p] == ka[p] && (ta + tb)[p] == ta[p]);
        } else {
            assert((ka + kb)[p] == kb[p - n] && (ta + tb)[p] == tb[p - n]);
        }
    }
}

pub proof fn lemma_push_text_kinds(spans: Seq<SpanModel>, kind: SpanKind, text: Seq<char>)
    ensures
        spans_text(push_text_spec(spans, kind, text)) == spans_text(spans) + text,
        span_kinds(push_text_spec(spans, kind, text)) == span_kinds(spans) + Seq::new(text.len(), |q: int| kind),
{
    let r = push_text_spec(spans, kind, text);
    if spans.len() > 0 && spans.last().kind == kind {
        assert(r.drop_last() =~= spans.drop_last());
        assert(spans_text(r) =~= spans_text(spans) + text);
        let l = spans.last();
        assert(Seq::new(l.text.len() + text.len(), |q: int| kind) =~= Seq::new(l.text.len(), |q: int| l.kind)
            + Seq::new(text.len(), |q: int| kind));
        assert(span_kinds(r) =~= span_kinds(spans) + Seq::new(text.len(), |q: int| kind));
    } else {
        assert(r.drop_last() =~= spans);
    }
}

/// Text that is kept as it is, under a kind that is not a marker kind and,
/// when whitespace is shown, not a changed kind unless it holds no whitespace
/// to draw, displays itself.
pub proof fn lemma_push_texts_display(spans: Seq<SpanModel>, kind: SpanKind, tokens: Seq<Seq<char>>, show_whitespace: bool)
    requires
        !is_marker_kind(kind),
        show_whitespace ==> kind == SpanKind::Equal,
    ensures
        spans_text(push_texts_spec(spans, kind, tokens)).len() >= spans_text(spans).len(),
        spans_text(push_texts_spec(spans, kind, tokens)).take(spans_text(spans).len() as int) == spans_text(spans),
        span_kinds(push_texts_spec(spans, kind, tokens)) == span_kinds(spans) + Seq::new(
            concat(tokens).len(),
            |q: int| kind,
        ),
        spans_text(push_texts_spec(spans, kind, tokens)).skip(spans_text(spans).len() as int) == concat(tokens),
        displays(concat(tokens), Seq::new(concat(tokens).len(), |q: int| kind), concat(tokens), show_whitespace),
    decreases tokens.len(),
{
    if tokens.len() == 0 {
        assert(spans_text(spans).take(spans_text(spans).len() as int) =~= spans_text(spans));
        assert(span_kinds(spans) + Seq::new(0, |q: int| kind) =~= span_kinds(spans));
        assert(spans_text(spans).skip(spans_text(spans).len() as int) =~= concat(tokens));
    } else {
        let prev = push_texts_spec(spans, kind, tokens.drop_last());
        lemma_push_texts_display(spans, kind, tokens.drop_last(), show_whitespace);
        lemma_push_text_kinds(prev, kind, tokens.last());
        let n = spans_text(spans).len() as int;
        let pt = spans_text(prev);
        assert(pt =~= pt.take(n) + pt.skip(n));
        assert(spans_text(push_texts_spec(spans, kind, tokens)) =~= spans_text(spans) + concat(tokens));
        assert(Seq::new(concat(tokens.drop_last()).len(), |q: int| kind) + Seq::new(tokens.last().len(), |q: int| kind)
            =~= Seq::new(concat(tokens).len(), |q: int| kind));
    }
}

/// Characters displayed one by one as changed text display themselves.
pub proof fn lemma_push_display_chars_display(spans: Seq<SpanModel>, side: SpanKind, text: Seq<char>)
    requires
        side == SpanKind::Delete || side == SpanKind::Insert,
    ensures
        spans_text(push_display_chars_spec(spans, side, text, true)) == spans_text(spans) + text.map_values(
            |c: char| display_char_spec(c, true),
        ),
        span_kinds(push_display_chars_spec(spans, side, text, true)) == span_kinds(spans) + text.map_values(
            |c: char| display_kind_spec(side, c, true),
        ),
        displays(
            text.map_values(|c: char| display_char_spec(c, true)),
            text.map_values(|c: char| display_kind_spec(side, c, true)),
            text,
            true,
        ),
    decreases text.len(),
{
    if text.len() == 0 {
        assert(spans_text(spans) + text.map_values(|c: char| display_char_spec(c, true)) =~= spans_text(spans));
        assert(span_kinds(spans) + text.map_values(|c: char| display_kind_spec(side, c, true)) =~= span_kinds(spans));
    } else {
        let c = text.last();
        let prev = push_display_chars_spec(spans, side, text.drop_last(), true);
        lemma_push_display_chars_display(spans, side, text.drop_last());
        let k = display_kind_spec(side, c, true);
        lemma_push_text_kinds(prev, k, seq![display_char_spec(c, true)]);
        assert(text.drop_last().map_values(|c: char| display_char_spec(c, true)).push(display_char_spec(c, true))
            =~= text.map_values(|c: char| display_char_spec(c, true)));
        assert(text.drop_last().map_values(|c: char| display_kind_spec(side, c, true)) + Seq::new(1, |q: int| k)
            =~= text.map_values(|c: char| display_kind_spec(side, c, true)));
        assert(spans_text(push_display_chars_spec(spans, side, text, true)) =~= spans_text(spans) + text.map_values(
            |c: char| display_char_spec(c, true),
        ));
        assert(span_kinds(push_display_chars_spec(spans, side, text, true)) =~= span_kinds(spans) + text.map_values(
            |c: char| display_kind_spec(side, c, true),
        ));
    }
}

pub proof fn lemma_span_kinds_len(spans: Seq<SpanModel>)
    ensures
        span_kinds(spans).len() == spans_text(spans).len(),
    decreases spans.len(),
{
    if spans.len() > 0 {
        lemma_span_kinds_len(spans.drop_last());
    }
}

/// No two neighbouring spans have the same kind.
pub open spec fn kinds_alternate(spans: Seq<SpanModel>) -> bool {
    forall|i: int, j: int| 0 <= i && j == i + 1 && j < spans.len() ==> #[trigger] spans[i].kind != #[trigger] spans[j].kind
}

/// Appending text to spans keeps neighbouring kinds distinct and extends the
/// spans' text by exactly that text.
pub proof fn law_push_text(spans: Seq<SpanModel>, kind: SpanKind, text: Seq<char>)
    requires
        kinds_alternate(spans),
    ensures
        kinds_alternate(push_text_spec(spans, kind, text)),
        spans_text(push_text_spec(spans, kind, text)) == spans_text(spans) + text,
{
    let r = push_text_spec(spans, kind, text);
    if spans.len() > 0 && spans.last().kind == kind {
        assert(r.drop_last() =~= spans.drop_last());
        assert(spans_text(r) =~= spans_text(spans) + text);
        assert forall|i: int, j: int| 0 <= i && j == i + 1 && j < r.len() implies #[trigger] r[i].kind != #[trigger] r[j].kind by {
            assert(r[i].kind == spans[i].kind);
            assert(r[j].kind == spans[j].kind);
        }
    } else {
        assert(r.drop_last() =~= spans);
        assert forall|i: int, j: int| 0 <= i && j == i + 1 && j < r.len() implies #[trigger] r[i].kind != #[trigger] r[j].kind by {
            assert(r[i] == spans[i]);
            if j < spans.len() {
                assert(r[j] == spans[j]);
            }
        }
    }
}

/// Displaying characters one by one keeps neighbouring kinds distinct and
/// extends the spans' text by the displayed characters.
pub proof fn law_push_display_chars(spans: Seq<SpanModel>, kind: SpanKind, text: Seq<char>, show_whitespace: bool)
    requires
        kinds_alternate(spans),
    ensures
        kinds_alternate(push_display_chars_spec(spans, kind, text, show_whitespace)),
        spans_text(push_display_chars_spec(spans, kind, text, show_whitespace)) == spans_text(spans) + text.map_values(
            |c: char| display_char_spec(c, show_whitespace),
        ),
    decreases text.len(),
{
    if text.len() == 0 {
        assert(spans_text(spans) + text.map_values(|c: char| display_char_spec(c, show_whitespace)) =~= spans_text(spans));
    } else {
        law_push_display_chars(spans, kind, text.drop_last(), show_whitespace);
        let prev = push_display_chars_spec(spans, kind, text.drop_last(), show_whitespace);
        let c = text.last();
        law_push_text(prev, display_kind_spec(kind, c, show_whitespace), seq![display_char_spec(c, show_whitespace)]);
        assert(text.map_values(|c: char| display_char_spec(c, show_whitespace)) =~= text.drop_last().map_values(
            |c: char| display_char_spec(c, show_whitespace),
        ) + seq![display_char_spec(c, show_whitespace)]);
    }
}

/// The spans of a whole text spell the text, with whitespace markers in place
/// of whitespace when whitespace is shown, and no two neighbouring spans share
/// a kind.
pub proof fn law_display_spans(text: Seq<char>, kind: SpanKind, show_whitespace: bool)
    ensures
        kinds_alternate(display_spans_spec(text, kind, show_whitespace)),
        spans_text(display_spans_spec(text, kind, show_whitespace)) == text.map_values(
            |c: char| display_char_spec(c, show_whitespace),
        ),
{
    if show_whitespace {
        law_push_display_chars(Seq::<SpanModel>::empty(), kind, text, show_whitespace);
        assert(spans_text(Seq::<SpanModel>::empty()) + text.map_values(|c: char| display_char_spec(c, show_whitespace))
            =~= text.map_values(|c: char| display_char_spec(c, show_whitespace)));
    } else {
        let r = display_spans_spec(text, kind, show_whitespace);
        assert(r.drop_last() =~= Seq::<SpanModel>::empty());
        assert(text.map_values(|c: char| display_char_spec(c, show_whitespace)) =~= text);
        assert(spans_text(r.drop_last()) =~= Seq::<char>::empty());
        assert(r.last().text == text);
        assert(spans_text(r) =~= text);
    }
}

/// Appending tokens as text extends the spans' text by the tokens written one
/// after the other.
pub proof fn lemma_push_texts(spans: Seq<SpanModel>, kind: SpanKind, tokens: Seq<Seq<char>>)
    requires
        kinds_alternate(spans),
    ensures
        kinds_alternate(push_texts_spec(spans, kind, tokens)),
        spans_text(push_texts_spec(spans, kind, tokens)) == spans_text(spans) + concat(tokens),
    decreases tokens.len(),
{
    if tokens.len() == 0 {
        assert(spans_text(spans) + concat(tokens) =~= spans_text(spans));
    } else {
        lemma_push_texts(spans, kind, tokens.drop_last());
        law_push_text(push_texts_spec(spans, kind, tokens.drop_last()), kind, tokens.last());
        assert(spans_text(spans) + concat(tokens.drop_last()) + tokens.last() =~= spans_text(spans) + concat(tokens));
    }
}

pub proof fn lemma_concat_append(a: Seq<Seq<char>>, b: Seq<Seq<char>>)
    ensures
        concat(a + b) == concat(a) + concat(b),
    decreases b.len(),
{
    if b.len() == 0 {
        assert(a + b =~= a);
        assert(concat(a) + concat(b) =~= concat(a));
    } else {
        lemma_concat_append(a, b.drop_last());
        assert((a + b).drop_last() =~= a + b.drop_last());
        assert(concat(a + b) =~= concat(a) + concat(b));
    }
}

/// The spans of an unchanged line with trailing whitespace spell the line,
/// with its trailing spaces and tabs shown as markers, and no two
/// neighbouring spans share a kind.
pub proof fn law_trailing_whitespace_spans(text: Seq<char>)
    ensures
        kinds_alternate(trailing_whitespace_spans_spec(text)),
        spans_text(trailing_whitespace_spans_spec(text)) == text.take(trailing_start_spec(text) as int) + text.skip(
            trailing_start_spec(text) as int,
        ).map_values(|c: char| display_char_spec(c, true)),
{
    let start = trailing_start_spec(text) as int;
    lemma_trailing_start_take(text);
    let empty = Seq::<SpanModel>::empty();
    let head = if start > 0 {
        push_text_spec(empty, SpanKind::Equal, text.take(start))
    } else {
        empty
    };
    law_push_text(empty, SpanKind::Equal, text.take(start));
    assert(spans_text(empty) =~= Seq::<char>::empty());
    if start == 0 {
        assert(text.take(start) =~= Seq::<char>::empty());
    }
    assert(spans_text(head) =~= text.take(start));
    law_push_display_chars(head, SpanKind::Equal, text.skip(start), true);
}

/// Spans that are there alternate in kind.
pub open spec fn opt_alternate(spans: Option<Seq<SpanModel>>) -> bool {
    spans matches Some(s) ==> kinds_alternate(s)
}

pub proof fn lemma_equal_spans_alternate(text: Seq<char>, show_whitespace: bool)
    ensures
        opt_alternate(equal_spans_spec(text, show_whitespace)),
{
    law_trailing_whitespace_spans(text);
}

/// Spans, where there are any, show a line that is there.
pub open spec fn opt_shows(spans: Option<Seq<SpanModel>>, line: Option<Seq<char>>) -> bool {
    match spans {
        Some(sp) => line matches Some(t) && shows(spans_text(sp), t),
        None => true,
    }
}

/// The spans of a whole line show it.
pub proof fn lemma_display_spans_show(text: Seq<char>, kind: SpanKind, show_whitespace: bool)
    ensures
        shows(spans_text(display_spans_spec(text, kind, show_whitespace)), text),
{
    law_display_spans(text, kind, show_whitespace);
    lemma_shows_displayed(text, show_whitespace);
}

/// The spans of an unchanged line, where there are any, show it.
pub proof fn lemma_equal_spans_show(text: Seq<char>, show_whitespace: bool)
    ensures
        opt_shows(equal_spans_spec(text, show_whitespace), Some(text)),
{
    if equal_spans_spec(text, show_whitespace) is Some {
        let start = trailing_start_spec(text) as int;
        law_trailing_whitespace_spans(text);
        lemma_shows_same(text.take(start));
        lemma_shows_displayed(text.skip(start), true);
        lemma_shows_append(
            text.take(start),
            text.take(start),
            text.skip(start).map_values(|c: char| display_char_spec(c, true)),
            text.skip(start),
        );
        assert(text.take(start) + text.skip(start) =~= text);
    }
}

} // verus!
