//! Inline highlights of replaced lines: both lines are split into tokens, the
//! tokens are aligned by an edit script, and each side becomes a list of spans.

use vstd::prelude::*;
use crate::text::view_lines;
use crate::spans::InlineSpan;
use crate::spans::SpanKind;
use crate::spans::SpanModel;
use crate::spans::concat;
use crate::spans::deleted_spans;
use crate::spans::display_spans_spec;
use crate::spans::inserted_spans;
use crate::spans::push_display_chars;
use crate::spans::push_display_chars_spec;
use crate::spans::push_span_spec;
use crate::spans::push_text;
use crate::spans::push_texts_spec;
use crate::spans::view_spans;
use crate::spans::spans_text;
use crate::spans::kinds_alternate;
use crate::spans::lemma_push_texts;
use crate::spans::law_push_display_chars;
use crate::spans::lemma_concat_append;
use crate::spans::shows;
use crate::spans::displays;
use crate::spans::display_kind_spec;
use crate::spans::span_kinds;
use crate::spans::lemma_span_kinds_len;
use crate::spans::lemma_displays_append;
use crate::spans::lemma_push_texts_display;
use crate::spans::lemma_push_display_chars_display;
use crate::spans::all_marks_fit;
use crate::spans::lemma_push_texts_marks;
use crate::spans::lemma_push_display_chars_marks;
use crate::spans::equal_text;
use crate::spans::kinds_of_side;
use crate::spans::texts_nonempty;
use crate::spans::tokens_nonempty;
use crate::spans::lemma_push_texts_sides;
use crate::spans::lemma_push_display_chars_sides;
use crate::script::equal_ops_match;
use crate::script::view_strings;
use crate::spans::opt_shows;
use crate::spans::lemma_display_spans_show;
use crate::spans::display_char_spec;
use crate::spans::lemma_shows_append;
use crate::spans::lemma_shows_displayed;
use crate::spans::lemma_shows_same;
use crate::script::fits_all;
use crate::script::old_pos;
use crate::script::new_pos;
use crate::script::lemma_pos_nonneg;
use crate::tokens::law_word_runs_spell;
use crate::tokens::law_char_tokens_spell;
use crate::script::EditOp;
use crate::script::OpTag;
use crate::script::RawOp;
use crate::script::capture_compact_diff_slices;
use crate::script::capture_diff_slices;
use crate::script::compact_diff_ops;
use crate::script::decode_script;
use crate::script::decoded;
use crate::script::diff_ops;
use crate::script::lemma_op_in_bounds;
use crate::script::tags_known;
use crate::script::tiles;
use crate::tokens::char_tokens;
use crate::tokens::char_tokens_spec;
use crate::tokens::grapheme_clusters;
use crate::tokens::tokenize_graphemes;
use crate::tokens::strings_of;
use crate::tokens::tokenize_unicode_words;
use crate::tokens::word_bound_pieces;
use crate::tokens::word_runs;
use crate::tokens::word_tokens;
use crate::options::InlineMode;
use crate::options::Options;

verus! {

/// The spans of the old and of the new side of a row, where present.
pub type SpanPair = (Option<Vec<InlineSpan>>, Option<Vec<InlineSpan>>);

pub open spec fn view_opt_spans(spans: Option<Vec<InlineSpan>>) -> Option<Seq<SpanModel>> {
    match spans {
        Some(v) => Some(view_spans(v@)),
        None => None,
    }
}

pub open spec fn view_pair(pair: SpanPair) -> (Option<Seq<SpanModel>>, Option<Seq<SpanModel>>) {
    (view_opt_spans(pair.0), view_opt_spans(pair.1))
}

pub proof fn lemma_display_chars_append(
    spans: Seq<SpanModel>,
    kind: SpanKind,
    a: Seq<char>,
    b: Seq<char>,
    show_whitespace: bool,
)
    ensures
        push_display_chars_spec(spans, kind, a + b, show_whitespace) == push_display_chars_spec(
            push_display_chars_spec(spans, kind, a, show_whitespace),
            kind,
            b,
            show_whitespace,
        ),
    decreases b.len(),
{
    if b.len() == 0 {
        assert(a + b =~= a);
    } else {
        assert((a + b).drop_last() =~= a + b.drop_last());
        assert((a + b).last() == b.last());
        lemma_display_chars_append(spans, kind, a, b.drop_last(), show_whitespace);
    }
}

/// Appends the tokens `tokens[start..end]` with one kind (see `push_span_spec`).
pub fn push_span(
    spans: &mut Vec<InlineSpan>,
    kind: SpanKind,
    tokens: &Vec<Vec<char>>,
    start: usize,
    end: usize,
    show_whitespace: bool,
)
    requires
        start <= end <= tokens@.len(),
    ensures
        view_spans(final(spans)@) == push_span_spec(
            view_spans(old(spans)@),
            kind,
            view_lines(tokens@).subrange(start as int, end as int),
            show_whitespace,
        ),
{
    let ghost first = view_spans(spans@);
    let ghost toks = view_lines(tokens@).subrange(start as int, end as int);
    if !show_whitespace {
        let mut t = start;
        while t < end
            invariant
                start <= t <= end <= tokens@.len(),
                toks == view_lines(tokens@).subrange(start as int, end as int),
                view_spans(spans@) == push_texts_spec(first, kind, toks.take(t - start)),
            decreases end - t,
        {
            proof {
                assert(toks.take(t - start + 1).drop_last() =~= toks.take(t - start));
                assert(toks.take(t - start + 1).last() == tokens@[t as int]@);
            }
            push_text(spans, kind, tokens[t].as_slice());
            t = t + 1;
        }
        proof {
            assert(toks.take(end - start) =~= toks);
        }
    } else {
        let mut t = start;
        while t < end
            invariant
                start <= t <= end <= tokens@.len(),
                show_whitespace,
                toks == view_lines(tokens@).subrange(start as int, end as int),
                view_spans(spans@) == push_display_chars_spec(first, kind, concat(toks.take(t - start)), true),
            decreases end - t,
        {
            proof {
                assert(toks.take(t - start + 1).drop_last() =~= toks.take(t - start));
                assert(toks.take(t - start + 1).last() == tokens@[t as int]@);
                lemma_display_chars_append(first, kind, concat(toks.take(t - start)), tokens@[t as int]@, true);
            }
            push_display_chars(spans, kind, tokens[t].as_slice(), true);
            t = t + 1;
        }
        proof {
            assert(toks.take(end - start) =~= toks);
        }
    }
}

/// The spans of both sides from a tiling script over the tokens: equal tokens
/// go to both sides, deleted ones to the old side and inserted ones to the new
/// side; whitespace markers are shown only in changed tokens.
pub open spec fn token_spans_spec(
    ops: Seq<EditOp>,
    old_tokens: Seq<Seq<char>>,
    new_tokens: Seq<Seq<char>>,
    show_whitespace: bool,
) -> (Seq<SpanModel>, Seq<SpanModel>)
    decreases ops.len(),
{
    if ops.len() == 0 {
        (Seq::<SpanModel>::empty(), Seq::<SpanModel>::empty())
    } else {
        let prev = token_spans_spec(ops.drop_last(), old_tokens, new_tokens, show_whitespace);
        let op = ops.last();
        let olds = old_tokens.subrange(op.old_start as int, op.old_end as int);
        let news = new_tokens.subrange(op.new_start as int, op.new_end as int);
        match op.tag {
            OpTag::Equal => (
                push_span_spec(prev.0, SpanKind::Equal, olds, false),
                push_span_spec(prev.1, SpanKind::Equal, news, false),
            ),
            OpTag::Delete => (push_span_spec(prev.0, SpanKind::Delete, olds, show_whitespace), prev.1),
            OpTag::Insert => (prev.0, push_span_spec(prev.1, SpanKind::Insert, news, show_whitespace)),
            OpTag::Replace => (
                push_span_spec(prev.0, SpanKind::Delete, olds, show_whitespace),
                push_span_spec(prev.1, SpanKind::Insert, news, show_whitespace),
            ),
        }
    }
}

/// The token script that the options select: with semantic cleanup through
/// the compacting hook, else the captured script.
pub open spec fn inline_raw_ops(
    old_tokens: Seq<Seq<char>>,
    new_tokens: Seq<Seq<char>>,
    options: Options,
) -> Seq<RawOp> {
    if options.semantic_cleanup {
        compact_diff_ops(options.algorithm, old_tokens, new_tokens)
    } else {
        diff_ops(options.algorithm, old_tokens, new_tokens)
    }
}

/// The spans of both sides from a token script, or `None` when the script
/// does not tile the tokens.
pub open spec fn spans_from_script_spec(
    raw: Seq<RawOp>,
    old_tokens: Seq<Seq<char>>,
    new_tokens: Seq<Seq<char>>,
    show_whitespace: bool,
) -> Option<(Seq<SpanModel>, Seq<SpanModel>)> {
    if tags_known(raw) && tiles(decoded(raw), old_tokens.len() as int, new_tokens.len() as int) {
        Some(token_spans_spec(decoded(raw), old_tokens, new_tokens, show_whitespace))
    } else {
        None
    }
}

/// The spans of both sides from the token script that the options select.
pub open spec fn token_result(
    old_tokens: Seq<Seq<char>>,
    new_tokens: Seq<Seq<char>>,
    options: Options,
) -> Option<(Seq<SpanModel>, Seq<SpanModel>)> {
    spans_from_script_spec(
        inline_raw_ops(old_tokens, new_tokens, options),
        old_tokens,
        new_tokens,
        options.show_whitespace,
    )
}

pub open spec fn inline_script_error() -> Seq<char> {
    "inline diff produced an inconsistent edit script"@
}

/// Highlights two token sequences against each other.
pub fn inline_spans_for_tokens(
    old_tokens: &Vec<Vec<char>>,
    new_tokens: &Vec<Vec<char>>,
    options: Options,
) -> (pair: Result<SpanPair, String>)
    ensures
        match pair {
            Ok((Some(o), Some(n))) => token_result(view_lines(old_tokens@), view_lines(new_tokens@), options)
                == Some((view_spans(o@), view_spans(n@))),
            Ok(_) => false,
            Err(e) => token_result(view_lines(old_tokens@), view_lines(new_tokens@), options) is None
                && e@ == inline_script_error(),
        },
        pair matches Ok((Some(o), Some(n))) ==> {
            &&& kinds_of_side(view_spans(o@), SpanKind::Delete, options.show_whitespace)
            &&& kinds_of_side(view_spans(n@), SpanKind::Insert, options.show_whitespace)
            &&& tokens_nonempty(view_lines(old_tokens@)) ==> texts_nonempty(view_spans(o@))
            &&& tokens_nonempty(view_lines(new_tokens@)) ==> texts_nonempty(view_spans(n@))
            &&& equal_text(view_spans(o@)) == equal_text(view_spans(n@))
            &&& options.show_whitespace ==> all_marks_fit(view_spans(o@)) && all_marks_fit(view_spans(n@))
            &&& displays(spans_text(view_spans(o@)), span_kinds(view_spans(o@)), concat(view_lines(old_tokens@)), options.show_whitespace)
            &&& displays(spans_text(view_spans(n@)), span_kinds(view_spans(n@)), concat(view_lines(new_tokens@)), options.show_whitespace)
        },
        pair matches Ok((Some(_), Some(_))),
{
    let old_strings = strings_of(old_tokens);
    let new_strings = strings_of(new_tokens);
    proof {
        assert(view_strings(old_strings@).len() == old_strings@.len());
        assert(view_lines(old_tokens@).len() == old_tokens@.len());
        assert(view_strings(new_strings@).len() == new_strings@.len());
        assert(view_lines(new_tokens@).len() == new_tokens@.len());
    }
    let raw = if options.semantic_cleanup {
        capture_compact_diff_slices(options.algorithm, &old_strings, &new_strings)
    } else {
        capture_diff_slices(options.algorithm, &old_strings, &new_strings)
    };
    proof {
        law_token_spans(raw@, view_lines(old_tokens@), view_lines(new_tokens@), options.show_whitespace);
    }
    spans_from_script(&raw, old_tokens, new_tokens, options.show_whitespace)
}

/// Builds the spans of both sides from a script over the tokens (see
/// `spans_from_script_spec`).
pub fn spans_from_script(
    raw: &Vec<RawOp>,
    old_tokens: &Vec<Vec<char>>,
    new_tokens: &Vec<Vec<char>>,
    show_whitespace: bool,
) -> (pair: Result<SpanPair, String>)
    ensures
        match pair {
            Ok((Some(o), Some(n))) => spans_from_script_spec(
                raw@,
                view_lines(old_tokens@),
                view_lines(new_tokens@),
                show_whitespace,
            ) == Some((view_spans(o@), view_spans(n@))),
            Ok(_) => false,
            Err(e) => spans_from_script_spec(raw@, view_lines(old_tokens@), view_lines(new_tokens@), show_whitespace)
                is None && e@ == inline_script_error(),
        },
        pair matches Ok((Some(o), Some(n))) ==> {
            &&& kinds_of_side(view_spans(o@), SpanKind::Delete, show_whitespace)
            &&& kinds_of_side(view_spans(n@), SpanKind::Insert, show_whitespace)
            &&& tokens_nonempty(view_lines(old_tokens@)) ==> texts_nonempty(view_spans(o@))
            &&& tokens_nonempty(view_lines(new_tokens@)) ==> texts_nonempty(view_spans(n@))
            &&& equal_ops_match(decoded(raw@), view_lines(old_tokens@), view_lines(new_tokens@)) ==> equal_text(
                view_spans(o@),
            ) == equal_text(view_spans(n@))
            &&& show_whitespace ==> all_marks_fit(view_spans(o@)) && all_marks_fit(view_spans(n@))
            &&& displays(spans_text(view_spans(o@)), span_kinds(view_spans(o@)), concat(view_lines(old_tokens@)), show_whitespace)
            &&& displays(spans_text(view_spans(n@)), span_kinds(view_spans(n@)), concat(view_lines(new_tokens@)), show_whitespace)
        },
{
    let ghost old_t = view_lines(old_tokens@);
    let ghost new_t = view_lines(new_tokens@);
    proof {
        law_token_spans(raw@, old_t, new_t, show_whitespace);
    }
    let ops = match decode_script(raw, old_tokens.len(), new_tokens.len()) {
        Some(ops) => ops,
        None => {
            return Err(String::from_str("inline diff produced an inconsistent edit script"));
        },
    };
    let ghost all = ops@;
    let mut old_spans: Vec<InlineSpan> = Vec::new();
    let mut new_spans: Vec<InlineSpan> = Vec::new();
    proof {
        assert(view_spans(old_spans@) =~= Seq::<SpanModel>::empty());
        assert(view_spans(new_spans@) =~= Seq::<SpanModel>::empty());
        assert(all.take(0) =~= Seq::<EditOp>::empty());
    }
    let mut k: usize = 0;
    while k < ops.len()
        invariant
            k <= ops@.len(),
            all == ops@,
            old_t == view_lines(old_tokens@),
            new_t == view_lines(new_tokens@),
            tiles(all, old_t.len() as int, new_t.len() as int),
            (view_spans(old_spans@), view_spans(new_spans@)) == token_spans_spec(
                all.take(k as int),
                old_t,
                new_t,
                show_whitespace,
            ),
        decreases ops.len() - k,
    {
        let op = ops[k];
        proof {
            lemma_op_in_bounds(all, old_t.len() as int, new_t.len() as int, k as int);
            assert(all.take(k + 1).drop_last() =~= all.take(k as int));
            assert(all.take(k + 1).last() == op);
        }
        match op.tag {
            OpTag::Equal => {
                push_span(&mut old_spans, SpanKind::Equal, old_tokens, op.old_start, op.old_end, false);
                push_span(&mut new_spans, SpanKind::Equal, new_tokens, op.new_start, op.new_end, false);
            },
            OpTag::Delete => {
                push_span(
                    &mut old_spans,
                    SpanKind::Delete,
                    old_tokens,
                    op.old_start,
                    op.old_end,
                    show_whitespace,
                );
            },
            OpTag::Insert => {
                push_span(
                    &mut new_spans,
                    SpanKind::Insert,
                    new_tokens,
                    op.new_start,
                    op.new_end,
                    show_whitespace,
                );
            },
            OpTag::Replace => {
                push_span(
                    &mut old_spans,
                    SpanKind::Delete,
                    old_tokens,
                    op.old_start,
                    op.old_end,
                    show_whitespace,
                );
                push_span(
                    &mut new_spans,
                    SpanKind::Insert,
                    new_tokens,
                    op.new_start,
                    op.new_end,
                    show_whitespace,
                );
            },
        }
        k = k + 1;
    }
    proof {
        assert(all.take(all.len() as int) =~= all);
    }
    Ok((Some(old_spans), Some(new_spans)))
}

/// The tokens of a line that the options select.
pub open spec fn line_tokens(line: Seq<char>, options: Options) -> Seq<Seq<char>> {
    match options.inline {
        InlineMode::Chars => if options.unicode {
            grapheme_clusters(line)
        } else {
            char_tokens_spec(line)
        },
        _ => if options.unicode {
            word_bound_pieces(line)
        } else {
            word_runs(line)
        },
    }
}

/// The inline spans of a replaced pair of lines, or `None` when the token
/// script does not tile the tokens.
pub open spec fn inline_result(
    old_line: Seq<char>,
    new_line: Seq<char>,
    options: Options,
) -> Option<(Option<Seq<SpanModel>>, Option<Seq<SpanModel>>)> {
    if options.inline == InlineMode::Disabled {
        Some((None, None))
    } else {
        match token_result(line_tokens(old_line, options), line_tokens(new_line, options), options) {
            Some((o, n)) => Some((Some(o), Some(n))),
            None => None,
        }
    }
}

/// Agreement of an executable span pair outcome with a specified one.
pub open spec fn same_pair_outcome(
    pair: Result<SpanPair, String>,
    spec: Option<(Option<Seq<SpanModel>>, Option<Seq<SpanModel>>)>,
) -> bool {
    match pair {
        Ok(p) => spec == Some(view_pair(p)),
        Err(e) => spec is None && e@ == inline_script_error(),
    }
}

fn tokenize(line: &Vec<char>, options: Options) -> (tokens: Vec<Vec<char>>)
    requires
        options.inline != InlineMode::Disabled,
    ensures
        view_lines(tokens@) == line_tokens(line@, options),
        concat(view_lines(tokens@)) == line@,
{
    proof {
        law_char_tokens_spell(line@);
        law_word_runs_spell(line@);
    }
    match (options.inline, options.unicode) {
        (InlineMode::Chars, true) => tokenize_graphemes(line.as_slice()),
        (InlineMode::Chars, false) => char_tokens(line.as_slice()),
        (_, true) => tokenize_unicode_words(line.as_slice()),
        (_, false) => word_tokens(line.as_slice()),
    }
}

/// Highlights a replaced pair of lines as the options say. Neighbouring
/// spans never share a kind; the spans of each side show that side's line,
/// with whitespace drawn as markers at most, and without whitespace markers
/// spell it; the old side holds unchanged and deleted kinds, the new side
/// unchanged and inserted kinds, and the unchanged text of both sides is the
/// same.
pub fn inline_spans(old_line: &Vec<char>, new_line: &Vec<char>, options: Options) -> (pair: Result<SpanPair, String>)
    ensures
        same_pair_outcome(pair, inline_result(old_line@, new_line@, options)),
        pair matches Ok((Some(o), Some(n))) ==> {
            &&& kinds_alternate(view_spans(o@))
            &&& kinds_alternate(view_spans(n@))
            &&& !options.show_whitespace ==> spans_text(view_spans(o@)) == old_line@ && spans_text(view_spans(n@))
                == new_line@
            &&& shows(spans_text(view_spans(o@)), old_line@)
            &&& shows(spans_text(view_spans(n@)), new_line@)
            &&& kinds_of_side(view_spans(o@), SpanKind::Delete, options.show_whitespace)
            &&& kinds_of_side(view_spans(n@), SpanKind::Insert, options.show_whitespace)
            &&& equal_text(view_spans(o@)) == equal_text(view_spans(n@))
            &&& options.show_whitespace ==> all_marks_fit(view_spans(o@)) && all_marks_fit(view_spans(n@))
            &&& displays(spans_text(view_spans(o@)), span_kinds(view_spans(o@)), old_line@, options.show_whitespace)
            &&& displays(spans_text(view_spans(n@)), span_kinds(view_spans(n@)), new_line@, options.show_whitespace)
        },
        pair is Ok,
{
    if options.inline == InlineMode::Disabled {
        return Ok((None, None));
    }
    let old_tokens = tokenize(old_line, options);
    let new_tokens = tokenize(new_line, options);
    proof {
        law_token_spans(
            inline_raw_ops(view_lines(old_tokens@), view_lines(new_tokens@), options),
            view_lines(old_tokens@),
            view_lines(new_tokens@),
            options.show_whitespace,
        );
    }
    inline_spans_for_tokens(&old_tokens, &new_tokens, options)
}

/// The spans of one row of a replaced block; the longer side's extra lines
/// are shown as wholly deleted or inserted.
pub open spec fn replace_result(
    old_line: Option<Seq<char>>,
    new_line: Option<Seq<char>>,
    options: Options,
) -> Option<(Option<Seq<SpanModel>>, Option<Seq<SpanModel>>)> {
    match (old_line, new_line) {
        (Some(o), Some(n)) => inline_result(o, n, options),
        (Some(o), None) => Some(
            (Some(display_spans_spec(o, SpanKind::Delete, options.show_whitespace)), None),
        ),
        (None, Some(n)) => Some(
            (None, Some(display_spans_spec(n, SpanKind::Insert, options.show_whitespace))),
        ),
        (None, None) => Some((None, None)),
    }
}

pub open spec fn view_opt_line(line: Option<&Vec<char>>) -> Option<Seq<char>> {
    match line {
        Some(l) => Some(l@),
        None => None,
    }
}

pub fn replace_spans(
    old_line: Option<&Vec<char>>,
    new_line: Option<&Vec<char>>,
    options: Options,
) -> (pair: Result<SpanPair, String>)
    ensures
        same_pair_outcome(pair, replace_result(view_opt_line(old_line), view_opt_line(new_line), options)),
        pair matches Ok((o, n)) ==> opt_shows(view_opt_spans(o), view_opt_line(old_line)) && opt_shows(
            view_opt_spans(n),
            view_opt_line(new_line),
        ),
        pair is Ok,
{
    match (old_line, new_line) {
        (Some(old_line), Some(new_line)) => inline_spans(old_line, new_line, options),
        (Some(old_line), None) => {
            proof {
                lemma_display_spans_show(old_line@, SpanKind::Delete, options.show_whitespace);
            }
            Ok((Some(deleted_spans(old_line.as_slice(), options.show_whitespace)), None))
        },
        (None, Some(new_line)) => {
            proof {
                lemma_display_spans_show(new_line@, SpanKind::Insert, options.show_whitespace);
            }
            Ok((None, Some(inserted_spans(new_line.as_slice(), options.show_whitespace))))
        },
        (None, None) => Ok((None, None)),
    }
}

proof fn lemma_push_span(spans: Seq<SpanModel>, kind: SpanKind, tokens: Seq<Seq<char>>, show_whitespace: bool)
    requires
        kinds_alternate(spans),
    ensures
        kinds_alternate(push_span_spec(spans, kind, tokens, show_whitespace)),
        !show_whitespace ==> spans_text(push_span_spec(spans, kind, tokens, show_whitespace)) == spans_text(spans)
            + concat(tokens),
        spans_text(push_span_spec(spans, kind, tokens, show_whitespace)).len() >= spans_text(spans).len(),
        spans_text(push_span_spec(spans, kind, tokens, show_whitespace)).take(spans_text(spans).len() as int)
            == spans_text(spans),
        shows(
            spans_text(push_span_spec(spans, kind, tokens, show_whitespace)).skip(spans_text(spans).len() as int),
            concat(tokens),
        ),
{
    let before = spans_text(spans);
    let after = spans_text(push_span_spec(spans, kind, tokens, show_whitespace));
    if show_whitespace {
        law_push_display_chars(spans, kind, concat(tokens), show_whitespace);
        let shown = concat(tokens).map_values(|c: char| display_char_spec(c, show_whitespace));
        lemma_shows_displayed(concat(tokens), show_whitespace);
        assert(after.take(before.len() as int) =~= before);
        assert(after.skip(before.len() as int) =~= shown);
    } else {
        lemma_push_texts(spans, kind, tokens);
        lemma_shows_same(concat(tokens));
        assert(after.take(before.len() as int) =~= before);
        assert(after.skip(before.len() as int) =~= concat(tokens));
    }
}

proof fn lemma_concat_ranges(tokens: Seq<Seq<char>>, i: int, j: int)
    requires
        0 <= i <= j <= tokens.len(),
    ensures
        concat(tokens.subrange(0, i)) + concat(tokens.subrange(i, j)) == concat(tokens.subrange(0, j)),
{
    lemma_concat_append(tokens.subrange(0, i), tokens.subrange(i, j));
    assert(tokens.subrange(0, i) + tokens.subrange(i, j) =~= tokens.subrange(0, j));
}

/// Spans that show a text, extended by tokens, show the text followed by the
/// tokens.
proof fn lemma_shows_pushed(
    spans: Seq<SpanModel>,
    kind: SpanKind,
    tokens: Seq<Seq<char>>,
    show_whitespace: bool,
    text: Seq<char>,
)
    requires
        kinds_alternate(spans),
        shows(spans_text(spans), text),
    ensures
        shows(spans_text(push_span_spec(spans, kind, tokens, show_whitespace)), text + concat(tokens)),
{
    lemma_push_span(spans, kind, tokens, show_whitespace);
    let before = spans_text(spans);
    let after = spans_text(push_span_spec(spans, kind, tokens, show_whitespace));
    lemma_shows_append(before, text, after.skip(before.len() as int), concat(tokens));
    assert(before + after.skip(before.len() as int) =~= after);
}

/// The spans built from a script prefix alternate in kind on each side and,
/// without whitespace markers, spell the tokens the prefix has reached.
proof fn lemma_token_spans(
    ops: Seq<EditOp>,
    old_tokens: Seq<Seq<char>>,
    new_tokens: Seq<Seq<char>>,
    show_whitespace: bool,
)
    requires
        fits_all(ops),
        old_pos(ops) <= old_tokens.len(),
        new_pos(ops) <= new_tokens.len(),
    ensures
        kinds_alternate(token_spans_spec(ops, old_tokens, new_tokens, show_whitespace).0),
        kinds_alternate(token_spans_spec(ops, old_tokens, new_tokens, show_whitespace).1),
        !show_whitespace ==> spans_text(token_spans_spec(ops, old_tokens, new_tokens, show_whitespace).0) == concat(
            old_tokens.subrange(0, old_pos(ops)),
        ),
        !show_whitespace ==> spans_text(token_spans_spec(ops, old_tokens, new_tokens, show_whitespace).1) == concat(
            new_tokens.subrange(0, new_pos(ops)),
        ),
        shows(
            spans_text(token_spans_spec(ops, old_tokens, new_tokens, show_whitespace).0),
            concat(old_tokens.subrange(0, old_pos(ops))),
        ),
        shows(
            spans_text(token_spans_spec(ops, old_tokens, new_tokens, show_whitespace).1),
            concat(new_tokens.subrange(0, new_pos(ops))),
        ),
    decreases ops.len(),
{
    if ops.len() == 0 {
        assert(spans_text(Seq::<SpanModel>::empty()) =~= concat(old_tokens.subrange(0, 0)));
        assert(spans_text(Seq::<SpanModel>::empty()) =~= concat(new_tokens.subrange(0, 0)));
        lemma_shows_same(Seq::<char>::empty());
    } else {
        let prefix = ops.drop_last();
        let op = ops.last();
        lemma_token_spans(prefix, old_tokens, new_tokens, show_whitespace);
        lemma_pos_nonneg(prefix);
        let prev = token_spans_spec(prefix, old_tokens, new_tokens, show_whitespace);
        let olds = old_tokens.subrange(op.old_start as int, op.old_end as int);
        let news = new_tokens.subrange(op.new_start as int, op.new_end as int);
        let i = old_pos(prefix);
        let j = new_pos(prefix);
        match op.tag {
            OpTag::Equal => {
                lemma_push_span(prev.0, SpanKind::Equal, olds, false);
                lemma_push_span(prev.1, SpanKind::Equal, news, false);
                lemma_concat_ranges(old_tokens, i, old_pos(ops));
                lemma_concat_ranges(new_tokens, j, new_pos(ops));
                lemma_shows_pushed(prev.0, SpanKind::Equal, olds, false, concat(old_tokens.subrange(0, i)));
                lemma_shows_pushed(prev.1, SpanKind::Equal, news, false, concat(new_tokens.subrange(0, j)));
            },
            OpTag::Delete => {
                lemma_push_span(prev.0, SpanKind::Delete, olds, show_whitespace);
                lemma_concat_ranges(old_tokens, i, old_pos(ops));
                lemma_shows_pushed(prev.0, SpanKind::Delete, olds, show_whitespace, concat(old_tokens.subrange(0, i)));
            },
            OpTag::Insert => {
                lemma_push_span(prev.1, SpanKind::Insert, news, show_whitespace);
                lemma_concat_ranges(new_tokens, j, new_pos(ops));
                lemma_shows_pushed(prev.1, SpanKind::Insert, news, show_whitespace, concat(new_tokens.subrange(0, j)));
            },
            OpTag::Replace => {
                lemma_push_span(prev.0, SpanKind::Delete, olds, show_whitespace);
                lemma_push_span(prev.1, SpanKind::Insert, news, show_whitespace);
                lemma_concat_ranges(old_tokens, i, old_pos(ops));
                lemma_concat_ranges(new_tokens, j, new_pos(ops));
                lemma_shows_pushed(prev.0, SpanKind::Delete, olds, show_whitespace, concat(old_tokens.subrange(0, i)));
                lemma_shows_pushed(prev.1, SpanKind::Insert, news, show_whitespace, concat(new_tokens.subrange(0, j)));
            },
        }
    }
}

/// The old tokens that the equal ops of a script cover, written in order.
pub open spec fn unchanged_old(ops: Seq<EditOp>, tokens: Seq<Seq<char>>) -> Seq<char>
    decreases ops.len(),
{
    if ops.len() == 0 {
        Seq::<char>::empty()
    } else {
        unchanged_old(ops.drop_last(), tokens) + if ops.last().tag == OpTag::Equal {
            concat(tokens.subrange(ops.last().old_start as int, ops.last().old_end as int))
        } else {
            Seq::<char>::empty()
        }
    }
}

/// The new tokens that the equal ops of a script cover, written in order.
pub open spec fn unchanged_new(ops: Seq<EditOp>, tokens: Seq<Seq<char>>) -> Seq<char>
    decreases ops.len(),
{
    if ops.len() == 0 {
        Seq::<char>::empty()
    } else {
        unchanged_new(ops.drop_last(), tokens) + if ops.last().tag == OpTag::Equal {
            concat(tokens.subrange(ops.last().new_start as int, ops.last().new_end as int))
        } else {
            Seq::<char>::empty()
        }
    }
}

/// Pushing tokens onto one side: an unchanged push adds their text to the
/// unchanged text, a changed push adds none; the side's kinds are kept, and
/// no empty span is added when no token is empty.
proof fn lemma_push_span_sides(
    spans: Seq<SpanModel>,
    kind: SpanKind,
    tokens: Seq<Seq<char>>,
    side: SpanKind,
    show_whitespace: bool,
)
    requires
        side == SpanKind::Delete || side == SpanKind::Insert,
        kind == SpanKind::Equal ==> !show_whitespace,
        kind == SpanKind::Equal || kind == side,
    ensures
        equal_text(push_span_spec(spans, kind, tokens, show_whitespace)) == equal_text(spans) + if kind
            == SpanKind::Equal {
            concat(tokens)
        } else {
            Seq::<char>::empty()
        },
        kinds_of_side(spans, side, show_whitespace) ==> kinds_of_side(
            push_span_spec(spans, kind, tokens, show_whitespace),
            side,
            show_whitespace,
        ),
        texts_nonempty(spans) && tokens_nonempty(tokens) ==> texts_nonempty(
            push_span_spec(spans, kind, tokens, show_whitespace),
        ),
{
    if show_whitespace {
        lemma_push_display_chars_sides(spans, side, concat(tokens), show_whitespace);
        assert(equal_text(spans) + Seq::<char>::empty() =~= equal_text(spans));
    } else {
        lemma_push_texts_sides(spans, kind, tokens, side, show_whitespace);
    }
}

proof fn lemma_tokens_nonempty_sub(tokens: Seq<Seq<char>>, i: int, j: int)
    requires
        tokens_nonempty(tokens),
        0 <= i <= j <= tokens.len(),
    ensures
        tokens_nonempty(tokens.subrange(i, j)),
{
    assert forall|k: int| 0 <= k < tokens.subrange(i, j).len() implies #[trigger] tokens.subrange(i, j)[k].len() > 0 by {
        assert(tokens.subrange(i, j)[k] == tokens[i + k]);
    }
}

/// The spans built from a script prefix: the old side holds unchanged and
/// deleted kinds, the new side unchanged and inserted kinds; no span is empty
/// when no token is; and where the script's equal ops relate equal tokens,
/// both sides hold the same unchanged text.
proof fn lemma_token_spans_sides(
    ops: Seq<EditOp>,
    old_tokens: Seq<Seq<char>>,
    new_tokens: Seq<Seq<char>>,
    show_whitespace: bool,
)
    requires
        fits_all(ops),
        old_pos(ops) <= old_tokens.len(),
        new_pos(ops) <= new_tokens.len(),
    ensures
        kinds_of_side(token_spans_spec(ops, old_tokens, new_tokens, show_whitespace).0, SpanKind::Delete, show_whitespace),
        kinds_of_side(token_spans_spec(ops, old_tokens, new_tokens, show_whitespace).1, SpanKind::Insert, show_whitespace),
        tokens_nonempty(old_tokens) ==> texts_nonempty(token_spans_spec(ops, old_tokens, new_tokens, show_whitespace).0),
        tokens_nonempty(new_tokens) ==> texts_nonempty(token_spans_spec(ops, old_tokens, new_tokens, show_whitespace).1),
        equal_ops_match(ops, old_tokens, new_tokens) ==> equal_text(
            token_spans_spec(ops, old_tokens, new_tokens, show_whitespace).0,
        ) == equal_text(token_spans_spec(ops, old_tokens, new_tokens, show_whitespace).1),
        show_whitespace ==> all_marks_fit(token_spans_spec(ops, old_tokens, new_tokens, show_whitespace).0)
            && all_marks_fit(token_spans_spec(ops, old_tokens, new_tokens, show_whitespace).1),
        equal_text(token_spans_spec(ops, old_tokens, new_tokens, show_whitespace).0) == unchanged_old(ops, old_tokens),
        equal_text(token_spans_spec(ops, old_tokens, new_tokens, show_whitespace).1) == unchanged_new(ops, new_tokens),
    decreases ops.len(),
{
    if ops.len() > 0 {
        let prefix = ops.drop_last();
        let op = ops.last();
        lemma_pos_nonneg(prefix);
        assert(equal_ops_match(ops, old_tokens, new_tokens) ==> equal_ops_match(prefix, old_tokens, new_tokens)) by {
            if equal_ops_match(ops, old_tokens, new_tokens) {
                assert forall|k: int| 0 <= k < prefix.len() && #[trigger] prefix[k].tag == OpTag::Equal
                    && prefix[k].old_start <= prefix[k].old_end <= old_tokens.len() && prefix[k].new_start
                    <= prefix[k].new_end <= new_tokens.len() implies old_tokens.subrange(
                    prefix[k].old_start as int,
                    prefix[k].old_end as int,
                ) == new_tokens.subrange(prefix[k].new_start as int, prefix[k].new_end as int) by {
                    assert(prefix[k] == ops[k]);
                }
            }
        }
        lemma_token_spans_sides(prefix, old_tokens, new_tokens, show_whitespace);
        let prev = token_spans_spec(prefix, old_tokens, new_tokens, show_whitespace);
        let olds = old_tokens.subrange(op.old_start as int, op.old_end as int);
        let news = new_tokens.subrange(op.new_start as int, op.new_end as int);
        if tokens_nonempty(old_tokens) && op.tag != OpTag::Insert {
            lemma_tokens_nonempty_sub(old_tokens, op.old_start as int, op.old_end as int);
        }
        if tokens_nonempty(new_tokens) && op.tag != OpTag::Delete {
            lemma_tokens_nonempty_sub(new_tokens, op.new_start as int, op.new_end as int);
        }
        assert(equal_text(prev.0) + Seq::<char>::empty() =~= equal_text(prev.0));
        assert(equal_text(prev.1) + Seq::<char>::empty() =~= equal_text(prev.1));
        if show_whitespace {
            match op.tag {
                OpTag::Equal => {
                    lemma_push_texts_marks(prev.0, olds);
                    lemma_push_texts_marks(prev.1, news);
                },
                OpTag::Delete => {
                    lemma_push_display_chars_marks(prev.0, SpanKind::Delete, concat(olds));
                },
                OpTag::Insert => {
                    lemma_push_display_chars_marks(prev.1, SpanKind::Insert, concat(news));
                },
                OpTag::Replace => {
                    lemma_push_display_chars_marks(prev.0, SpanKind::Delete, concat(olds));
                    lemma_push_display_chars_marks(prev.1, SpanKind::Insert, concat(news));
                },
            }
        }
        match op.tag {
            OpTag::Equal => {
                lemma_push_span_sides(prev.0, SpanKind::Equal, olds, SpanKind::Delete, false);
                lemma_push_span_sides(prev.1, SpanKind::Equal, news, SpanKind::Insert, false);
                assert(kinds_of_side(prev.0, SpanKind::Delete, show_whitespace) ==> kinds_of_side(
                    push_span_spec(prev.0, SpanKind::Equal, olds, false),
                    SpanKind::Delete,
                    show_whitespace,
                )) by {
                    lemma_push_texts_sides(prev.0, SpanKind::Equal, olds, SpanKind::Delete, show_whitespace);
                }
                assert(kinds_of_side(prev.1, SpanKind::Insert, show_whitespace) ==> kinds_of_side(
                    push_span_spec(prev.1, SpanKind::Equal, news, false),
                    SpanKind::Insert,
                    show_whitespace,
                )) by {
                    lemma_push_texts_sides(prev.1, SpanKind::Equal, news, SpanKind::Insert, show_whitespace);
                }
                if equal_ops_match(ops, old_tokens, new_tokens) {
                    assert(ops[ops.len() - 1] == op);
                    assert(olds == news);
                }
            },
            OpTag::Delete => {
                lemma_push_span_sides(prev.0, SpanKind::Delete, olds, SpanKind::Delete, show_whitespace);
            },
            OpTag::Insert => {
                lemma_push_span_sides(prev.1, SpanKind::Insert, news, SpanKind::Insert, show_whitespace);
            },
            OpTag::Replace => {
                lemma_push_span_sides(prev.0, SpanKind::Delete, olds, SpanKind::Delete, show_whitespace);
                lemma_push_span_sides(prev.1, SpanKind::Insert, news, SpanKind::Insert, show_whitespace);
            },
        }
    }
}

/// Tokens pushed onto one side display themselves: kept as they are when
/// unchanged or when whitespace is not shown, with whitespace drawn as
/// markers when changed and whitespace is shown.
proof fn lemma_push_span_display(
    spans: Seq<SpanModel>,
    kind: SpanKind,
    tokens: Seq<Seq<char>>,
    show_whitespace: bool,
)
    requires
        kind == SpanKind::Equal || kind == SpanKind::Delete || kind == SpanKind::Insert,
    ensures
        ({
            let push_sw = kind != SpanKind::Equal && show_whitespace;
            let r = push_span_spec(spans, kind, tokens, push_sw);
            let n = spans_text(spans).len() as int;
            &&& spans_text(r).len() >= n
            &&& spans_text(r).take(n) == spans_text(spans)
            &&& span_kinds(r).take(n) == span_kinds(spans)
            &&& displays(spans_text(r).skip(n), span_kinds(r).skip(n), concat(tokens), show_whitespace)
        }),
{
    let push_sw = kind != SpanKind::Equal && show_whitespace;
    let r = push_span_spec(spans, kind, tokens, push_sw);
    let n = spans_text(spans).len() as int;
    lemma_span_kinds_len(spans);
    if push_sw {
        lemma_push_display_chars_display(spans, kind, concat(tokens));
        let shown = concat(tokens).map_values(|c: char| display_char_spec(c, true));
        let ks = concat(tokens).map_values(|c: char| display_kind_spec(kind, c, true));
        assert(spans_text(r).take(n) =~= spans_text(spans));
        assert(spans_text(r).skip(n) =~= shown);
        assert(span_kinds(r).take(n) =~= span_kinds(spans));
        assert(span_kinds(r).skip(n) =~= ks);
    } else {
        lemma_push_texts_display(spans, kind, tokens, show_whitespace);
        let ks = Seq::new(concat(tokens).len(), |q: int| kind);
        assert(span_kinds(r).take(n) =~= span_kinds(spans));
        assert(span_kinds(r).skip(n) =~= ks);
    }
}

/// The spans built from a script prefix display the tokens the prefix has
/// reached, character by character.
proof fn lemma_token_spans_display(
    ops: Seq<EditOp>,
    old_tokens: Seq<Seq<char>>,
    new_tokens: Seq<Seq<char>>,
    show_whitespace: bool,
)
    requires
        fits_all(ops),
        old_pos(ops) <= old_tokens.len(),
        new_pos(ops) <= new_tokens.len(),
    ensures
        displays(
            spans_text(token_spans_spec(ops, old_tokens, new_tokens, show_whitespace).0),
            span_kinds(token_spans_spec(ops, old_tokens, new_tokens, show_whitespace).0),
            concat(old_tokens.subrange(0, old_pos(ops))),
            show_whitespace,
        ),
        displays(
            spans_text(token_spans_spec(ops, old_tokens, new_tokens, show_whitespace).1),
            span_kinds(token_spans_spec(ops, old_tokens, new_tokens, show_whitespace).1),
            concat(new_tokens.subrange(0, new_pos(ops))),
            show_whitespace,
        ),
    decreases ops.len(),
{
    if ops.len() == 0 {
        assert(concat(old_tokens.subrange(0, 0)) =~= Seq::<char>::empty());
        assert(concat(new_tokens.subrange(0, 0)) =~= Seq::<char>::empty());
    } else {
        let prefix = ops.drop_last();
        let op = ops.last();
        lemma_token_spans_display(prefix, old_tokens, new_tokens, show_whitespace);
        lemma_pos_nonneg(prefix);
        let prev = token_spans_spec(prefix, old_tokens, new_tokens, show_whitespace);
        let olds = old_tokens.subrange(op.old_start as int, op.old_end as int);
        let news = new_tokens.subrange(op.new_start as int, op.new_end as int);
        let i = old_pos(prefix);
        let j = new_pos(prefix);
        if op.tag != OpTag::Insert {
            let kind = if op.tag == OpTag::Equal { SpanKind::Equal } else { SpanKind::Delete };
            lemma_push_span_display(prev.0, kind, olds, show_whitespace);
            let r = push_span_spec(prev.0, kind, olds, kind != SpanKind::Equal && show_whitespace);
            let n = spans_text(prev.0).len() as int;
            lemma_span_kinds_len(prev.0);
            lemma_span_kinds_len(r);
            lemma_displays_append(
                spans_text(prev.0),
                span_kinds(prev.0),
                concat(old_tokens.subrange(0, i)),
                spans_text(r).skip(n),
                span_kinds(r).skip(n),
                concat(olds),
                show_whitespace,
            );
            assert(spans_text(prev.0) + spans_text(r).skip(n) =~= spans_text(r));
            assert(span_kinds(prev.0) + span_kinds(r).skip(n) =~= span_kinds(r));
            lemma_concat_ranges(old_tokens, i, old_pos(ops));
            assert(token_spans_spec(ops, old_tokens, new_tokens, show_whitespace).0 == r);
        }
        if op.tag != OpTag::Delete {
            let kind = if op.tag == OpTag::Equal { SpanKind::Equal } else { SpanKind::Insert };
            lemma_push_span_display(prev.1, kind, news, show_whitespace);
            let r = push_span_spec(prev.1, kind, news, kind != SpanKind::Equal && show_whitespace);
            let n = spans_text(prev.1).len() as int;
            lemma_span_kinds_len(prev.1);
            lemma_span_kinds_len(r);
            lemma_displays_append(
                spans_text(prev.1),
                span_kinds(prev.1),
                concat(new_tokens.subrange(0, j)),
                spans_text(r).skip(n),
                span_kinds(r).skip(n),
                concat(news),
                show_whitespace,
            );
            assert(spans_text(prev.1) + spans_text(r).skip(n) =~= spans_text(r));
            assert(span_kinds(prev.1) + span_kinds(r).skip(n) =~= span_kinds(r));
            lemma_concat_ranges(new_tokens, j, new_pos(ops));
            assert(token_spans_spec(ops, old_tokens, new_tokens, show_whitespace).1 == r);
        }
    }
}

/// Inline spans built from any token script never put two spans of one kind
/// side by side; each side shows its tokens, with whitespace drawn as markers
/// at most, and without whitespace markers spells them. The old side holds
/// only unchanged and deleted kinds, the new side only unchanged and inserted
/// kinds; no span is empty when no token is; when the script's equal ops
/// relate equal tokens, both sides hold the same unchanged text; and with
/// whitespace shown, every space, tab, line feed and carriage return of a
/// changed token is drawn as its marker under a marker kind, while every other
/// character, and every character of an unchanged token, is kept as it is.
/// The unchanged text of each side is exactly the tokens the script's equal
/// ops cover.
pub proof fn law_token_spans(
    raw: Seq<RawOp>,
    old_tokens: Seq<Seq<char>>,
    new_tokens: Seq<Seq<char>>,
    show_whitespace: bool,
)
    ensures
        spans_from_script_spec(raw, old_tokens, new_tokens, show_whitespace) matches Some((o, n)) ==> {
            &&& kinds_alternate(o)
            &&& kinds_alternate(n)
            &&& !show_whitespace ==> spans_text(o) == concat(old_tokens) && spans_text(n) == concat(new_tokens)
            &&& shows(spans_text(o), concat(old_tokens))
            &&& shows(spans_text(n), concat(new_tokens))
            &&& kinds_of_side(o, SpanKind::Delete, show_whitespace)
            &&& kinds_of_side(n, SpanKind::Insert, show_whitespace)
            &&& tokens_nonempty(old_tokens) ==> texts_nonempty(o)
            &&& tokens_nonempty(new_tokens) ==> texts_nonempty(n)
            &&& equal_ops_match(decoded(raw), old_tokens, new_tokens) ==> equal_text(o) == equal_text(n)
            &&& show_whitespace ==> all_marks_fit(o) && all_marks_fit(n)
            &&& displays(spans_text(o), span_kinds(o), concat(old_tokens), show_whitespace)
            &&& displays(spans_text(n), span_kinds(n), concat(new_tokens), show_whitespace)
            &&& equal_text(o) == unchanged_old(decoded(raw), old_tokens)
            &&& equal_text(n) == unchanged_new(decoded(raw), new_tokens)
        },
{
    if spans_from_script_spec(raw, old_tokens, new_tokens, show_whitespace) is Some {
        lemma_token_spans(decoded(raw), old_tokens, new_tokens, show_whitespace);
        lemma_token_spans_sides(decoded(raw), old_tokens, new_tokens, show_whitespace);
        lemma_token_spans_display(decoded(raw), old_tokens, new_tokens, show_whitespace);
        assert(old_tokens.subrange(0, old_tokens.len() as int) =~= old_tokens);
        assert(new_tokens.subrange(0, new_tokens.len() as int) =~= new_tokens);
    }
}

/// The tokens that a replaced pair of lines is highlighted over: with Unicode
/// tokenization, extended grapheme clusters for characters and the pieces
/// between Unicode word boundaries for words; without it, single characters
/// and runs of one character class.
pub proof fn law_inline_tokens(old_line: Seq<char>, new_line: Seq<char>, options: Options)
    ensures
        options.inline == InlineMode::Chars && options.unicode ==> inline_result(old_line, new_line, options)
            == pair_of(token_result(grapheme_clusters(old_line), grapheme_clusters(new_line), options)),
        options.inline == InlineMode::Words && options.unicode ==> inline_result(old_line, new_line, options)
            == pair_of(token_result(word_bound_pieces(old_line), word_bound_pieces(new_line), options)),
        options.inline == InlineMode::Chars && !options.unicode ==> inline_result(old_line, new_line, options)
            == pair_of(token_result(char_tokens_spec(old_line), char_tokens_spec(new_line), options)),
        options.inline == InlineMode::Words && !options.unicode ==> inline_result(old_line, new_line, options)
            == pair_of(token_result(word_runs(old_line), word_runs(new_line), options)),
        options.inline == InlineMode::Disabled ==> inline_result(old_line, new_line, options) == Some(
            (None::<Seq<SpanModel>>, None::<Seq<SpanModel>>),
        ),
{
}

/// Both sides of a token highlight as present sides, or `None` when the
/// token script does not tile the tokens.
pub open spec fn pair_of(spans: Option<(Seq<SpanModel>, Seq<SpanModel>)>) -> Option<
    (Option<Seq<SpanModel>>, Option<Seq<SpanModel>>),
> {
    match spans {
        Some((o, n)) => Some((Some(o), Some(n))),
        None => None,
    }
}

} // verus!
