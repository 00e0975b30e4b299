//! Splitting a line into the tokens that inline highlighting compares.

use vstd::prelude::*;
use crate::text::is_white_space;
use crate::text::is_whitespace_char;
use crate::text::string_from_chars;
use crate::text::view_lines;
use crate::spans::concat;
use crate::spans::lemma_concat_append;
use crate::script::view_strings;
use similar::DiffableStr;

verus! {

/// Whether a character is alphabetic or numeric in the Unicode sense.
pub uninterp spec fn unicode_alphanumeric(c: char) -> bool;

/// `char::is_alphanumeric` holds of the characters with the Unicode
/// `Alphabetic` or `Numeric` property; that set is named, not spelled out.
pub assume_specification[ char::is_alphanumeric ](c: char) -> (r: bool)
    ensures
        r == unicode_alphanumeric(c),
;

/// The class of a character for word tokens: whitespace, word characters
/// (alphanumerics and `_`), or anything else.
pub open spec fn token_kind_spec(c: char) -> u8 {
    if is_white_space(c) {
        0
    } else if unicode_alphanumeric(c) || c == '_' {
        1
    } else {
        2
    }
}

pub fn token_kind(ch: char) -> (kind: u8)
    ensures
        kind == token_kind_spec(ch),
{
    if is_whitespace_char(ch) {
        0
    } else if ch.is_alphanumeric() || ch == '_' {
        1
    } else {
        2
    }
}

/// The maximal runs of characters of one class, in order.
pub open spec fn word_runs(s: Seq<char>) -> Seq<Seq<char>>
    decreases s.len(),
{
    if s.len() == 0 {
        Seq::<Seq<char>>::empty()
    } else {
        let prev = word_runs(s.drop_last());
        let c = s.last();
        if s.len() == 1 || token_kind_spec(s[s.len() - 2]) != token_kind_spec(c) {
            prev.push(seq![c])
        } else {
            prev.update(prev.len() - 1, prev.last().push(c))
        }
    }
}

/// Each character as a token of its own.
pub open spec fn char_tokens_spec(s: Seq<char>) -> Seq<Seq<char>> {
    Seq::new(s.len(), |i: int| seq![s[i]])
}

proof fn lemma_word_runs_nonempty(s: Seq<char>)
    ensures
        s.len() > 0 ==> word_runs(s).len() >= 1,
    decreases s.len(),
{
    if s.len() > 1 {
        lemma_word_runs_nonempty(s.drop_last());
    }
}

/// The tokens of a line for word highlighting without Unicode segmentation:
/// the maximal runs of whitespace, of word characters, and of other
/// characters.
pub fn word_tokens(line: &[char]) -> (tokens: Vec<Vec<char>>)
    ensures
        view_lines(tokens@) == word_runs(line@),
{
    let mut tokens: Vec<Vec<char>> = Vec::new();
    let mut current: Vec<char> = Vec::new();
    let mut current_kind: Option<u8> = None;
    let mut i: usize = 0;
    while i < line.len()
        invariant
            i <= line.len(),
            i == 0 ==> tokens@.len() == 0 && current@.len() == 0 && current_kind is None,
            i > 0 ==> view_lines(tokens@).push(current@) == word_runs(line@.take(i as int)),
            i > 0 ==> current_kind == Some(token_kind_spec(line@[i - 1])),
        decreases line.len() - i,
    {
        let ghost prefix = line@.take(i as int);
        let ghost next = line@.take(i + 1);
        proof {
            assert(next.drop_last() =~= prefix);
            lemma_word_runs_nonempty(prefix);
        }
        let ch = line[i];
        let kind = token_kind(ch);
        let ghost before = tokens@;
        match current_kind {
            Some(active) => {
                if active != kind {
                    tokens.push(current);
                    current = Vec::new();
                    current.push(ch);
                    proof {
                        assert(next[next.len() - 2] == line@[i - 1]);
                        assert(tokens@ == before.push(tokens@.last()));
                        assert(view_lines(tokens@).push(current@) =~= word_runs(prefix).push(seq![ch]));
                    }
                } else {
                    current.push(ch);
                    proof {
                        assert(next[next.len() - 2] == line@[i - 1]);
                        let prev = word_runs(prefix);
                        assert(view_lines(tokens@).push(current@) =~= prev.update(prev.len() - 1, prev.last().push(ch)));
                    }
                }
            },
            None => {
                current.push(ch);
                proof {
                    assert(i == 0);
                    assert(current@ =~= seq![ch]);
                    assert(next.len() == 1);
                    assert(word_runs(next.drop_last()) =~= Seq::<Seq<char>>::empty());
                    assert(view_lines(tokens@) =~= Seq::<Seq<char>>::empty());
                    assert(view_lines(tokens@).push(current@) =~= seq![seq![ch]]);
                }
            },
        }
        current_kind = Some(kind);
        i = i + 1;
    }
    proof {
        assert(line@.take(line@.len() as int) =~= line@);
    }
    if current.len() > 0 {
        tokens.push(current);
    } else {
        proof {
            if line@.len() > 0 {
                lemma_word_runs_nonempty(line@);
                lemma_word_runs_items_nonempty(line@);
                let w = word_runs(line@);
                assert(w.last() == w[w.len() - 1]);
            }
        }
    }
    tokens
}

proof fn lemma_word_runs_items_nonempty(s: Seq<char>)
    ensures
        forall|k: int| 0 <= k < word_runs(s).len() ==> #[trigger] word_runs(s)[k].len() > 0,
    decreases s.len(),
{
    if s.len() > 0 {
        lemma_word_runs_items_nonempty(s.drop_last());
        lemma_word_runs_nonempty(s.drop_last());
        let prev = word_runs(s.drop_last());
        if !(s.len() == 1 || token_kind_spec(s[s.len() - 2]) != token_kind_spec(s.last())) {
            assert forall|k: int| 0 <= k < word_runs(s).len() implies #[trigger] word_runs(s)[k].len() > 0 by {
                if k < prev.len() - 1 {
                    assert(word_runs(s)[k] == prev[k]);
                }
            }
        }
    }
}

/// Each character of a line as a token of its own.
pub fn char_tokens(line: &[char]) -> (tokens: Vec<Vec<char>>)
    ensures
        view_lines(tokens@) == char_tokens_spec(line@),
{
    let mut tokens: Vec<Vec<char>> = Vec::new();
    let mut i: usize = 0;
    while i < line.len()
        invariant
            i <= line.len(),
            view_lines(tokens@) == char_tokens_spec(line@.take(i as int)),
        decreases line.len() - i,
    {
        let ghost before = tokens@;
        let mut one: Vec<char> = Vec::new();
        one.push(line[i]);
        let ghost one_view = one@;
        tokens.push(one);
        proof {
            assert(one_view =~= seq![line@[i as int]]);
            assert(tokens@ == before.push(tokens@.last()));
            assert(view_lines(tokens@) =~= view_lines(before).push(one_view));
        }
        i = i + 1;
        proof {
            assert(view_lines(tokens@) =~= char_tokens_spec(line@.take(i as int)));
        }
    }
    proof {
        assert(line@.take(line@.len() as int) =~= line@);
    }
    tokens
}

/// The extended grapheme clusters of a text (Unicode UAX #29).
pub uninterp spec fn grapheme_clusters(s: Seq<char>) -> Seq<Seq<char>>;

/// The pieces of a text between Unicode UAX #29 word boundaries.
pub uninterp spec fn word_bound_pieces(s: Seq<char>) -> Seq<Seq<char>>;

/// Calls `DiffableStr::tokenize_graphemes` of `similar`, which collects
/// `UnicodeSegmentation::graphemes(line, true)`. The clusters are named;
/// the source shows that they are consecutive slices from the start of the
/// line to its end, so that they spell the line.
#[verifier::external_body]
pub(crate) fn tokenize_graphemes(line: &[char]) -> (tokens: Vec<Vec<char>>)
    ensures
        view_lines(tokens@) == grapheme_clusters(line@),
        concat(view_lines(tokens@)) == line@,
{
    let line: String = line.iter().collect();
    line.as_str().tokenize_graphemes().iter().map(|t| t.chars().collect()).collect()
}

/// Calls `DiffableStr::tokenize_unicode_words` of `similar`, which collects
/// `UnicodeSegmentation::split_word_bounds(line)`. The pieces are named; its
/// documentation says that they concatenate to the original string.
#[verifier::external_body]
pub(crate) fn tokenize_unicode_words(line: &[char]) -> (tokens: Vec<Vec<char>>)
    ensures
        view_lines(tokens@) == word_bound_pieces(line@),
        concat(view_lines(tokens@)) == line@,
{
    let line: String = line.iter().collect();
    line.as_str().tokenize_unicode_words().iter().map(|t| t.chars().collect()).collect()
}

/// The same tokens as strings, as the diff algorithms take them.
pub fn strings_of(tokens: &Vec<Vec<char>>) -> (strings: Vec<String>)
    ensures
        view_strings(strings@) == view_lines(tokens@),
{
    let mut strings: Vec<String> = Vec::new();
    let mut i: usize = 0;
    while i < tokens.len()
        invariant
            i <= tokens.len(),
            view_strings(strings@) == view_lines(tokens@).take(i as int),
        decreases tokens.len() - i,
    {
        let ghost before = strings@;
        let s = string_from_chars(tokens[i].as_slice());
        let ghost s_view = s@;
        strings.push(s);
        proof {
            assert(strings@ == before.push(strings@.last()));
            assert(view_strings(strings@) =~= view_strings(before).push(s_view));
        }
        i = i + 1;
        proof {
            assert(view_strings(strings@) =~= view_lines(tokens@).take(i as int));
        }
    }
    proof {
        assert(view_lines(tokens@).take(tokens@.len() as int) =~= view_lines(tokens@));
    }
    strings
}

/// Word tokens spell the line they come from.
pub proof fn law_word_runs_spell(s: Seq<char>)
    ensures
        concat(word_runs(s)) == s,
    decreases s.len(),
{
    if s.len() > 0 {
        law_word_runs_spell(s.drop_last());
        let prev = word_runs(s.drop_last());
        let c = s.last();
        if s.len() == 1 || token_kind_spec(s[s.len() - 2]) != token_kind_spec(c) {
            assert(prev.push(seq![c]).drop_last() =~= prev);
            assert(concat(word_runs(s)) =~= s);
        } else {
            lemma_word_runs_nonempty(s.drop_last());
            let w = prev.update(prev.len() - 1, prev.last().push(c));
            lemma_concat_append(prev.drop_last(), seq![prev.last()]);
            lemma_concat_append(prev.drop_last(), seq![prev.last().push(c)]);
            assert(prev.drop_last() + seq![prev.last()] =~= prev);
            assert(prev.drop_last() + seq![prev.last().push(c)] =~= w);
            lemma_concat_one(prev.last());
            lemma_concat_one(prev.last().push(c));
            assert(concat(w) == concat(prev).push(c));
            assert(concat(word_runs(s)) =~= s);
        }
    }
}

proof fn lemma_concat_one(t: Seq<char>)
    ensures
        concat(seq![t]) == t,
{
    assert(seq![t].drop_last() =~= Seq::<Seq<char>>::empty());
    assert(concat(Seq::<Seq<char>>::empty()) =~= Seq::<char>::empty());
    assert(concat(seq![t]) =~= t);
}

/// Character tokens spell the line they come from.
pub proof fn law_char_tokens_spell(s: Seq<char>)
    ensures
        concat(char_tokens_spec(s)) == s,
    decreases s.len(),
{
    if s.len() > 0 {
        law_char_tokens_spell(s.drop_last());
        assert(char_tokens_spec(s).drop_last() =~= char_tokens_spec(s.drop_last()));
        assert(concat(char_tokens_spec(s)) =~= s);
    }
}


/// Word tokens are the maximal runs of one character class: no token is
/// empty, all characters of a token share a class, and neighbouring tokens
/// have different classes where they meet.
pub proof fn law_word_runs_are_class_runs(s: Seq<char>)
    ensures
        forall|k: int| 0 <= k < word_runs(s).len() ==> #[trigger] word_runs(s)[k].len() > 0,
        forall|k: int, q: int|
            0 <= k < word_runs(s).len() && 0 <= q < word_runs(s)[k].len() ==> token_kind_spec(
                #[trigger] word_runs(s)[k][q],
            ) == token_kind_spec(word_runs(s)[k][0]),
        forall|k: int|
            0 <= k && k + 1 < word_runs(s).len() ==> token_kind_spec(#[trigger] word_runs(s)[k].last())
                != token_kind_spec(word_runs(s)[k + 1][0]),
        s.len() > 0 ==> word_runs(s).len() > 0 && word_runs(s).last().len() > 0 && word_runs(s).last().last()
            == s.last(),
    decreases s.len(),
{
    if s.len() > 0 {
        let prev = word_runs(s.drop_last());
        let runs = word_runs(s);
        let c = s.last();
        law_word_runs_are_class_runs(s.drop_last());
        if s.len() == 1 || token_kind_spec(s[s.len() - 2]) != token_kind_spec(c) {
            if s.len() > 1 {
                assert(s.drop_last().last() == s[s.len() - 2]);
            } else {
                assert(s.drop_last().len() == 0);
                assert(prev.len() == 0);
            }
            assert(runs == prev.push(seq![c]));
            assert forall|k: int, q: int| 0 <= k < runs.len() && 0 <= q < runs[k].len() implies token_kind_spec(
                #[trigger] runs[k][q],
            ) == token_kind_spec(runs[k][0]) by {
                if k < prev.len() {
                    assert(runs[k] == prev[k]);
                }
            }
            assert forall|k: int| 0 <= k && k + 1 < runs.len() implies token_kind_spec(#[trigger] runs[k].last())
                != token_kind_spec(runs[k + 1][0]) by {
                if k + 1 < prev.len() {
                    assert(runs[k] == prev[k] && runs[k + 1] == prev[k + 1]);
                } else {
                    assert(runs[k] == prev[k]);
                    assert(runs[k + 1] == seq![c]);
                }
            }
            assert forall|k: int| 0 <= k < runs.len() implies #[trigger] runs[k].len() > 0 by {
                if k < prev.len() {
                    assert(runs[k] == prev[k]);
                }
            }
        } else {
            assert(s.drop_last().last() == s[s.len() - 2]);
            let w = prev.last().push(c);
            assert(runs == prev.update(prev.len() - 1, w));
            let n = prev.len() - 1;
            assert(token_kind_spec(prev[n][prev[n].len() - 1]) == token_kind_spec(prev[n][0]));
            assert forall|k: int, q: int| 0 <= k < runs.len() && 0 <= q < runs[k].len() implies token_kind_spec(
                #[trigger] runs[k][q],
            ) == token_kind_spec(runs[k][0]) by {
                if k < n {
                    assert(runs[k] == prev[k]);
                } else {
                    assert(runs[k] == w);
                    if q < prev[n].len() {
                        assert(w[q] == prev[n][q]);
                    }
                    assert(w[0] == prev[n][0]);
                }
            }
            assert forall|k: int| 0 <= k && k + 1 < runs.len() implies token_kind_spec(#[trigger] runs[k].last())
                != token_kind_spec(runs[k + 1][0]) by {
                assert(runs[k] == prev[k]);
                if k + 1 < n {
                    assert(runs[k + 1] == prev[k + 1]);
                } else {
                    assert(runs[k + 1] == w);
                    assert(w[0] == prev[n][0]);
                }
            }
            assert forall|k: int| 0 <= k < runs.len() implies #[trigger] runs[k].len() > 0 by {
                if k < n {
                    assert(runs[k] == prev[k]);
                }
            }
        }
    }
}

} // verus!
