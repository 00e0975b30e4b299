use diffst::diff;
use diffst::options::algorithm_name;
use diffst::options::parse_algorithm;
use diffst::options::parse_inline_mode;
use diffst::options::InlineMode;
use diffst::options::Options;
use diffst::options::RawOptions;
use diffst::report::DiffReport;
use diffst::report::RowKind;
use diffst::script::DiffAlgorithm;
use diffst::spans::display_spans;
use diffst::spans::display_char;
use diffst::spans::equal_spans;
use diffst::spans::has_trailing_horizontal_whitespace;
use diffst::spans::is_whitespace_marker;
use diffst::spans::marker_kind;
use diffst::spans::push_text;
use diffst::spans::trailing_horizontal_whitespace_start;
use diffst::spans::InlineSpan;
use diffst::spans::SpanKind;
use diffst::text::line_ending_style;
use diffst::text::normalize_key;
use diffst::text::is_whitespace_char;
use diffst::text::split_lines;
use diffst::text::LineEndings;
use diffst::text::LineInput;
use diffst::tokens::char_tokens;
use diffst::tokens::token_kind;
use diffst::tokens::word_tokens;

fn chars(s: &str) -> Vec<char> {
    s.chars().collect()
}

fn strings(tokens: &[Vec<char>]) -> Vec<String> {
    tokens.iter().map(|t| t.iter().collect()).collect()
}

fn run(old: &str, new: &str, options: RawOptions) -> DiffReport {
    diff(old.as_bytes(), new.as_bytes(), &Ok(options)).unwrap()
}

fn joined(spans: &[InlineSpan]) -> String {
    spans.iter().map(|s| s.text.as_str()).collect()
}

#[test]
fn report_rows_show_each_line_of_both_texts_once() {
    let old = "one\ntwo\nthree\nfour\n";
    let new = "zero\none\n2\nthree\nfive\nsix\n";
    for algorithm in ["myers", "patience", "lcs", "hunt", "histogram"] {
        let options = RawOptions { algorithm: algorithm.to_string(), ..RawOptions::default() };
        let report = run(old, new, options);
        let old_side: Vec<String> = report.rows.iter().filter_map(|r| r.old.clone()).collect();
        let new_side: Vec<String> = report.rows.iter().filter_map(|r| r.new.clone()).collect();
        let old_numbers: Vec<usize> = report.rows.iter().filter_map(|r| r.old_no).collect();
        let new_numbers: Vec<usize> = report.rows.iter().filter_map(|r| r.new_no).collect();
        assert_eq!(old_side, vec!["one", "two", "three", "four"]);
        assert_eq!(new_side, vec!["zero", "one", "2", "three", "five", "six"]);
        assert_eq!(old_numbers, vec![1, 2, 3, 4]);
        assert_eq!(new_numbers, vec![1, 2, 3, 4, 5, 6]);
    }
}

#[test]
fn rows_keep_original_text_when_whitespace_is_ignored() {
    let options = RawOptions { ignore_whitespace: true, ..RawOptions::default() };
    let report = run("let x = 1\n", "let   x = 1\n", options);

    assert_eq!(report.rows.len(), 1);
    assert_eq!(report.rows[0].kind, RowKind::Equal);
    assert_eq!(report.rows[0].old.as_deref(), Some("let x = 1"));
    assert_eq!(report.rows[0].new.as_deref(), Some("let   x = 1"));
}

#[test]
fn stats_add_up() {
    let report = run("a\nb\nc\nd\n", "a\nx\nc\ny\nz\n", RawOptions::default());
    let stats = report.stats;

    assert_eq!(stats.old_lines, 4);
    assert_eq!(stats.new_lines, 5);
    assert_eq!(stats.deletions + stats.equal_lines, stats.old_lines);
    assert_eq!(stats.additions + stats.equal_lines, stats.new_lines);
    assert_eq!(stats.changed_blocks, report.ops.iter().filter(|op| op.kind != RowKind::Equal).count());
}

#[test]
fn ops_cover_rows_in_order() {
    let report = run("a\nb\nc\nd\n", "b\nc\nx\ny\nz\n", RawOptions::default());
    let mut next = 0;
    for op in &report.ops {
        assert_eq!(op.row_start, next);
        for row in &report.rows[op.row_start..op.row_start + op.row_len] {
            assert_eq!(row.kind, op.kind);
        }
        next = op.row_start + op.row_len;
    }
    assert_eq!(next, report.rows.len());
}

#[test]
fn replaced_block_of_unequal_sides_has_a_row_per_longer_side_line() {
    let report = run("a\nb\n", "x\ny\nz\n", RawOptions::default());

    assert_eq!(report.ops.len(), 1);
    assert_eq!(report.ops[0].kind, RowKind::Replace);
    assert_eq!(report.ops[0].old_start, 1);
    assert_eq!(report.ops[0].old_len, 2);
    assert_eq!(report.ops[0].new_start, 1);
    assert_eq!(report.ops[0].new_len, 3);
    assert_eq!(report.ops[0].row_len, 3);
    assert_eq!(report.rows[2].old, None);
    assert_eq!(report.rows[2].old_no, None);
    assert_eq!(report.rows[2].new.as_deref(), Some("z"));
    assert_eq!(report.rows[2].new_no, Some(3));
    let new_spans = report.rows[2].new_spans.as_ref().unwrap();
    assert_eq!(new_spans.len(), 1);
    assert_eq!(new_spans[0].kind, SpanKind::Insert);
    assert_eq!(new_spans[0].text, "z");
}

#[test]
fn deleted_and_inserted_rows_have_one_side() {
    let report = run("a\nb\nc\n", "a\nc\nd\n", RawOptions::default());
    let deleted = report.rows.iter().find(|r| r.kind == RowKind::Delete).unwrap();
    let inserted = report.rows.iter().find(|r| r.kind == RowKind::Insert).unwrap();

    assert_eq!(deleted.old.as_deref(), Some("b"));
    assert_eq!(deleted.new, None);
    assert_eq!(deleted.old_spans.as_ref().unwrap()[0].kind, SpanKind::Delete);
    assert_eq!(inserted.new.as_deref(), Some("d"));
    assert_eq!(inserted.old, None);
    assert_eq!(inserted.new_spans.as_ref().unwrap()[0].kind, SpanKind::Insert);
    assert_eq!(report.stats.changed_blocks, 2);
}

#[test]
fn inline_spans_spell_both_lines_without_markers() {
    for inline in ["chars", "words"] {
        for unicode in [true, false] {
            for cleanup in [true, false] {
                let options = RawOptions {
                    inline: inline.to_string(),
                    unicode,
                    semantic_cleanup: cleanup,
                    ..RawOptions::default()
                };
                let report = run("fn main() { old(1, 2) }\n", "fn main() { new(1, 3) }\n", options);
                let row = &report.rows[0];
                let old_spans = row.old_spans.as_ref().unwrap();
                let new_spans = row.new_spans.as_ref().unwrap();
                assert_eq!(joined(old_spans), "fn main() { old(1, 2) }");
                assert_eq!(joined(new_spans), "fn main() { new(1, 3) }");
                for pair in old_spans.windows(2).chain(new_spans.windows(2)) {
                    assert_ne!(pair[0].kind, pair[1].kind);
                }
            }
        }
    }
}

fn shows(shown: &str, line: &str) -> bool {
    let shown: Vec<char> = shown.chars().collect();
    let line: Vec<char> = line.chars().collect();
    shown.len() == line.len()
        && shown.iter().zip(line.iter()).all(|(s, c)| s == c || *s == display_char(*c, true))
}

#[test]
fn row_spans_show_their_lines_with_markers() {
    let old = "keep  \nlet x = 1\n\tgone\nsame\n";
    let new = "keep  \nlet  x =\t1\nsame\nnew line \n";
    for inline in ["chars", "words", "none"] {
        for unicode in [true, false] {
            let options = RawOptions {
                show_whitespace: true,
                inline: inline.to_string(),
                unicode,
                ..RawOptions::default()
            };
            let report = run(old, new, options);
            let mut marked = 0;
            for row in &report.rows {
                if let Some(spans) = &row.old_spans {
                    let text = joined(spans);
                    assert!(shows(&text, row.old.as_deref().unwrap()), "{text:?}");
                    marked += 1;
                }
                if let Some(spans) = &row.new_spans {
                    let text = joined(spans);
                    assert!(shows(&text, row.new.as_deref().unwrap()), "{text:?}");
                    marked += 1;
                }
            }
            assert!(marked > 0);
            let first = joined(report.rows[0].old_spans.as_ref().unwrap());
            assert_eq!(first, "keep\u{b7}\u{b7}");
        }
    }
}

#[test]
fn spans_of_a_whole_text_spell_it() {
    let text = chars("a b\tc");
    let plain = display_spans(&text, SpanKind::Delete, false);
    assert_eq!(plain.len(), 1);
    assert_eq!(plain[0].text, "a b\tc");

    let shown = display_spans(&text, SpanKind::Delete, true);
    assert_eq!(joined(&shown), "a\u{b7}b\u{2192}c");
    let kinds: Vec<SpanKind> = shown.iter().map(|s| s.kind).collect();
    assert_eq!(
        kinds,
        vec![
            SpanKind::Delete,
            SpanKind::DeleteMarker,
            SpanKind::Delete,
            SpanKind::DeleteMarker,
            SpanKind::Delete
        ]
    );
}

#[test]
fn marker_characters_of_the_text_keep_the_plain_kind() {
    let shown = display_spans(&chars("a\u{2192} \u{b7}b"), SpanKind::Insert, true);
    let parts: Vec<(SpanKind, String)> = shown.iter().map(|s| (s.kind, s.text.clone())).collect();
    assert_eq!(
        parts,
        vec![
            (SpanKind::Insert, "a\u{2192}".to_string()),
            (SpanKind::InsertMarker, "\u{b7}".to_string()),
            (SpanKind::Insert, "\u{b7}b".to_string()),
        ]
    );
    let spans = equal_spans(&chars("x\u{2192}"), true);
    assert!(spans.is_none());
}

#[test]
fn push_text_joins_spans_of_the_same_kind() {
    let mut spans: Vec<InlineSpan> = Vec::new();
    push_text(&mut spans, SpanKind::Equal, &chars("ab"));
    push_text(&mut spans, SpanKind::Equal, &chars("c"));
    push_text(&mut spans, SpanKind::Insert, &chars("d"));

    assert_eq!(spans.len(), 2);
    assert_eq!(spans[0].text, "abc");
    assert_eq!(spans[1].kind.name(), "insert");
    assert_eq!(spans[1].text, "d");
}

#[test]
fn whitespace_markers() {
    assert_eq!(display_char(' ', true), '\u{b7}');
    assert_eq!(display_char('\t', true), '\u{2192}');
    assert_eq!(display_char('\n', true), '\u{21b5}');
    assert_eq!(display_char('\r', true), '\u{240d}');
    assert_eq!(display_char(' ', false), ' ');
    assert_eq!(display_char('x', true), 'x');
    assert!(is_whitespace_marker('\u{b7}'));
    assert!(!is_whitespace_marker(' '));
    assert_eq!(marker_kind(SpanKind::Delete), SpanKind::DeleteMarker);
    assert_eq!(marker_kind(SpanKind::Insert), SpanKind::InsertMarker);
    assert_eq!(marker_kind(SpanKind::Equal), SpanKind::EqualMarker);
}

#[test]
fn trailing_whitespace_of_unchanged_lines() {
    assert_eq!(trailing_horizontal_whitespace_start(&chars("ab \t ")), 2);
    assert_eq!(trailing_horizontal_whitespace_start(&chars("ab")), 2);
    assert_eq!(trailing_horizontal_whitespace_start(&chars("  ")), 0);
    assert!(has_trailing_horizontal_whitespace(&chars("x ")));
    assert!(!has_trailing_horizontal_whitespace(&chars("x")));
    assert!(equal_spans(&chars("x "), false).is_none());
    assert!(equal_spans(&chars("x"), true).is_none());
    let spans = equal_spans(&chars("  "), true).unwrap();
    assert_eq!(spans.len(), 1);
    assert_eq!(spans[0].kind, SpanKind::EqualMarker);
    assert_eq!(spans[0].text, "\u{b7}\u{b7}");
}

#[test]
fn splits_lines() {
    let lines = split_lines(&chars("a\r\nb\n\nc"));
    assert_eq!(strings(&lines), vec!["a", "b", "", "c"]);
    assert_eq!(strings(&split_lines(&chars("a\n"))), vec!["a"]);
    assert_eq!(strings(&split_lines(&chars(""))), vec![""]);
    assert_eq!(strings(&split_lines(&chars("\n\n"))), vec!["", ""]);
    assert_eq!(strings(&split_lines(&chars("a\rb"))), vec!["a\rb"]);
}

#[test]
fn lines_rebuild_a_text_without_carriage_returns() {
    for text in ["", "a", "a\n", "a\nb", "\n\nx\n", "one\n\ttwo  \n\nthree"] {
        let input = LineInput::new(chars(text));
        let mut rebuilt = strings(&input.lines).join("\n");
        if input.trailing_newline {
            rebuilt.push('\n');
        }
        assert_eq!(rebuilt, text);
    }
}

#[test]
fn detects_line_endings() {
    assert_eq!(line_ending_style(&chars("abc")), LineEndings::Absent);
    assert_eq!(line_ending_style(&chars("a\nb\n")), LineEndings::Lf);
    assert_eq!(line_ending_style(&chars("a\r\nb\r\n")), LineEndings::Crlf);
    assert_eq!(line_ending_style(&chars("a\rb\r")), LineEndings::Cr);
    assert_eq!(line_ending_style(&chars("a\r\nb\n")), LineEndings::Mixed);
    assert_eq!(line_ending_style(&chars("\r")), LineEndings::Cr);
    assert_eq!(LineEndings::Mixed.name(), "mixed");
}

#[test]
fn line_input_describes_its_text() {
    let input = LineInput::new(chars("x\r\ny\r\n"));
    assert_eq!(strings(&input.lines), vec!["x", "y"]);
    assert!(input.trailing_newline);
    assert_eq!(input.line_endings, LineEndings::Crlf);
}

#[test]
fn normalizes_whitespace_in_keys() {
    let key: String = normalize_key(&chars("  let \t x =  1  ")).iter().collect();
    assert_eq!(key, "let x = 1");
    let twice: String = normalize_key(&chars(&key)).iter().collect();
    assert_eq!(twice, key);
    assert!(normalize_key(&chars(" \t ")).is_empty());
    let wide: String = normalize_key(&chars("a\u{3000}b\u{a0}c")).iter().collect();
    assert_eq!(wide, "a b c");
}

#[test]
fn keys_match_exactly_when_words_match() {
    assert_eq!(normalize_key(&chars("let  x=1")), normalize_key(&chars(" let\tx=1 ")));
    assert_ne!(normalize_key(&chars("let x = 1")), normalize_key(&chars("let x=1")));
    assert_ne!(normalize_key(&chars("a b")), normalize_key(&chars("ab")));
    assert_ne!(normalize_key(&chars("a b")), normalize_key(&chars("b a")));
}

#[test]
fn tokenizes_lines() {
    assert_eq!(strings(&word_tokens(&chars("let x_1=(2);"))), vec!["let", " ", "x_1", "=(", "2", ");"]);
    assert_eq!(strings(&word_tokens(&chars(""))), Vec::<String>::new());
    assert_eq!(strings(&char_tokens(&chars("ab"))), vec!["a", "b"]);
    assert_eq!(token_kind(' '), 0);
    assert_eq!(token_kind('_'), 1);
    assert_eq!(token_kind('\u{e9}'), 1);
    assert_eq!(token_kind('('), 2);
}

#[test]
fn option_names_read_back() {
    for algorithm in [
        DiffAlgorithm::Myers,
        DiffAlgorithm::Patience,
        DiffAlgorithm::Lcs,
        DiffAlgorithm::Hunt,
        DiffAlgorithm::Histogram,
    ] {
        assert_eq!(parse_algorithm(algorithm_name(algorithm)).unwrap(), algorithm);
    }
    for mode in [InlineMode::Chars, InlineMode::Words, InlineMode::Disabled] {
        assert_eq!(parse_inline_mode(mode.name()).unwrap(), mode);
    }
}

#[test]
fn validates_raw_options() {
    let options = Options::from_raw(&RawOptions::default()).unwrap();
    assert_eq!(options.algorithm, DiffAlgorithm::Histogram);
    assert_eq!(options.inline, InlineMode::Words);
    assert!(options.unicode && options.semantic_cleanup);
    assert!(!options.ignore_whitespace && !options.show_whitespace);
}

#[test]
fn rejects_invalid_utf8_in_the_old_file_first() {
    let err = diff(b"\xff", b"\xfe", &Err("broken".to_string())).err().unwrap();
    assert_eq!(err, "old file is not valid UTF-8");
}

#[test]
fn rejects_invalid_utf8_in_the_new_file() {
    let err = diff(b"ok", b"\xc3", &Ok(RawOptions::default())).err().unwrap();
    assert_eq!(err, "new file is not valid UTF-8");
}

#[test]
fn reports_options_read_errors_as_invalid_json() {
    let err = diff(b"a", b"b", &Err("EOF while parsing".to_string())).err().unwrap();
    assert_eq!(err, "invalid options JSON: EOF while parsing");
}

#[test]
fn names_the_refused_algorithm_and_inline_mode() {
    let options = RawOptions { algorithm: "nope".to_string(), ..RawOptions::default() };
    let err = diff(b"a", b"b", &Ok(options)).err().unwrap();
    assert_eq!(err, "algorithm must be one of: myers, patience, lcs, hunt, histogram; got \"nope\"");

    let options = RawOptions { inline: "l\"x".to_string(), ..RawOptions::default() };
    let err = diff(b"a", b"b", &Ok(options)).err().unwrap();
    assert_eq!(err, "inline must be one of: chars, words, none; got \"l\\\"x\"");

    let options = RawOptions { algorithm: "x".to_string(), inline: "y".to_string(), ..RawOptions::default() };
    let err = diff(b"a", b"b", &Ok(options)).err().unwrap();
    assert!(err.starts_with("algorithm must be one of"));
}

#[test]
fn decodes_multibyte_text() {
    let report = run("caf\u{e9}\n", "caf\u{e9}\n", RawOptions::default());
    assert_eq!(report.rows[0].old.as_deref(), Some("caf\u{e9}"));
    assert_eq!(report.stats.equal_lines, 1);
}

#[test]
fn lists_messages_in_order() {
    let report = run("a", "a\r\n", RawOptions::default());
    assert_eq!(
        report.meta.messages,
        vec![
            "algorithm: histogram",
            "inline: words",
            "unicode inline tokenization enabled",
            "semantic cleanup enabled for inline spans",
            "files differ only by trailing newline",
            "line endings differ: none -> crlf",
        ]
    );
}

#[test]
fn keeps_grapheme_clusters_together_in_inline_chars() {
    let options = RawOptions { inline: "chars".to_string(), ..RawOptions::default() };
    let report = run("e\u{301}x\n", "e\u{301}y\n", options);
    let old_spans = report.rows[0].old_spans.as_ref().unwrap();

    assert_eq!(old_spans[0].kind, SpanKind::Equal);
    assert_eq!(old_spans[0].text, "e\u{301}");
    assert_eq!(old_spans[1].kind, SpanKind::Delete);
    assert_eq!(old_spans[1].text, "x");
}

#[test]
fn keeps_unicode_words_together_in_inline_words() {
    let report = run("can't stop\n", "can't go\n", RawOptions::default());
    let old_spans = report.rows[0].old_spans.as_ref().unwrap();
    let new_spans = report.rows[0].new_spans.as_ref().unwrap();

    assert_eq!(old_spans[0].text, "can't ");
    assert_eq!(old_spans[1].kind, SpanKind::Delete);
    assert_eq!(old_spans[1].text, "stop");
    assert_eq!(new_spans[1].kind, SpanKind::Insert);
    assert_eq!(new_spans[1].text, "go");
}

#[test]
fn whitespace_test_agrees_with_std() {
    for code in 0u32..=0x10ffff {
        if let Some(c) = char::from_u32(code) {
            assert_eq!(is_whitespace_char(c), c.is_whitespace(), "{code:x}");
        }
    }
}

#[test]
fn unchanged_rows_pair_matching_lines() {
    let old = "fn a() {\n  let  x = 1;\n}\nsame\n";
    let new = "fn a() {\n\tlet x = 1;\n}\nsame\nmore\n";
    for ignore_whitespace in [false, true] {
        for algorithm in ["myers", "patience", "lcs", "hunt", "histogram"] {
            let options = RawOptions { ignore_whitespace, algorithm: algorithm.to_string(), ..RawOptions::default() };
            let report = run(old, new, options);
            let mut equal = 0;
            for row in report.rows.iter().filter(|r| r.kind == RowKind::Equal) {
                let a = row.old.as_deref().unwrap();
                let b = row.new.as_deref().unwrap();
                if ignore_whitespace {
                    assert_eq!(normalize_key(&chars(a)), normalize_key(&chars(b)));
                } else {
                    assert_eq!(a, b);
                }
                equal += 1;
            }
            assert_eq!(equal, if ignore_whitespace { 4 } else { 3 });
        }
    }
}

#[test]
fn inline_sides_keep_their_kinds_and_share_unchanged_text() {
    for inline in ["chars", "words"] {
        for unicode in [true, false] {
            for semantic_cleanup in [true, false] {
                for show_whitespace in [true, false] {
                    let options = RawOptions {
                        inline: inline.to_string(),
                        unicode,
                        semantic_cleanup,
                        show_whitespace,
                        ..RawOptions::default()
                    };
                    let report = run("let value = compute(a, b)\n", "let  total = compute(a, c)\n", options);
                    let row = &report.rows[0];
                    assert_eq!(row.kind, RowKind::Replace);
                    let old_spans = row.old_spans.as_ref().unwrap();
                    let new_spans = row.new_spans.as_ref().unwrap();
                    let unchanged = |spans: &[InlineSpan]| -> String {
                        spans.iter().filter(|s| s.kind == SpanKind::Equal).map(|s| s.text.as_str()).collect()
                    };
                    assert_eq!(unchanged(old_spans), unchanged(new_spans));
                    assert!(!unchanged(old_spans).is_empty());
                    for span in old_spans {
                        assert!(!span.text.is_empty());
                        assert!(matches!(span.kind, SpanKind::Equal | SpanKind::Delete | SpanKind::DeleteMarker));
                    }
                    for span in new_spans {
                        assert!(!span.text.is_empty());
                        assert!(matches!(span.kind, SpanKind::Equal | SpanKind::Insert | SpanKind::InsertMarker));
                    }
                }
            }
        }
    }
}
