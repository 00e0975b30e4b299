use diffst::diff;
use diffst::options::algorithm_name;
use diffst::options::RawOptions;
use diffst::report::DiffReport;
use diffst::spans::display_spans;
use diffst::spans::InlineSpan;
use diffst::spans::SpanKind;

fn run(old: &[u8], new: &[u8], options: RawOptions) -> Result<DiffReport, String> {
    diff(old, new, &Ok(options))
}

fn defaults() -> RawOptions {
    RawOptions::default()
}

fn similarity(report: &DiffReport) -> f64 {
    let total = report.stats.old_lines + report.stats.new_lines;
    if total == 0 {
        1.0
    } else {
        (2.0 * report.stats.equal_lines as f64) / total as f64
    }
}

fn spans(spans: &Option<Vec<InlineSpan>>) -> &Vec<InlineSpan> {
    spans.as_ref().unwrap()
}

#[test]
fn reports_basic_line_changes() {
    let report = run(b"a\nb\nc\n", b"a\nbee\nc\nd\n", defaults()).unwrap();

    assert_eq!(report.stats.deletions, 1);
    assert_eq!(report.stats.additions, 2);
    assert_eq!(report.stats.equal_lines, 2);
    assert_eq!(similarity(&report), 4.0 / 7.0);
    assert_eq!(report.rows.len(), 4);
}

#[test]
fn reports_full_similarity_for_empty_files() {
    let report = run(b"", b"", defaults()).unwrap();

    assert_eq!(similarity(&report), 1.0);
}

#[test]
fn reports_line_ops_with_row_ranges() {
    let report = run(b"a\nb\nc\n", b"a\nbee\nc\nd\n", defaults()).unwrap();
    let ops = &report.ops;

    assert_eq!(ops[0].kind.name(), "equal");
    assert_eq!(ops[1].kind.name(), "replace");
    assert_eq!(ops[2].kind.name(), "equal");
    assert_eq!(ops[3].kind.name(), "insert");
    assert_eq!(ops[1].row_start, 1);
    assert_eq!(ops[1].row_len, 1);
}

#[test]
fn can_ignore_whitespace() {
    let options = RawOptions { ignore_whitespace: true, ..defaults() };
    let report = run(b"let x = 1\n", b"let   x = 1\n", options).unwrap();

    assert_eq!(report.stats.deletions, 0);
    assert_eq!(report.stats.additions, 0);
}

#[test]
fn reports_inline_spans_for_replacements() {
    let report = run(b"hello world\n", b"hello typst\n", defaults()).unwrap();
    let row = &report.rows[0];

    assert_eq!(row.kind.name(), "replace");
    assert!(spans(&row.old_spans).iter().any(|span| span.kind.name() == "delete"));
    assert!(spans(&row.new_spans).iter().any(|span| span.kind.name() == "insert"));
}

#[test]
fn can_make_changed_whitespace_visible() {
    let options = RawOptions { show_whitespace: true, ..defaults() };
    let report = run(b"let x = 1\n", b"let x  = 1\n", options).unwrap();

    assert!(spans(&report.rows[0].new_spans)
        .iter()
        .any(|span| span.kind.name() == "insert-marker" && span.text.contains('\u{b7}')));
}

#[test]
fn can_mark_trailing_whitespace_on_equal_lines() {
    let options = RawOptions { show_whitespace: true, ..defaults() };
    let report = run(b"let x = 1  \n\ttrimmed\t\n", b"let x = 1  \n\ttrimmed\t\n", options).unwrap();
    let rows = &report.rows;

    assert_eq!(spans(&rows[0].old_spans)[0].text, "let x = 1");
    assert_eq!(spans(&rows[0].old_spans)[1].kind.name(), "equal-marker");
    assert_eq!(spans(&rows[0].old_spans)[1].text, "\u{b7}\u{b7}");
    assert_eq!(spans(&rows[1].old_spans)[0].text, "\ttrimmed");
    assert_eq!(spans(&rows[1].old_spans)[1].kind.name(), "equal-marker");
    assert_eq!(spans(&rows[1].old_spans)[1].text, "\u{2192}");
    assert_eq!(spans(&rows[0].new_spans)[1].kind.name(), "equal-marker");
    assert_eq!(spans(&rows[0].new_spans)[1].text, "\u{b7}\u{b7}");
    assert_eq!(spans(&rows[1].new_spans)[1].kind.name(), "equal-marker");
    assert_eq!(spans(&rows[1].new_spans)[1].text, "\u{2192}");
}

#[test]
fn can_mark_newline_chars_when_displaying_whitespace() {
    let text: Vec<char> = "a\nb\r\n".chars().collect();
    let spans = display_spans(&text, SpanKind::Equal, true);

    assert_eq!(spans[0].kind.name(), "equal");
    assert_eq!(spans[0].text, "a");
    assert_eq!(spans[1].kind.name(), "equal-marker");
    assert_eq!(spans[1].text, "\u{21b5}");
    assert_eq!(spans[2].kind.name(), "equal");
    assert_eq!(spans[2].text, "b");
    assert_eq!(spans[3].kind.name(), "equal-marker");
    assert_eq!(spans[3].text, "\u{240d}\u{21b5}");
}

#[test]
fn can_highlight_inline_words() {
    let options = RawOptions { inline: "words".to_string(), ..defaults() };
    let report = run(b"The quick brown fox\n", b"The quick amber fox\n", options).unwrap();

    assert!(spans(&report.rows[0].old_spans)
        .iter()
        .any(|span| span.kind.name() == "delete" && span.text == "brown"));
    assert!(spans(&report.rows[0].new_spans)
        .iter()
        .any(|span| span.kind.name() == "insert" && span.text == "amber"));
}

#[test]
fn defaults_to_unicode_graphemes_for_inline_chars() {
    let options = RawOptions { inline: "chars".to_string(), ..defaults() };
    let report = run("a\u{1f1e6}\u{1f1f9}b\n".as_bytes(), "a\u{1f1e6}\u{1f1f1}b\n".as_bytes(), options).unwrap();

    assert!(spans(&report.rows[0].old_spans)
        .iter()
        .any(|span| span.kind.name() == "delete" && span.text == "\u{1f1e6}\u{1f1f9}"));
    assert!(spans(&report.rows[0].new_spans)
        .iter()
        .any(|span| span.kind.name() == "insert" && span.text == "\u{1f1e6}\u{1f1f1}"));
}

#[test]
fn can_disable_unicode_inline_tokenization() {
    let options = RawOptions { inline: "chars".to_string(), unicode: false, ..defaults() };
    let report = run("a\u{1f1e6}\u{1f1f9}b\n".as_bytes(), "a\u{1f1e6}\u{1f1f1}b\n".as_bytes(), options).unwrap();

    assert!(spans(&report.rows[0].old_spans)
        .iter()
        .any(|span| span.kind.name() == "delete" && span.text == "\u{1f1f9}"));
    assert!(spans(&report.rows[0].new_spans)
        .iter()
        .any(|span| span.kind.name() == "insert" && span.text == "\u{1f1f1}"));
}

#[test]
fn can_disable_inline_spans_for_replacements() {
    let options = RawOptions { inline: "none".to_string(), ..defaults() };
    let report = run(b"hello world\n", b"hello typst\n", options).unwrap();

    assert_eq!(report.rows[0].kind.name(), "replace");
    assert!(report.rows[0].old_spans.is_none());
    assert!(report.rows[0].new_spans.is_none());
}

#[test]
fn accepts_semantic_cleanup_for_inline_spans() {
    let options = RawOptions { inline: "words".to_string(), semantic_cleanup: true, ..defaults() };
    let report = run(b"let value = compute(old_input)\n", b"let value = compute(new_input)\n", options).unwrap();

    assert_eq!(report.rows[0].kind.name(), "replace");
    assert!(report.rows[0].old_spans.is_some());
    assert!(report.rows[0].new_spans.is_some());
}

#[test]
fn defaults_to_presentable_diff_options() {
    let report = run(b"old input\n", b"new input\n", defaults()).unwrap();

    assert_eq!(algorithm_name(report.meta.algorithm), "histogram");
    assert_eq!(report.meta.inline.name(), "words");
    assert_eq!(report.meta.semantic_cleanup, true);
}

#[test]
fn reports_debug_metadata() {
    let options = RawOptions {
        algorithm: "patience".to_string(),
        inline: "words".to_string(),
        unicode: false,
        ignore_whitespace: true,
        show_whitespace: true,
        semantic_cleanup: true,
    };
    let report = run(b"let x = 1\n", b"let  x = 2\n", options).unwrap();
    let messages = &report.meta.messages;

    assert_eq!(algorithm_name(report.meta.algorithm), "patience");
    assert_eq!(report.meta.inline.name(), "words");
    assert_eq!(report.meta.unicode, false);
    assert_eq!(report.meta.ignore_whitespace, true);
    assert_eq!(report.meta.show_whitespace, true);
    assert_eq!(report.meta.semantic_cleanup, true);
    assert!(messages.iter().any(|message| message == "line matching ignores whitespace"));
    assert!(messages.iter().any(|message| message == "semantic cleanup enabled for inline spans"));
}

#[test]
fn reports_trailing_newline_metadata() {
    let report = run(b"a\n", b"a", defaults()).unwrap();
    let messages = &report.meta.messages;

    assert_eq!(report.meta.old_trailing_newline, true);
    assert_eq!(report.meta.new_trailing_newline, false);
    assert_eq!(report.meta.old_line_endings.name(), "lf");
    assert_eq!(report.meta.new_line_endings.name(), "none");
    assert!(messages.iter().any(|message| message == "files differ only by trailing newline"));
}

#[test]
fn reports_line_ending_metadata() {
    let report = run(b"a\r\nb\r\n", b"a\nb\n", defaults()).unwrap();
    let messages = &report.meta.messages;

    assert_eq!(report.meta.old_line_endings.name(), "crlf");
    assert_eq!(report.meta.new_line_endings.name(), "lf");
    assert!(messages.iter().any(|message| message == "line endings differ: crlf -> lf"));
}

#[test]
fn accepts_all_supported_algorithms() {
    for algorithm in ["myers", "patience", "lcs", "hunt", "histogram"] {
        let options = RawOptions { algorithm: algorithm.to_string(), ..defaults() };
        let report = run(b"a\nb\nc\n", b"a\nbee\nc\n", options).unwrap();

        assert_eq!(report.stats.deletions, 1);
        assert_eq!(report.stats.additions, 1);
    }
}

#[test]
fn rejects_unknown_algorithm() {
    let options = RawOptions { algorithm: "nope".to_string(), ..defaults() };
    let err = run(b"a\n", b"b\n", options).err().unwrap();

    assert!(err.contains("algorithm must be one of"));
}

#[test]
fn rejects_unknown_inline_mode() {
    let options = RawOptions { inline: "letters".to_string(), ..defaults() };
    let err = run(b"a\n", b"b\n", options).err().unwrap();

    assert!(err.contains("inline must be one of"));
}

#[test]
fn rejects_malformed_options_json() {
    let read = serde_json::from_slice::<serde_json::Value>(br#"{"inline":"chars""#).map_err(|e| e.to_string());
    let options = read.map(|_| defaults());
    let err = diff(b"a\n", b"b\n", &options).err().unwrap();

    assert!(err.contains("invalid options JSON"));
}
