use diffst::inline::spans_from_script;
use diffst::options::algorithm_refusal;
use diffst::options::inline_refusal;
use diffst::options::Options;
use diffst::options::RawOptions;
use diffst::report::build_report;
use diffst::report::line_ops;
use diffst::script::DiffAlgorithm;
use diffst::text::normalize_key;
use diffst::report::RowKind;
use diffst::script::decode_script;
use diffst::script::EditOp;
use diffst::script::OpTag;
use diffst::spans::SpanKind;
use diffst::text::LineInput;

fn input(s: &str) -> LineInput {
    LineInput::new(s.chars().collect())
}

fn options() -> Options {
    Options::from_raw(&RawOptions::default()).unwrap()
}

fn tokens(ts: &[&str]) -> Vec<Vec<char>> {
    ts.iter().map(|t| t.chars().collect()).collect()
}

#[test]
fn decodes_a_tiling_script() {
    let raw = vec![(0u8, 0, 1, 0, 1), (3u8, 1, 2, 1, 3), (1u8, 2, 3, 3, 3)];
    let ops = decode_script(&raw, 3, 3).unwrap();
    assert_eq!(
        ops[1],
        EditOp { tag: OpTag::Replace, old_start: 1, old_end: 2, new_start: 1, new_end: 3 }
    );
    assert_eq!(ops[2].tag, OpTag::Delete);
}

#[test]
fn refuses_scripts_that_do_not_tile() {
    assert!(decode_script(&vec![(0u8, 0, 1, 0, 1)], 2, 2).is_none());
    assert!(decode_script(&vec![(5u8, 0, 1, 0, 1)], 1, 1).is_none());
    assert!(decode_script(&vec![(0u8, 0, 1, 0, 2)], 1, 2).is_none());
    assert!(decode_script(&vec![(2u8, 0, 0, 1, 2)], 0, 2).is_none());
    assert!(decode_script(&vec![], 0, 0).is_some());
}

#[test]
fn builds_a_report_from_a_script() {
    let old = input("a\nb\n");
    let new = input("a\nc\nd\n");
    let raw = vec![(0u8, 0, 1, 0, 1), (3u8, 1, 2, 1, 3)];
    let report = build_report(&old, &new, options(), &raw).unwrap();

    assert_eq!(report.rows.len(), 3);
    assert_eq!(report.rows[0].kind, RowKind::Equal);
    assert_eq!(report.rows[1].kind, RowKind::Replace);
    assert_eq!(report.rows[1].old.as_deref(), Some("b"));
    assert_eq!(report.rows[1].new.as_deref(), Some("c"));
    assert_eq!(report.rows[2].old, None);
    assert_eq!(report.rows[2].new.as_deref(), Some("d"));
    assert_eq!(report.ops.len(), 2);
    assert_eq!(report.ops[1].old_start, 2);
    assert_eq!(report.ops[1].new_start, 2);
    assert_eq!(report.ops[1].row_start, 1);
    assert_eq!(report.ops[1].row_len, 2);
    assert_eq!(report.stats.equal_lines, 1);
    assert_eq!(report.stats.deletions, 1);
    assert_eq!(report.stats.additions, 2);
    assert_eq!(report.stats.changed_blocks, 1);
}

#[test]
fn a_delete_op_needs_no_new_range() {
    let old = input("x\ny\n");
    let new = input("y\n");
    let raw = vec![(1u8, 0, 1, 7, 9), (0u8, 1, 2, 0, 1)];
    let report = build_report(&old, &new, options(), &raw).unwrap();

    assert_eq!(report.rows[0].kind, RowKind::Delete);
    assert_eq!(report.ops[0].new_start, 0);
    assert_eq!(report.ops[0].new_len, 0);
    assert_eq!(report.rows[1].new_no, Some(1));
}

#[test]
fn reports_a_line_script_that_does_not_tile() {
    let old = input("a\nb\n");
    let new = input("a\nb\n");
    let err = build_report(&old, &new, options(), &vec![(0u8, 0, 1, 0, 1)]).err().unwrap();
    assert_eq!(err, "line diff produced an inconsistent edit script");
}

#[test]
fn builds_spans_from_a_token_script() {
    let old = tokens(&["a", " ", "b"]);
    let new = tokens(&["a", " ", "c", "d"]);
    let raw = vec![(0u8, 0, 2, 0, 2), (3u8, 2, 3, 2, 4)];
    let (old_spans, new_spans) = spans_from_script(&raw, &old, &new, false).unwrap();
    let old_spans = old_spans.unwrap();
    let new_spans = new_spans.unwrap();

    assert_eq!(old_spans.len(), 2);
    assert_eq!(old_spans[0].kind, SpanKind::Equal);
    assert_eq!(old_spans[0].text, "a ");
    assert_eq!(old_spans[1].kind, SpanKind::Delete);
    assert_eq!(old_spans[1].text, "b");
    assert_eq!(new_spans[1].kind, SpanKind::Insert);
    assert_eq!(new_spans[1].text, "cd");
}

#[test]
fn marks_whitespace_only_in_changed_tokens() {
    let old = tokens(&["a", " ", "b"]);
    let new = tokens(&["a", " ", " "]);
    let raw = vec![(0u8, 0, 2, 0, 2), (3u8, 2, 3, 2, 3)];
    let (_, new_spans) = spans_from_script(&raw, &old, &new, true).unwrap();
    let new_spans = new_spans.unwrap();

    assert_eq!(new_spans[0].kind, SpanKind::Equal);
    assert_eq!(new_spans[0].text, "a ");
    assert_eq!(new_spans[1].kind, SpanKind::InsertMarker);
    assert_eq!(new_spans[1].text, "\u{b7}");
}

#[test]
fn reports_a_token_script_that_does_not_tile() {
    let old = tokens(&["a"]);
    let new = tokens(&["b"]);
    let err = spans_from_script(&vec![(3u8, 0, 1, 0, 2)], &old, &new, false).err().unwrap();
    assert_eq!(err, "inline diff produced an inconsistent edit script");
}

#[test]
fn refusal_messages() {
    assert_eq!(
        algorithm_refusal("\"x\""),
        "algorithm must be one of: myers, patience, lcs, hunt, histogram; got \"x\""
    );
    assert_eq!(inline_refusal("\"y\""), "inline must be one of: chars, words, none; got \"y\"");
}

#[test]
fn line_scripts_cover_both_sides_in_order_and_pair_matching_lines() {
    let old = input("a\n  b c\nd\ne\nf\n");
    let new = input("x\nb   c\nd\nf\ny\nz\n");
    for algorithm in [
        DiffAlgorithm::Myers,
        DiffAlgorithm::Patience,
        DiffAlgorithm::Lcs,
        DiffAlgorithm::Hunt,
        DiffAlgorithm::Histogram,
    ] {
        for ignore_whitespace in [false, true] {
            let raw = line_ops(algorithm, ignore_whitespace, &old.lines, &new.lines);
            let ops = decode_script(&raw, old.lines.len(), new.lines.len()).unwrap();
            let (mut i, mut j) = (0, 0);
            for op in &ops {
                match op.tag {
                    OpTag::Insert => assert_eq!(op.new_start, j),
                    OpTag::Delete => assert_eq!(op.old_start, i),
                    _ => {
                        assert_eq!(op.old_start, i);
                        assert_eq!(op.new_start, j);
                    },
                }
                if op.tag == OpTag::Equal {
                    for k in 0..op.old_end - op.old_start {
                        let a = &old.lines[op.old_start + k];
                        let b = &new.lines[op.new_start + k];
                        if ignore_whitespace {
                            assert_eq!(normalize_key(a), normalize_key(b));
                        } else {
                            assert_eq!(a, b);
                        }
                    }
                }
                if op.tag != OpTag::Insert {
                    i = op.old_end;
                }
                if op.tag != OpTag::Delete {
                    j = op.new_end;
                }
            }
            assert_eq!((i, j), (old.lines.len(), new.lines.len()));
        }
    }
}

#[test]
fn ignoring_whitespace_the_script_sees_only_keys() {
    let a = input("x  y\nz\n");
    let b = input("x y\n\tz \n");
    let other = input("x y\nw\n");
    for algorithm in [DiffAlgorithm::Myers, DiffAlgorithm::Histogram] {
        assert_eq!(
            line_ops(algorithm, true, &a.lines, &other.lines),
            line_ops(algorithm, true, &b.lines, &other.lines)
        );
    }
}
