//! The diff report: its rows, its ops, its statistics and its metadata, and
//! the builder that turns a line-level edit script into rows.

use vstd::prelude::*;
use crate::text::LineEndings;
use crate::text::LineInput;
use crate::text::line_endings_of;
use crate::text::normalize_key;
use crate::text::normalize_key_spec;
use crate::text::split_lines_spec;
use crate::text::lines_equal;
use crate::text::chars_equal;
use crate::text::string_from_chars;
use crate::text::view_lines;
use crate::spans::InlineSpan;
use crate::spans::SpanKind;
use crate::spans::SpanModel;
use crate::spans::deleted_spans;
use crate::spans::display_spans_spec;
use crate::spans::equal_spans;
use crate::spans::equal_spans_spec;
use crate::spans::inserted_spans;
use crate::spans::opt_shows;
use crate::spans::lemma_display_spans_show;
use crate::spans::lemma_equal_spans_show;
use crate::script::DiffAlgorithm;
use crate::script::EditOp;
use crate::script::OpTag;
use crate::script::RawOp;
use crate::script::fits_all;
use crate::script::decode_script;
use crate::script::decoded;
use crate::script::tags_known;
use crate::script::tiles;
use crate::script::lemma_op_in_bounds;
use crate::script::lemma_fits_prefix;
use crate::script::op_fits;
use crate::script::old_pos;
use crate::script::new_pos;
use crate::script::capture_diff_slices;
use crate::script::diff_ops;
use crate::script::view_strings;
use crate::script::equal_ops_match;
use crate::tokens::strings_of;
use crate::options::algorithm_name;
use crate::options::algorithm_name_spec;
use crate::options::InlineMode;
use crate::options::Options;
use crate::inline::inline_script_error;
use crate::inline::replace_result;
use crate::inline::replace_spans;
use crate::inline::view_opt_spans;

verus! {

/// What a row or an op of the report shows.
#[derive(Clone, Copy, Debug, PartialEq, Eq, Structural)]
pub enum RowKind {
    Equal,
    Delete,
    Insert,
    Replace,
}

impl RowKind {
    pub open spec fn name_spec(self) -> Seq<char> {
        match self {
            RowKind::Equal => "equal"@,
            RowKind::Delete => "delete"@,
            RowKind::Insert => "insert"@,
            RowKind::Replace => "replace"@,
        }
    }

    /// The report's name for this kind.
    pub fn name(self) -> (name: &'static str)
        ensures
            name@ == self.name_spec(),
    {
        match self {
            RowKind::Equal => "equal",
            RowKind::Delete => "delete",
            RowKind::Insert => "insert",
            RowKind::Replace => "replace",
        }
    }
}

/// One row of the side-by-side report. Line numbers start at 1.
pub struct DiffRow {
    pub kind: RowKind,
    pub old_no: Option<usize>,
    pub old: Option<String>,
    pub old_spans: Option<Vec<InlineSpan>>,
    pub new_no: Option<usize>,
    pub new: Option<String>,
    pub new_spans: Option<Vec<InlineSpan>>,
}

pub struct RowModel {
    pub kind: RowKind,
    pub old_no: Option<usize>,
    pub old: Option<Seq<char>>,
    pub old_spans: Option<Seq<SpanModel>>,
    pub new_no: Option<usize>,
    pub new: Option<Seq<char>>,
    pub new_spans: Option<Seq<SpanModel>>,
}

pub open spec fn view_opt_string(s: Option<String>) -> Option<Seq<char>> {
    match s {
        Some(t) => Some(t@),
        None => None,
    }
}

impl View for DiffRow {
    type V = RowModel;

    open spec fn view(&self) -> RowModel {
        RowModel {
            kind: self.kind,
            old_no: self.old_no,
            old: view_opt_string(self.old),
            old_spans: view_opt_spans(self.old_spans),
            new_no: self.new_no,
            new: view_opt_string(self.new),
            new_spans: view_opt_spans(self.new_spans),
        }
    }
}

pub open spec fn view_rows(rows: Seq<DiffRow>) -> Seq<RowModel> {
    rows.map_values(|r: DiffRow| r@)
}

/// One line-level op of the report, with 1-based line ranges (0 where a side
/// is absent) and the range of rows it produced.
#[derive(Clone, Copy, Debug, PartialEq, Eq, Structural)]
pub struct ReportOp {
    pub kind: RowKind,
    pub old_start: usize,
    pub old_len: usize,
    pub new_start: usize,
    pub new_len: usize,
    pub row_start: usize,
    pub row_len: usize,
}

/// Line counts of the report. The similarity ratio, a float, is computed
/// from them outside the library.
#[derive(Clone, Copy, Debug, PartialEq, Eq, Structural)]
pub struct DiffStats {
    pub old_lines: usize,
    pub new_lines: usize,
    pub additions: usize,
    pub deletions: usize,
    pub changed_blocks: usize,
    pub equal_lines: usize,
}

/// The resolved options and diagnostics of a report.
pub struct DiffMeta {
    pub algorithm: DiffAlgorithm,
    pub inline: InlineMode,
    pub ignore_whitespace: bool,
    pub show_whitespace: bool,
    pub unicode: bool,
    pub semantic_cleanup: bool,
    pub old_trailing_newline: bool,
    pub new_trailing_newline: bool,
    pub old_line_endings: LineEndings,
    pub new_line_endings: LineEndings,
    pub messages: Vec<String>,
}

pub struct MetaModel {
    pub algorithm: DiffAlgorithm,
    pub inline: InlineMode,
    pub ignore_whitespace: bool,
    pub show_whitespace: bool,
    pub unicode: bool,
    pub semantic_cleanup: bool,
    pub old_trailing_newline: bool,
    pub new_trailing_newline: bool,
    pub old_line_endings: LineEndings,
    pub new_line_endings: LineEndings,
    pub messages: Seq<Seq<char>>,
}

impl View for DiffMeta {
    type V = MetaModel;

    open spec fn view(&self) -> MetaModel {
        MetaModel {
            algorithm: self.algorithm,
            inline: self.inline,
            ignore_whitespace: self.ignore_whitespace,
            show_whitespace: self.show_whitespace,
            unicode: self.unicode,
            semantic_cleanup: self.semantic_cleanup,
            old_trailing_newline: self.old_trailing_newline,
            new_trailing_newline: self.new_trailing_newline,
            old_line_endings: self.old_line_endings,
            new_line_endings: self.new_line_endings,
            messages: self.messages@.map_values(|m: String| m@),
        }
    }
}

/// A whole report.
pub struct DiffReport {
    pub meta: DiffMeta,
    pub stats: DiffStats,
    pub ops: Vec<ReportOp>,
    pub rows: Vec<DiffRow>,
}

pub struct ReportModel {
    pub meta: MetaModel,
    pub stats: DiffStats,
    pub ops: Seq<ReportOp>,
    pub rows: Seq<RowModel>,
}

impl View for DiffReport {
    type V = ReportModel;

    open spec fn view(&self) -> ReportModel {
        ReportModel { meta: self.meta@, stats: self.stats, ops: self.ops@, rows: view_rows(self.rows@) }
    }
}

/// The spans of a row, on each side where there are any, show that side's
/// line: the line itself, with some whitespace drawn as markers.
pub open spec fn row_shows_lines(row: RowModel) -> bool {
    opt_shows(row.old_spans, row.old) && opt_shows(row.new_spans, row.new)
}

pub open spec fn rows_show_lines(rows: Seq<RowModel>) -> bool {
    forall|k: int| 0 <= k < rows.len() ==> row_shows_lines(#[trigger] rows[k])
}

proof fn lemma_rows_show_append(a: Seq<RowModel>, b: Seq<RowModel>)
    requires
        rows_show_lines(a),
        rows_show_lines(b),
    ensures
        rows_show_lines(a + b),
{
    assert forall|k: int| 0 <= k < (a + b).len() implies row_shows_lines(#[trigger] (a + b)[k]) by {
        if k < a.len() {
            assert((a + b)[k] == a[k]);
        } else {
            assert((a + b)[k] == b[k - a.len()]);
        }
    }
}

/// The rows of an unchanged, deleted or inserted block show their lines.
proof fn lemma_op_rows_show(op: EditOp, old_lines: Seq<Seq<char>>, new_lines: Seq<Seq<char>>, options: Options)
    requires
        op.tag != OpTag::Replace,
    ensures
        op_rows(op, old_lines, new_lines, options) matches Some(rows) ==> rows_show_lines(rows),
{
    let os = op.old_start as int;
    let ns = op.new_start as int;
    let sw = options.show_whitespace;
    let rows = op_rows(op, old_lines, new_lines, options).unwrap();
    assert forall|k: int| 0 <= k < rows.len() implies row_shows_lines(#[trigger] rows[k]) by {
        match op.tag {
            OpTag::Equal => {
                lemma_equal_spans_show(old_lines[os + k], sw);
                lemma_equal_spans_show(new_lines[ns + k], sw);
            },
            OpTag::Delete => {
                lemma_display_spans_show(old_lines[os + k], SpanKind::Delete, sw);
            },
            _ => {
                lemma_display_spans_show(new_lines[ns + k], SpanKind::Insert, sw);
            },
        }
    }
}

/// The rows of an unchanged block.
pub open spec fn equal_rows(
    old_index: int,
    new_index: int,
    len: int,
    old_lines: Seq<Seq<char>>,
    new_lines: Seq<Seq<char>>,
    show_whitespace: bool,
) -> Seq<RowModel> {
    Seq::new(
        len as nat,
        |k: int|
            RowModel {
                kind: RowKind::Equal,
                old_no: Some((old_index + k + 1) as usize),
                old: Some(old_lines[old_index + k]),
                old_spans: equal_spans_spec(old_lines[old_index + k], show_whitespace),
                new_no: Some((new_index + k + 1) as usize),
                new: Some(new_lines[new_index + k]),
                new_spans: equal_spans_spec(new_lines[new_index + k], show_whitespace),
            },
    )
}

/// The rows of a deleted block.
pub open spec fn delete_rows(
    old_index: int,
    old_len: int,
    old_lines: Seq<Seq<char>>,
    show_whitespace: bool,
) -> Seq<RowModel> {
    Seq::new(
        old_len as nat,
        |k: int|
            RowModel {
                kind: RowKind::Delete,
                old_no: Some((old_index + k + 1) as usize),
                old: Some(old_lines[old_index + k]),
                old_spans: Some(display_spans_spec(old_lines[old_index + k], SpanKind::Delete, show_whitespace)),
                new_no: None,
                new: None,
                new_spans: None,
            },
    )
}

/// The rows of an inserted block.
pub open spec fn insert_rows(
    new_index: int,
    new_len: int,
    new_lines: Seq<Seq<char>>,
    show_whitespace: bool,
) -> Seq<RowModel> {
    Seq::new(
        new_len as nat,
        |k: int|
            RowModel {
                kind: RowKind::Insert,
                old_no: None,
                old: None,
                old_spans: None,
                new_no: Some((new_index + k + 1) as usize),
                new: Some(new_lines[new_index + k]),
                new_spans: Some(display_spans_spec(new_lines[new_index + k], SpanKind::Insert, show_whitespace)),
            },
    )
}

pub open spec fn opt_line(lines: Seq<Seq<char>>, index: int, offset: int, len: int) -> Option<Seq<char>> {
    if offset < len {
        Some(lines[index + offset])
    } else {
        None
    }
}

pub open spec fn opt_no(index: int, offset: int, len: int) -> Option<usize> {
    if offset < len {
        Some((index + offset + 1) as usize)
    } else {
        None
    }
}

/// The first `count` rows of a replaced block, or `None` when the inline
/// highlight of one of them fails.
pub open spec fn replace_rows(
    count: nat,
    old_index: int,
    old_len: int,
    new_index: int,
    new_len: int,
    old_lines: Seq<Seq<char>>,
    new_lines: Seq<Seq<char>>,
    options: Options,
) -> Option<Seq<RowModel>>
    decreases count,
{
    if count == 0 {
        Some(Seq::<RowModel>::empty())
    } else {
        let k = count - 1;
        match (
            replace_rows((count - 1) as nat, old_index, old_len, new_index, new_len, old_lines, new_lines, options),
            replace_result(
                opt_line(old_lines, old_index, k, old_len),
                opt_line(new_lines, new_index, k, new_len),
                options,
            ),
        ) {
            (Some(rows), Some(spans)) => Some(
                rows.push(
                    RowModel {
                        kind: RowKind::Replace,
                        old_no: opt_no(old_index, k, old_len),
                        old: opt_line(old_lines, old_index, k, old_len),
                        old_spans: spans.0,
                        new_no: opt_no(new_index, k, new_len),
                        new: opt_line(new_lines, new_index, k, new_len),
                        new_spans: spans.1,
                    },
                ),
            ),
            _ => None,
        }
    }
}

pub open spec fn max(a: int, b: int) -> int {
    if a >= b {
        a
    } else {
        b
    }
}

/// The number of rows an op produces: one per line of its longer side.
pub open spec fn op_row_count(op: EditOp) -> int {
    match op.tag {
        OpTag::Equal => op.old_end - op.old_start,
        OpTag::Delete => op.old_end - op.old_start,
        OpTag::Insert => op.new_end - op.new_start,
        OpTag::Replace => max(op.old_end - op.old_start, op.new_end - op.new_start),
    }
}

/// The rows of one line-level op, or `None` when an inline highlight fails.
pub open spec fn op_rows(
    op: EditOp,
    old_lines: Seq<Seq<char>>,
    new_lines: Seq<Seq<char>>,
    options: Options,
) -> Option<Seq<RowModel>> {
    let oi = op.old_start as int;
    let ol = op.old_end - op.old_start;
    let ni = op.new_start as int;
    let nl = op.new_end - op.new_start;
    match op.tag {
        OpTag::Equal => Some(equal_rows(oi, ni, ol, old_lines, new_lines, options.show_whitespace)),
        OpTag::Delete => Some(delete_rows(oi, ol, old_lines, options.show_whitespace)),
        OpTag::Insert => Some(insert_rows(ni, nl, new_lines, options.show_whitespace)),
        OpTag::Replace => replace_rows(max(ol, nl) as nat, oi, ol, ni, nl, old_lines, new_lines, options),
    }
}

/// The report op recorded for a line-level op whose rows start at `row_start`.
pub open spec fn report_op(op: EditOp, row_start: int) -> ReportOp {
    let oi = op.old_start as int;
    let ol = op.old_end - op.old_start;
    let ni = op.new_start as int;
    let nl = op.new_end - op.new_start;
    match op.tag {
        OpTag::Equal => ReportOp {
            kind: RowKind::Equal,
            old_start: (oi + 1) as usize,
            old_len: ol as usize,
            new_start: (ni + 1) as usize,
            new_len: ol as usize,
            row_start: row_start as usize,
            row_len: ol as usize,
        },
        OpTag::Delete => ReportOp {
            kind: RowKind::Delete,
            old_start: (oi + 1) as usize,
            old_len: ol as usize,
            new_start: 0,
            new_len: 0,
            row_start: row_start as usize,
            row_len: ol as usize,
        },
        OpTag::Insert => ReportOp {
            kind: RowKind::Insert,
            old_start: 0,
            old_len: 0,
            new_start: (ni + 1) as usize,
            new_len: nl as usize,
            row_start: row_start as usize,
            row_len: nl as usize,
        },
        OpTag::Replace => ReportOp {
            kind: RowKind::Replace,
            old_start: (oi + 1) as usize,
            old_len: ol as usize,
            new_start: (ni + 1) as usize,
            new_len: nl as usize,
            row_start: row_start as usize,
            row_len: max(ol, nl) as usize,
        },
    }
}

pub struct ReportBuilder<'a> {
    pub report: DiffReport,
    pub old_lines: &'a Vec<Vec<char>>,
    pub new_lines: &'a Vec<Vec<char>>,
    pub options: Options,
}

impl<'a> ReportBuilder<'a> {
    pub open spec fn rows_view(&self) -> Seq<RowModel> {
        view_rows(self.report.rows@)
    }

    pub open spec fn old_view(&self) -> Seq<Seq<char>> {
        view_lines(self.old_lines@)
    }

    pub open spec fn new_view(&self) -> Seq<Seq<char>> {
        view_lines(self.new_lines@)
    }

    /// Line numbers of both inputs fit in `usize`.
    pub open spec fn lines_fit(&self) -> bool {
        self.old_lines@.len() < usize::MAX && self.new_lines@.len() < usize::MAX
    }

    /// Everything but the rows, the ops and the stats stays as it was.
    pub open spec fn same_frame(&self, other: &Self) -> bool {
        &&& self.old_lines == other.old_lines
        &&& self.new_lines == other.new_lines
        &&& self.options == other.options
        &&& self.report.meta@ == other.report.meta@
        &&& self.report.stats.old_lines == other.report.stats.old_lines
        &&& self.report.stats.new_lines == other.report.stats.new_lines
    }

    fn push_op(
        &mut self,
        kind: RowKind,
        old_start: usize,
        old_len: usize,
        new_start: usize,
        new_len: usize,
        row_start: usize,
    )
        requires
            row_start <= old(self).report.rows@.len(),
        ensures
            final(self).same_frame(old(self)),
            final(self).report.rows@ == old(self).report.rows@,
            final(self).report.stats == old(self).report.stats,
            final(self).report.ops@ == old(self).report.ops@.push(
                ReportOp {
                    kind,
                    old_start,
                    old_len,
                    new_start,
                    new_len,
                    row_start,
                    row_len: (old(self).report.rows@.len() - row_start) as usize,
                },
            ),
    {
        let row_len = self.report.rows.len() - row_start;
        self.report.ops.push(ReportOp { kind, old_start, old_len, new_start, new_len, row_start, row_len });
    }

    pub(crate) fn push_equal(&mut self, old_index: usize, new_index: usize, len: usize)
        requires
            old(self).lines_fit(),
            old_index + len <= old(self).old_lines@.len(),
            new_index + len <= old(self).new_lines@.len(),
            old(self).report.stats.equal_lines + len <= usize::MAX,
        ensures
            final(self).same_frame(old(self)),
            final(self).rows_view() == old(self).rows_view() + equal_rows(
                old_index as int,
                new_index as int,
                len as int,
                old(self).old_view(),
                old(self).new_view(),
                old(self).options.show_whitespace,
            ),
            final(self).report.stats == (DiffStats {
                equal_lines: (old(self).report.stats.equal_lines + len) as usize,
                ..old(self).report.stats
            }),
            final(self).report.ops@ == old(self).report.ops@.push(
                ReportOp {
                    kind: RowKind::Equal,
                    old_start: (old_index + 1) as usize,
                    old_len: len,
                    new_start: (new_index + 1) as usize,
                    new_len: len,
                    row_start: old(self).report.rows@.len() as usize,
                    row_len: len,
                },
            ),
    {
        let row_start = self.report.rows.len();
        self.report.stats.equal_lines += len;
        let ghost first = self.rows_view();
        let ghost expected = equal_rows(
            old_index as int,
            new_index as int,
            len as int,
            self.old_view(),
            self.new_view(),
            self.options.show_whitespace,
        );
        let old_lines = self.old_lines;
        let new_lines = self.new_lines;
        let show_whitespace = self.options.show_whitespace;
        let mut offset: usize = 0;
        while offset < len
            invariant
                offset <= len,
                old_lines@.len() < usize::MAX,
                new_lines@.len() < usize::MAX,
                old_index + len <= old_lines@.len(),
                new_index + len <= new_lines@.len(),
                old_lines == self.old_lines,
                new_lines == self.new_lines,
                show_whitespace == self.options.show_whitespace,
                expected == equal_rows(
                    old_index as int,
                    new_index as int,
                    len as int,
                    view_lines(old_lines@),
                    view_lines(new_lines@),
                    show_whitespace,
                ),
                self.rows_view() == first + expected.take(offset as int),
                self.same_frame(old(self)),
                self.report.stats == (DiffStats {
                    equal_lines: (old(self).report.stats.equal_lines + len) as usize,
                    ..old(self).report.stats
                }),
                self.report.ops@ == old(self).report.ops@,
                row_start == old(self).report.rows@.len(),
            decreases len - offset,
        {
            let old_line = &old_lines[old_index + offset];
            let new_line = &new_lines[new_index + offset];
            let row = DiffRow {
                kind: RowKind::Equal,
                old_no: Some(old_index + offset + 1),
                old: Some(string_from_chars(old_line.as_slice())),
                old_spans: equal_spans(old_line.as_slice(), show_whitespace),
                new_no: Some(new_index + offset + 1),
                new: Some(string_from_chars(new_line.as_slice())),
                new_spans: equal_spans(new_line.as_slice(), show_whitespace),
            };
            let ghost before = self.report.rows@;
            let ghost row_view = row@;
            proof {
                assert(row_view == expected[offset as int]);
            }
            self.report.rows.push(row);
            proof {
                assert(self.report.rows@ == before.push(self.report.rows@.last()));
                assert(view_rows(self.report.rows@) =~= view_rows(before).push(row_view));
                assert(expected.take(offset + 1) =~= expected.take(offset as int).push(expected[offset as int]));
                assert(self.rows_view() =~= first + expected.take(offset + 1));
            }
            offset = offset + 1;
        }
        proof {
            assert(expected.take(len as int) =~= expected);
        }
        self.push_op(RowKind::Equal, old_index + 1, len, new_index + 1, len, row_start);
    }

    pub(crate) fn push_delete(&mut self, old_index: usize, old_len: usize)
        requires
            old(self).lines_fit(),
            old_index + old_len <= old(self).old_lines@.len(),
            old(self).report.stats.deletions + old_len <= usize::MAX,
            old(self).report.stats.changed_blocks + 1 <= usize::MAX,
        ensures
            final(self).same_frame(old(self)),
            final(self).rows_view() == old(self).rows_view() + delete_rows(
                old_index as int,
                old_len as int,
                old(self).old_view(),
                old(self).options.show_whitespace,
            ),
            final(self).report.stats == (DiffStats {
                deletions: (old(self).report.stats.deletions + old_len) as usize,
                changed_blocks: (old(self).report.stats.changed_blocks + 1) as usize,
                ..old(self).report.stats
            }),
            final(self).report.ops@ == old(self).report.ops@.push(
                ReportOp {
                    kind: RowKind::Delete,
                    old_start: (old_index + 1) as usize,
                    old_len,
                    new_start: 0,
                    new_len: 0,
                    row_start: old(self).report.rows@.len() as usize,
                    row_len: old_len,
                },
            ),
    {
        let row_start = self.report.rows.len();
        self.report.stats.changed_blocks += 1;
        self.report.stats.deletions += old_len;
        let ghost first = self.rows_view();
        let ghost expected = delete_rows(old_index as int, old_len as int, self.old_view(), self.options.show_whitespace);
        let old_lines = self.old_lines;
        let show_whitespace = self.options.show_whitespace;
        let mut offset: usize = 0;
        while offset < old_len
            invariant
                offset <= old_len,
                old_lines@.len() < usize::MAX,
                old_index + old_len <= old_lines@.len(),
                old_lines == self.old_lines,
                show_whitespace == self.options.show_whitespace,
                expected == delete_rows(old_index as int, old_len as int, view_lines(old_lines@), show_whitespace),
                self.rows_view() == first + expected.take(offset as int),
                self.same_frame(old(self)),
                self.report.stats == (DiffStats {
                    deletions: (old(self).report.stats.deletions + old_len) as usize,
                    changed_blocks: (old(self).report.stats.changed_blocks + 1) as usize,
                    ..old(self).report.stats
                }),
                self.report.ops@ == old(self).report.ops@,
                row_start == old(self).report.rows@.len(),
            decreases old_len - offset,
        {
            let old_line = &old_lines[old_index + offset];
            let row = DiffRow {
                kind: RowKind::Delete,
                old_no: Some(old_index + offset + 1),
                old: Some(string_from_chars(old_line.as_slice())),
                old_spans: Some(deleted_spans(old_line.as_slice(), show_whitespace)),
                new_no: None,
                new: None,
                new_spans: None,
            };
            let ghost before = self.report.rows@;
            let ghost row_view = row@;
            proof {
                assert(row_view == expected[offset as int]);
            }
            self.report.rows.push(row);
            proof {
                assert(self.report.rows@ == before.push(self.report.rows@.last()));
                assert(view_rows(self.report.rows@) =~= view_rows(before).push(row_view));
                assert(expected.take(offset + 1) =~= expected.take(offset as int).push(expected[offset as int]));
                assert(self.rows_view() =~= first + expected.take(offset + 1));
            }
            offset = offset + 1;
        }
        proof {
            assert(expected.take(old_len as int) =~= expected);
        }
        self.push_op(RowKind::Delete, old_index + 1, old_len, 0, 0, row_start);
    }

    pub(crate) fn push_insert(&mut self, new_index: usize, new_len: usize)
        requires
            old(self).lines_fit(),
            new_index + new_len <= old(self).new_lines@.len(),
            old(self).report.stats.additions + new_len <= usize::MAX,
            old(self).report.stats.changed_blocks + 1 <= usize::MAX,
        ensures
            final(self).same_frame(old(self)),
            final(self).rows_view() == old(self).rows_view() + insert_rows(
                new_index as int,
                new_len as int,
                old(self).new_view(),
                old(self).options.show_whitespace,
            ),
            final(self).report.stats == (DiffStats {
                additions: (old(self).report.stats.additions + new_len) as usize,
                changed_blocks: (old(self).report.stats.changed_blocks + 1) as usize,
                ..old(self).report.stats
            }),
            final(self).report.ops@ == old(self).report.ops@.push(
                ReportOp {
                    kind: RowKind::Insert,
                    old_start: 0,
                    old_len: 0,
                    new_start: (new_index + 1) as usize,
                    new_len,
                    row_start: old(self).report.rows@.len() as usize,
                    row_len: new_len,
                },
            ),
    {
        let row_start = self.report.rows.len();
        self.report.stats.changed_blocks += 1;
        self.report.stats.additions += new_len;
        let ghost first = self.rows_view();
        let ghost expected = insert_rows(new_index as int, new_len as int, self.new_view(), self.options.show_whitespace);
        let new_lines = self.new_lines;
        let show_whitespace = self.options.show_whitespace;
        let mut offset: usize = 0;
        while offset < new_len
            invariant
                offset <= new_len,
                new_lines@.len() < usize::MAX,
                new_index + new_len <= new_lines@.len(),
                new_lines == self.new_lines,
                show_whitespace == self.options.show_whitespace,
                expected == insert_rows(new_index as int, new_len as int, view_lines(new_lines@), show_whitespace),
                self.rows_view() == first + expected.take(offset as int),
                self.same_frame(old(self)),
                self.report.stats == (DiffStats {
                    additions: (old(self).report.stats.additions + new_len) as usize,
                    changed_blocks: (old(self).report.stats.changed_blocks + 1) as usize,
                    ..old(self).report.stats
                }),
                self.report.ops@ == old(self).report.ops@,
                row_start == old(self).report.rows@.len(),
            decreases new_len - offset,
        {
            let new_line = &new_lines[new_index + offset];
            let row = DiffRow {
                kind: RowKind::Insert,
                old_no: None,
                old: None,
                old_spans: None,
                new_no: Some(new_index + offset + 1),
                new: Some(string_from_chars(new_line.as_slice())),
                new_spans: Some(inserted_spans(new_line.as_slice(), show_whitespace)),
            };
            let ghost before = self.report.rows@;
            let ghost row_view = row@;
            proof {
                assert(row_view == expected[offset as int]);
            }
            self.report.rows.push(row);
            proof {
                assert(self.report.rows@ == before.push(self.report.rows@.last()));
                assert(view_rows(self.report.rows@) =~= view_rows(before).push(row_view));
                assert(expected.take(offset + 1) =~= expected.take(offset as int).push(expected[offset as int]));
                assert(self.rows_view() =~= first + expected.take(offset + 1));
            }
            offset = offset + 1;
        }
        proof {
            assert(expected.take(new_len as int) =~= expected);
        }
        self.push_op(RowKind::Insert, 0, 0, new_index + 1, new_len, row_start);
    }

    pub(crate) fn push_replace(&mut self, old_index: usize, old_len: usize, new_index: usize, new_len: usize) -> (pushed:
        Result<(), String>)
        requires
            old(self).lines_fit(),
            old_index + old_len <= old(self).old_lines@.len(),
            new_index + new_len <= old(self).new_lines@.len(),
            old(self).report.stats.deletions + old_len <= usize::MAX,
            old(self).report.stats.additions + new_len <= usize::MAX,
            old(self).report.stats.changed_blocks + 1 <= usize::MAX,
        ensures
            final(self).same_frame(old(self)),
            final(self).report.stats == (DiffStats {
                deletions: (old(self).report.stats.deletions + old_len) as usize,
                additions: (old(self).report.stats.additions + new_len) as usize,
                changed_blocks: (old(self).report.stats.changed_blocks + 1) as usize,
                ..old(self).report.stats
            }),
            match replace_rows(
                max(old_len as int, new_len as int) as nat,
                old_index as int,
                old_len as int,
                new_index as int,
                new_len as int,
                old(self).old_view(),
                old(self).new_view(),
                old(self).options,
            ) {
                Some(rows) => {
                    &&& pushed is Ok
                    &&& final(self).rows_view() == old(self).rows_view() + rows
                    &&& final(self).report.ops@ == old(self).report.ops@.push(
                        ReportOp {
                            kind: RowKind::Replace,
                            old_start: (old_index + 1) as usize,
                            old_len,
                            new_start: (new_index + 1) as usize,
                            new_len,
                            row_start: old(self).report.rows@.len() as usize,
                            row_len: max(old_len as int, new_len as int) as usize,
                        },
                    )
                },
                None => pushed matches Err(e) && e@ == inline_script_error(),
            },
            pushed is Ok && rows_show_lines(old(self).rows_view()) ==> rows_show_lines(final(self).rows_view()),
            pushed is Ok,
    {
        let row_start = self.report.rows.len();
        self.report.stats.changed_blocks += 1;
        self.report.stats.deletions += old_len;
        self.report.stats.additions += new_len;
        let ghost first = self.rows_view();
        let old_lines = self.old_lines;
        let new_lines = self.new_lines;
        let options = self.options;
        let count = if old_len >= new_len {
            old_len
        } else {
            new_len
        };
        let mut offset: usize = 0;
        while offset < count
            invariant
                offset <= count,
                count == max(old_len as int, new_len as int),
                old_lines@.len() < usize::MAX,
                new_lines@.len() < usize::MAX,
                old_index + old_len <= old_lines@.len(),
                new_index + new_len <= new_lines@.len(),
                old_lines == self.old_lines,
                new_lines == self.new_lines,
                options == self.options,
                replace_rows(
                    offset as nat,
                    old_index as int,
                    old_len as int,
                    new_index as int,
                    new_len as int,
                    view_lines(old_lines@),
                    view_lines(new_lines@),
                    options,
                ) == Some(self.rows_view().skip(first.len() as int)),
                self.rows_view().take(first.len() as int) == first,
                self.rows_view().len() >= first.len(),
                self.same_frame(old(self)),
                self.report.stats == (DiffStats {
                    deletions: (old(self).report.stats.deletions + old_len) as usize,
                    additions: (old(self).report.stats.additions + new_len) as usize,
                    changed_blocks: (old(self).report.stats.changed_blocks + 1) as usize,
                    ..old(self).report.stats
                }),
                self.report.ops@ == old(self).report.ops@,
                row_start == old(self).report.rows@.len(),
                first == view_rows(old(self).report.rows@),
                rows_show_lines(first) ==> rows_show_lines(self.rows_view()),
            decreases count - offset,
        {
            let old_line: Option<&Vec<char>> = if offset < old_len {
                Some(&old_lines[old_index + offset])
            } else {
                None
            };
            let new_line: Option<&Vec<char>> = if offset < new_len {
                Some(&new_lines[new_index + offset])
            } else {
                None
            };
            let ghost rest = replace_rows(
                offset as nat,
                old_index as int,
                old_len as int,
                new_index as int,
                new_len as int,
                view_lines(old_lines@),
                view_lines(new_lines@),
                options,
            );
            let spans = replace_spans(old_line, new_line, options);
            let (old_spans, new_spans) = match spans {
                Ok(pair) => pair,
                Err(e) => {
                    proof {
                        lemma_replace_rows_fail(
                            (offset + 1) as nat,
                            count as nat,
                            old_index as int,
                            old_len as int,
                            new_index as int,
                            new_len as int,
                            view_lines(old_lines@),
                            view_lines(new_lines@),
                            options,
                        );
                    }
                    return Err(e);
                },
            };
            let row = DiffRow {
                kind: RowKind::Replace,
                old_no: if offset < old_len {
                    Some(old_index + offset + 1)
                } else {
                    None
                },
                old: match old_line {
                    Some(line) => Some(string_from_chars(line.as_slice())),
                    None => None,
                },
                old_spans,
                new_no: if offset < new_len {
                    Some(new_index + offset + 1)
                } else {
                    None
                },
                new: match new_line {
                    Some(line) => Some(string_from_chars(line.as_slice())),
                    None => None,
                },
                new_spans,
            };
            let ghost before = self.report.rows@;
            let ghost row_view = row@;
            proof {
                assert(row_shows_lines(row_view));
            }
            self.report.rows.push(row);
            proof {
                assert(self.report.rows@ == before.push(self.report.rows@.last()));
                assert(view_rows(self.report.rows@) =~= view_rows(before).push(row_view));
                if rows_show_lines(first) {
                    assert forall|q: int| 0 <= q < view_rows(self.report.rows@).len() implies row_shows_lines(
                        #[trigger] view_rows(self.report.rows@)[q],
                    ) by {
                        if q < view_rows(before).len() {
                            assert(view_rows(self.report.rows@)[q] == view_rows(before)[q]);
                        }
                    }
                }
                let now = self.rows_view();
                assert(now.take(first.len() as int) =~= first);
                assert(now.skip(first.len() as int) =~= rest.unwrap().push(row_view));
            }
            offset = offset + 1;
        }
        proof {
            assert(self.rows_view() =~= first + self.rows_view().skip(first.len() as int));
            lemma_replace_rows_len(
                count as nat,
                old_index as int,
                old_len as int,
                new_index as int,
                new_len as int,
                view_lines(old_lines@),
                view_lines(new_lines@),
                options,
            );
        }
        self.push_op(RowKind::Replace, old_index + 1, old_len, new_index + 1, new_len, row_start);
        Ok(())
    }

    /// The finished report.
    pub fn finish(self) -> (report: DiffReport)
        ensures
            report == self.report,
    {
        self.report
    }
}

pub proof fn lemma_replace_rows_len(
    count: nat,
    old_index: int,
    old_len: int,
    new_index: int,
    new_len: int,
    old_lines: Seq<Seq<char>>,
    new_lines: Seq<Seq<char>>,
    options: Options,
)
    ensures
        replace_rows(count, old_index, old_len, new_index, new_len, old_lines, new_lines, options) matches Some(
            rows,
        ) ==> rows.len() == count,
    decreases count,
{
    if count > 0 {
        lemma_replace_rows_len(
            (count - 1) as nat,
            old_index,
            old_len,
            new_index,
            new_len,
            old_lines,
            new_lines,
            options,
        );
    }
}

proof fn lemma_replace_rows_fail(
    failed: nat,
    later: nat,
    old_index: int,
    old_len: int,
    new_index: int,
    new_len: int,
    old_lines: Seq<Seq<char>>,
    new_lines: Seq<Seq<char>>,
    options: Options,
)
    requires
        failed <= later,
        replace_rows(failed, old_index, old_len, new_index, new_len, old_lines, new_lines, options) is None,
    ensures
        replace_rows(later, old_index, old_len, new_index, new_len, old_lines, new_lines, options) is None,
    decreases later,
{
    if later > failed {
        lemma_replace_rows_fail(
            failed,
            (later - 1) as nat,
            old_index,
            old_len,
            new_index,
            new_len,
            old_lines,
            new_lines,
            options,
        );
    }
}

/// The diagnostics of a report, in order.
pub open spec fn messages_spec(old_text: Seq<char>, new_text: Seq<char>, options: Options) -> Seq<Seq<char>> {
    let m0 = seq![
        "algorithm: "@ + algorithm_name_spec(options.algorithm),
        "inline: "@ + options.inline.name_spec(),
        if options.unicode {
            "unicode inline tokenization enabled"@
        } else {
            "unicode inline tokenization disabled"@
        },
    ];
    let m1 = if options.ignore_whitespace {
        m0.push("line matching ignores whitespace"@)
    } else {
        m0
    };
    let m2 = if options.show_whitespace {
        m1.push("changed whitespace is rendered visibly"@)
    } else {
        m1
    };
    let m3 = if options.semantic_cleanup {
        m2.push("semantic cleanup enabled for inline spans"@)
    } else {
        m2
    };
    let m4 = if old_text != new_text && split_lines_spec(old_text) == split_lines_spec(new_text) {
        m3.push("files differ only by trailing newline"@)
    } else {
        m3
    };
    let old_endings = line_endings_of(old_text);
    let new_endings = line_endings_of(new_text);
    if old_endings != new_endings {
        m4.push("line endings differ: "@ + old_endings.name_spec() + " -> "@ + new_endings.name_spec())
    } else {
        m4
    }
}

/// The metadata of a report on two texts.
pub open spec fn meta_spec(old_text: Seq<char>, new_text: Seq<char>, options: Options) -> MetaModel {
    MetaModel {
        algorithm: options.algorithm,
        inline: options.inline,
        ignore_whitespace: options.ignore_whitespace,
        show_whitespace: options.show_whitespace,
        unicode: options.unicode,
        semantic_cleanup: options.semantic_cleanup,
        old_trailing_newline: old_text.len() > 0 && old_text.last() == '\n',
        new_trailing_newline: new_text.len() > 0 && new_text.last() == '\n',
        old_line_endings: line_endings_of(old_text),
        new_line_endings: line_endings_of(new_text),
        messages: messages_spec(old_text, new_text, options),
    }
}

fn push_message(messages: &mut Vec<String>, message: String)
    ensures
        final(messages)@.map_values(|m: String| m@) == old(messages)@.map_values(|m: String| m@).push(message@),
{
    let ghost before = messages@;
    let ghost view = message@;
    messages.push(message);
    proof {
        assert(messages@ == before.push(messages@.last()));
        assert(messages@.map_values(|m: String| m@) =~= before.map_values(|m: String| m@).push(view));
    }
}

/// Records the options and the diagnostics of a report.
pub fn build_meta(old: &LineInput, new: &LineInput, options: Options) -> (meta: DiffMeta)
    requires
        old.wf(),
        new.wf(),
    ensures
        meta@ == meta_spec(old.text@, new.text@, options),
{
    let algorithm = algorithm_name(options.algorithm);
    let inline = options.inline.name();
    let mut messages: Vec<String> = Vec::with_capacity(8);
    let ghost empty = messages@;
    proof {
        assert(empty.map_values(|m: String| m@) =~= Seq::<Seq<char>>::empty());
    }
    push_message(&mut messages, String::from_str("algorithm: ").concat(algorithm));
    push_message(&mut messages, String::from_str("inline: ").concat(inline));
    if options.unicode {
        push_message(&mut messages, String::from_str("unicode inline tokenization enabled"));
    } else {
        push_message(&mut messages, String::from_str("unicode inline tokenization disabled"));
    }
    if options.ignore_whitespace {
        push_message(&mut messages, String::from_str("line matching ignores whitespace"));
    }
    if options.show_whitespace {
        push_message(&mut messages, String::from_str("changed whitespace is rendered visibly"));
    }
    if options.semantic_cleanup {
        push_message(&mut messages, String::from_str("semantic cleanup enabled for inline spans"));
    }
    if !chars_equal(old.text.as_slice(), new.text.as_slice()) && lines_equal(&old.lines, &new.lines) {
        push_message(&mut messages, String::from_str("files differ only by trailing newline"));
    }
    if old.line_endings != new.line_endings {
        let message = String::from_str("line endings differ: ").concat(old.line_endings.name()).concat(" -> ").concat(
            new.line_endings.name(),
        );
        push_message(&mut messages, message);
    }
    let meta = DiffMeta {
        algorithm: options.algorithm,
        inline: options.inline,
        ignore_whitespace: options.ignore_whitespace,
        show_whitespace: options.show_whitespace,
        unicode: options.unicode,
        semantic_cleanup: options.semantic_cleanup,
        old_trailing_newline: old.trailing_newline,
        new_trailing_newline: new.trailing_newline,
        old_line_endings: old.line_endings,
        new_line_endings: new.line_endings,
        messages,
    };
    proof {
        assert(meta@.messages =~= messages_spec(old.text@, new.text@, options));
    }
    meta
}

impl<'a> ReportBuilder<'a> {
    /// A builder with no rows yet.
    pub fn new(old: &'a LineInput, new: &'a LineInput, options: Options) -> (builder: Self)
        requires
            old.wf(),
            new.wf(),
        ensures
            builder.report.meta@ == meta_spec(old.text@, new.text@, options),
            builder.report.stats == (DiffStats {
                old_lines: old.lines@.len() as usize,
                new_lines: new.lines@.len() as usize,
                additions: 0,
                deletions: 0,
                changed_blocks: 0,
                equal_lines: 0,
            }),
            builder.report.ops@.len() == 0,
            builder.report.rows@.len() == 0,
            builder.old_lines == &old.lines,
            builder.new_lines == &new.lines,
            builder.options == options,
    {
        let capacity = if old.lines.len() >= new.lines.len() {
            old.lines.len()
        } else {
            new.lines.len()
        };
        ReportBuilder {
            report: DiffReport {
                meta: build_meta(old, new, options),
                stats: DiffStats {
                    old_lines: old.lines.len(),
                    new_lines: new.lines.len(),
                    additions: 0,
                    deletions: 0,
                    changed_blocks: 0,
                    equal_lines: 0,
                },
                ops: Vec::new(),
                rows: Vec::with_capacity(capacity),
            },
            old_lines: &old.lines,
            new_lines: &new.lines,
            options,
        }
    }
}

/// The sequences that line matching compares: the lines themselves, or their
/// whitespace-insensitive keys.
/// The key under which a line is matched: the line itself, or its
/// whitespace-insensitive key when whitespace is ignored.
pub open spec fn line_key(line: Seq<char>, ignore_whitespace: bool) -> Seq<char> {
    if ignore_whitespace {
        normalize_key_spec(line)
    } else {
        line
    }
}

pub open spec fn line_keys(lines: Seq<Seq<char>>, ignore_whitespace: bool) -> Seq<Seq<char>> {
    if ignore_whitespace {
        lines.map_values(|l: Seq<char>| normalize_key_spec(l))
    } else {
        lines
    }
}

fn normalize_keys(lines: &Vec<Vec<char>>) -> (keys: Vec<Vec<char>>)
    ensures
        view_lines(keys@) == view_lines(lines@).map_values(|l: Seq<char>| normalize_key_spec(l)),
{
    let mut keys: Vec<Vec<char>> = Vec::new();
    let mut i: usize = 0;
    while i < lines.len()
        invariant
            i <= lines.len(),
            view_lines(keys@) == view_lines(lines@).take(i as int).map_values(|l: Seq<char>| normalize_key_spec(l)),
        decreases lines.len() - i,
    {
        let ghost before = keys@;
        let key = normalize_key(&lines[i]);
        let ghost key_view = key@;
        keys.push(key);
        proof {
            assert(keys@ == before.push(keys@.last()));
            assert(view_lines(keys@) =~= view_lines(before).push(key_view));
            assert(view_lines(lines@).take(i + 1) =~= view_lines(lines@).take(i as int).push(lines@[i as int]@));
            assert(view_lines(keys@) =~= view_lines(lines@).take(i + 1).map_values(|l: Seq<char>| normalize_key_spec(l)));
        }
        i = i + 1;
    }
    proof {
        assert(view_lines(lines@).take(lines@.len() as int) =~= view_lines(lines@));
    }
    keys
}

/// Aligns the lines of the two texts, comparing whitespace-insensitive keys
/// when whitespace is ignored.
pub fn line_ops(
    algorithm: DiffAlgorithm,
    ignore_whitespace: bool,
    old_lines: &Vec<Vec<char>>,
    new_lines: &Vec<Vec<char>>,
) -> (ops: Vec<RawOp>)
    ensures
        ops@ == diff_ops(
            algorithm,
            line_keys(view_lines(old_lines@), ignore_whitespace),
            line_keys(view_lines(new_lines@), ignore_whitespace),
        ),
        equal_ops_match(
            decoded(ops@),
            line_keys(view_lines(old_lines@), ignore_whitespace),
            line_keys(view_lines(new_lines@), ignore_whitespace),
        ),
        tags_known(ops@),
        tiles(decoded(ops@), old_lines@.len() as int, new_lines@.len() as int),
{
    if ignore_whitespace {
        let old_keys = normalize_keys(old_lines);
        let new_keys = normalize_keys(new_lines);
        let old_strings = strings_of(&old_keys);
        let new_strings = strings_of(&new_keys);
        proof {
            assert(view_strings(old_strings@).len() == old_strings@.len());
            assert(view_lines(old_keys@).len() == old_keys@.len());
            assert(view_lines(old_lines@).len() == old_lines@.len());
            assert(view_strings(new_strings@).len() == new_strings@.len());
            assert(view_lines(new_keys@).len() == new_keys@.len());
            assert(view_lines(new_lines@).len() == new_lines@.len());
        }
        capture_diff_slices(algorithm, &old_strings, &new_strings)
    } else {
        let old_strings = strings_of(old_lines);
        let new_strings = strings_of(new_lines);
        proof {
            assert(view_strings(old_strings@).len() == old_strings@.len());
            assert(view_lines(old_lines@).len() == old_lines@.len());
            assert(view_strings(new_strings@).len() == new_strings@.len());
            assert(view_lines(new_lines@).len() == new_lines@.len());
        }
        capture_diff_slices(algorithm, &old_strings, &new_strings)
    }
}

/// The rows of a whole line-level script, or `None` when an inline highlight
/// fails.
pub open spec fn script_rows(
    ops: Seq<EditOp>,
    old_lines: Seq<Seq<char>>,
    new_lines: Seq<Seq<char>>,
    options: Options,
) -> Option<Seq<RowModel>>
    decreases ops.len(),
{
    if ops.len() == 0 {
        Some(Seq::<RowModel>::empty())
    } else {
        match (script_rows(ops.drop_last(), old_lines, new_lines, options), op_rows(ops.last(), old_lines, new_lines, options)) {
            (Some(a), Some(b)) => Some(a + b),
            _ => None,
        }
    }
}

/// The number of rows of a script.
pub open spec fn row_total(ops: Seq<EditOp>) -> int
    decreases ops.len(),
{
    if ops.len() == 0 {
        0
    } else {
        row_total(ops.drop_last()) + op_row_count(ops.last())
    }
}

/// The report ops of a script, each with the range of rows it produced.
pub open spec fn script_report_ops(ops: Seq<EditOp>) -> Seq<ReportOp>
    decreases ops.len(),
{
    if ops.len() == 0 {
        Seq::<ReportOp>::empty()
    } else {
        script_report_ops(ops.drop_last()).push(report_op(ops.last(), row_total(ops.drop_last())))
    }
}

/// Unchanged lines.
pub open spec fn equal_total(ops: Seq<EditOp>) -> int
    decreases ops.len(),
{
    if ops.len() == 0 {
        0
    } else {
        equal_total(ops.drop_last()) + if ops.last().tag == OpTag::Equal {
            ops.last().old_end - ops.last().old_start
        } else {
            0
        }
    }
}

/// Old lines of deleted and replaced blocks.
pub open spec fn deleted_total(ops: Seq<EditOp>) -> int
    decreases ops.len(),
{
    if ops.len() == 0 {
        0
    } else {
        deleted_total(ops.drop_last()) + if ops.last().tag == OpTag::Delete || ops.last().tag
            == OpTag::Replace {
            ops.last().old_end - ops.last().old_start
        } else {
            0
        }
    }
}

/// New lines of inserted and replaced blocks.
pub open spec fn added_total(ops: Seq<EditOp>) -> int
    decreases ops.len(),
{
    if ops.len() == 0 {
        0
    } else {
        added_total(ops.drop_last()) + if ops.last().tag == OpTag::Insert || ops.last().tag
            == OpTag::Replace {
            ops.last().new_end - ops.last().new_start
        } else {
            0
        }
    }
}

/// Blocks that are not unchanged.
pub open spec fn changed_total(ops: Seq<EditOp>) -> int
    decreases ops.len(),
{
    if ops.len() == 0 {
        0
    } else {
        changed_total(ops.drop_last()) + if ops.last().tag == OpTag::Equal {
            0int
        } else {
            1int
        }
    }
}

/// The statistics of a script over `n` old and `m` new lines.
pub open spec fn stats_spec(ops: Seq<EditOp>, n: int, m: int) -> DiffStats {
    DiffStats {
        old_lines: n as usize,
        new_lines: m as usize,
        additions: added_total(ops) as usize,
        deletions: deleted_total(ops) as usize,
        changed_blocks: changed_total(ops) as usize,
        equal_lines: equal_total(ops) as usize,
    }
}

pub proof fn lemma_op_rows_len(op: EditOp, old_lines: Seq<Seq<char>>, new_lines: Seq<Seq<char>>, options: Options)
    requires
        op_fits(op, op.old_start as int, op.new_start as int),
    ensures
        op_rows(op, old_lines, new_lines, options) matches Some(rows) ==> rows.len() == op_row_count(op),
{
    let ol = op.old_end - op.old_start;
    let nl = op.new_end - op.new_start;
    lemma_replace_rows_len(
        max(ol, nl) as nat,
        op.old_start as int,
        ol,
        op.new_start as int,
        nl,
        old_lines,
        new_lines,
        options,
    );
}

/// Totals of a well-formed script: the unchanged and the deleted lines make
/// up the old lines reached, the unchanged and the added lines the new ones.
pub proof fn lemma_totals(ops: Seq<EditOp>)
    requires
        fits_all(ops),
    ensures
        deleted_total(ops) + equal_total(ops) == old_pos(ops),
        added_total(ops) + equal_total(ops) == new_pos(ops),
        0 <= equal_total(ops),
        0 <= deleted_total(ops),
        0 <= added_total(ops),
        0 <= changed_total(ops) <= ops.len(),
        0 <= row_total(ops),
    decreases ops.len(),
{
    if ops.len() > 0 {
        lemma_totals(ops.drop_last());
    }
}

pub proof fn lemma_script_rows_len(
    ops: Seq<EditOp>,
    old_lines: Seq<Seq<char>>,
    new_lines: Seq<Seq<char>>,
    options: Options,
)
    requires
        fits_all(ops),
    ensures
        script_rows(ops, old_lines, new_lines, options) matches Some(rows) ==> rows.len() == row_total(ops),
    decreases ops.len(),
{
    if ops.len() > 0 {
        lemma_script_rows_len(ops.drop_last(), old_lines, new_lines, options);
        lemma_op_rows_len(ops.last(), old_lines, new_lines, options);
    }
}

pub proof fn lemma_script_rows_fail(
    ops: Seq<EditOp>,
    k: int,
    old_lines: Seq<Seq<char>>,
    new_lines: Seq<Seq<char>>,
    options: Options,
)
    requires
        0 <= k <= ops.len(),
        script_rows(ops.take(k), old_lines, new_lines, options) is None,
    ensures
        script_rows(ops, old_lines, new_lines, options) is None,
    decreases ops.len(),
{
    if k == ops.len() {
        assert(ops.take(k) =~= ops);
    } else {
        assert(ops.drop_last().take(k) =~= ops.take(k));
        lemma_script_rows_fail(ops.drop_last(), k, old_lines, new_lines, options);
    }
}

/// The statistics after one more op.
pub open spec fn stats_step(stats: DiffStats, op: EditOp) -> DiffStats {
    let ol = op.old_end - op.old_start;
    let nl = op.new_end - op.new_start;
    match op.tag {
        OpTag::Equal => DiffStats { equal_lines: (stats.equal_lines + ol) as usize, ..stats },
        OpTag::Delete => DiffStats {
            deletions: (stats.deletions + ol) as usize,
            changed_blocks: (stats.changed_blocks + 1) as usize,
            ..stats
        },
        OpTag::Insert => DiffStats {
            additions: (stats.additions + nl) as usize,
            changed_blocks: (stats.changed_blocks + 1) as usize,
            ..stats
        },
        OpTag::Replace => DiffStats {
            deletions: (stats.deletions + ol) as usize,
            additions: (stats.additions + nl) as usize,
            changed_blocks: (stats.changed_blocks + 1) as usize,
            ..stats
        },
    }
}

impl<'a> ReportBuilder<'a> {
    /// Adds the rows, the op and the counts of one line-level op.
    pub(crate) fn push_script_op(&mut self, op: EditOp) -> (pushed: Result<(), String>)
        requires
            old(self).lines_fit(),
            op_fits(op, op.old_start as int, op.new_start as int),
            op.tag != OpTag::Insert ==> op.old_end <= old(self).old_lines@.len(),
            op.tag != OpTag::Delete ==> op.new_end <= old(self).new_lines@.len(),
            op.tag == OpTag::Equal ==> old(self).report.stats.equal_lines + (op.old_end - op.old_start)
                <= usize::MAX,
            op.tag == OpTag::Delete || op.tag == OpTag::Replace ==> old(self).report.stats.deletions + (op.old_end
                - op.old_start) <= usize::MAX,
            op.tag == OpTag::Insert || op.tag == OpTag::Replace ==> old(self).report.stats.additions + (op.new_end
                - op.new_start) <= usize::MAX,
            op.tag != OpTag::Equal ==> old(self).report.stats.changed_blocks + 1 <= usize::MAX,
        ensures
            final(self).same_frame(old(self)),
            match op_rows(op, old(self).old_view(), old(self).new_view(), old(self).options) {
                Some(rows) => {
                    &&& pushed is Ok
                    &&& final(self).rows_view() == old(self).rows_view() + rows
                    &&& final(self).report.ops@ == old(self).report.ops@.push(
                        report_op(op, old(self).report.rows@.len() as int),
                    )
                    &&& final(self).report.stats == stats_step(old(self).report.stats, op)
                },
                None => pushed matches Err(e) && e@ == inline_script_error(),
            },
            pushed is Ok && rows_show_lines(old(self).rows_view()) ==> rows_show_lines(final(self).rows_view()),
            pushed is Ok,
    {
        let ghost before = self.rows_view();
        proof {
            if op.tag != OpTag::Replace {
                lemma_op_rows_show(op, self.old_view(), self.new_view(), self.options);
            }
        }
        match op.tag {
            OpTag::Equal => {
                self.push_equal(op.old_start, op.new_start, op.old_end - op.old_start);
                proof {
                    if rows_show_lines(before) {
                        lemma_rows_show_append(before, self.rows_view().skip(before.len() as int));
                        assert(before + self.rows_view().skip(before.len() as int) =~= self.rows_view());
                    }
                }
                Ok(())
            },
            OpTag::Delete => {
                self.push_delete(op.old_start, op.old_end - op.old_start);
                proof {
                    if rows_show_lines(before) {
                        lemma_rows_show_append(before, self.rows_view().skip(before.len() as int));
                        assert(before + self.rows_view().skip(before.len() as int) =~= self.rows_view());
                    }
                }
                Ok(())
            },
            OpTag::Insert => {
                self.push_insert(op.new_start, op.new_end - op.new_start);
                proof {
                    if rows_show_lines(before) {
                        lemma_rows_show_append(before, self.rows_view().skip(before.len() as int));
                        assert(before + self.rows_view().skip(before.len() as int) =~= self.rows_view());
                    }
                }
                Ok(())
            },
            OpTag::Replace => self.push_replace(
                op.old_start,
                op.old_end - op.old_start,
                op.new_start,
                op.new_end - op.new_start,
            ),
        }
    }
}

pub open spec fn line_script_error() -> Seq<char> {
    "line diff produced an inconsistent edit script"@
}

/// The report on two texts from a line-level script over their lines, or the
/// message of what failed: the script not tiling the lines, or an inline
/// script not tiling the tokens of a replaced pair of lines.
pub open spec fn report_from_script(
    old_text: Seq<char>,
    new_text: Seq<char>,
    options: Options,
    raw: Seq<RawOp>,
) -> Result<ReportModel, Seq<char>> {
    let old_lines = split_lines_spec(old_text);
    let new_lines = split_lines_spec(new_text);
    let ops = decoded(raw);
    if !(tags_known(raw) && tiles(ops, old_lines.len() as int, new_lines.len() as int)) {
        Err(line_script_error())
    } else {
        match script_rows(ops, old_lines, new_lines, options) {
            None => Err(inline_script_error()),
            Some(rows) => Ok(
                ReportModel {
                    meta: meta_spec(old_text, new_text, options),
                    stats: stats_spec(ops, old_lines.len() as int, new_lines.len() as int),
                    ops: script_report_ops(ops),
                    rows,
                },
            ),
        }
    }
}

/// Agreement of an executable report outcome with a specified one.
pub open spec fn same_report_outcome(report: Result<DiffReport, String>, spec: Result<ReportModel, Seq<char>>) -> bool {
    match (report, spec) {
        (Ok(r), Ok(m)) => r@ == m,
        (Err(e), Err(f)) => e@ == f,
        _ => false,
    }
}

/// Builds the report on two prepared texts from a line-level script over
/// their lines (see `report_from_script`).
#[verifier::rlimit(40)]
pub fn build_report(old: &LineInput, new: &LineInput, options: Options, raw: &Vec<RawOp>) -> (report: Result<
    DiffReport,
    String,
>)
    requires
        old.wf(),
        new.wf(),
        old.lines@.len() < usize::MAX,
        new.lines@.len() < usize::MAX,
    ensures
        same_report_outcome(report, report_from_script(old.text@, new.text@, options, raw@)),
        report matches Ok(r) ==> rows_show_lines(r@.rows),
        tags_known(raw@) && tiles(decoded(raw@), old.lines@.len() as int, new.lines@.len() as int) ==> report is Ok,
{
    let n = old.lines.len();
    let m = new.lines.len();
    let ops = match decode_script(raw, n, m) {
        Some(ops) => ops,
        None => {
            return Err(String::from_str("line diff produced an inconsistent edit script"));
        },
    };
    let ghost all = ops@;
    let ghost old_lines = view_lines(old.lines@);
    let ghost new_lines = view_lines(new.lines@);
    let mut builder = ReportBuilder::new(old, new, options);
    proof {
        assert(all.take(0) =~= Seq::<EditOp>::empty());
        assert(builder.rows_view() =~= Seq::<RowModel>::empty());
        assert(builder.report.ops@ =~= Seq::<ReportOp>::empty());
    }
    let mut k: usize = 0;
    while k < ops.len()
        invariant
            k <= ops@.len(),
            all == ops@,
            n == old_lines.len(),
            m == new_lines.len(),
            n < usize::MAX,
            m < usize::MAX,
            tiles(all, n as int, m as int),
            old_lines == view_lines(old.lines@),
            new_lines == view_lines(new.lines@),
            builder.old_lines == &old.lines,
            builder.new_lines == &new.lines,
            builder.options == options,
            builder.report.meta@ == meta_spec(old.text@, new.text@, options),
            script_rows(all.take(k as int), old_lines, new_lines, options) == Some(builder.rows_view()),
            old.wf(),
            new.wf(),
            all == decoded(raw@),
            tags_known(raw@),
            builder.report.ops@ == script_report_ops(all.take(k as int)),
            builder.report.stats == stats_spec(all.take(k as int), n as int, m as int),
            rows_show_lines(builder.rows_view()),
        decreases ops.len() - k,
    {
        let op = ops[k];
        let ghost prefix = all.take(k as int);
        let ghost next = all.take(k + 1);
        proof {
            lemma_op_in_bounds(all, n as int, m as int, k as int);
            assert(next.drop_last() =~= prefix);
            assert(next.last() == op);
            lemma_fits_prefix(all, k as int);
            lemma_totals(prefix);
            lemma_script_rows_len(prefix, old_lines, new_lines, options);
        }
        let pushed = builder.push_script_op(op);
        match pushed {
            Ok(()) => {},
            Err(e) => {
                proof {
                    assert(script_rows(next, old_lines, new_lines, options) is None);
                    lemma_script_rows_fail(all, k + 1, old_lines, new_lines, options);
                    assert(report_from_script(old.text@, new.text@, options, raw@) == Err::<ReportModel, Seq<char>>(
                        inline_script_error(),
                    ));
                }
                return Err(e);
            },
        }
        proof {
            assert(builder.report.stats =~= stats_spec(next, n as int, m as int));
        }
        k = k + 1;
    }
    proof {
        assert(all.take(all.len() as int) =~= all);
    }
    Ok(builder.finish())
}

} // verus!
