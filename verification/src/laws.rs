//! Laws of the report: what holds of every report the engine builds. They are
//! stated for a report built from any line-level script (`report_from_script`);
//! the reports of `diff` are those built from the script that `similar`
//! computes (`report_spec`).

use vstd::prelude::*;
use crate::text::split_lines_spec;
use crate::script::EditOp;
use crate::script::OpTag;
use crate::script::fits_all;
use crate::script::old_pos;
use crate::script::new_pos;
use crate::script::op_fits;
use crate::script::tiles;
use crate::script::lemma_pos_nonneg;
use crate::options::Options;
use crate::report::RowModel;
use crate::report::replace_rows;
use crate::report::opt_line;
use crate::report::opt_no;
use crate::report::op_rows;
use crate::report::script_rows;
use crate::report::max;
use crate::report::ReportOp;
use crate::report::RowKind;
use crate::report::row_total;
use crate::report::script_report_ops;
use crate::report::changed_total;
use crate::report::lemma_totals;
use crate::report::lemma_script_rows_len;
use crate::report::lemma_op_rows_len;
use crate::report::lemma_replace_rows_len;
use crate::report::report_op;
use crate::report::op_row_count;
use crate::report::line_key;
use crate::report::line_keys;
use crate::script::equal_ops_match;
use crate::script::diff_ops;
use crate::script::DiffAlgorithm;
use crate::script::decoded;
use crate::text::lemma_split_lines_len;
use crate::report::report_from_script;
use crate::report::messages_spec;
use crate::script::RawOp;
use crate::spans::SpanKind;
use crate::spans::opt_alternate;
use crate::spans::law_display_spans;
use crate::spans::lemma_equal_spans_alternate;
use crate::inline::replace_result;
use crate::inline::line_tokens;
use crate::inline::law_token_spans;
use crate::inline::inline_raw_ops;

verus! {

/// The old lines shown by a sequence of rows, in order.
pub open spec fn old_side(rows: Seq<RowModel>) -> Seq<Seq<char>>
    decreases rows.len(),
{
    if rows.len() == 0 {
        Seq::<Seq<char>>::empty()
    } else {
        match rows.last().old {
            Some(t) => old_side(rows.drop_last()).push(t),
            None => old_side(rows.drop_last()),
        }
    }
}

/// The new lines shown by a sequence of rows, in order.
pub open spec fn new_side(rows: Seq<RowModel>) -> Seq<Seq<char>>
    decreases rows.len(),
{
    if rows.len() == 0 {
        Seq::<Seq<char>>::empty()
    } else {
        match rows.last().new {
            Some(t) => new_side(rows.drop_last()).push(t),
            None => new_side(rows.drop_last()),
        }
    }
}

/// The old line numbers shown by a sequence of rows, in order.
pub open spec fn old_numbers(rows: Seq<RowModel>) -> Seq<usize>
    decreases rows.len(),
{
    if rows.len() == 0 {
        Seq::<usize>::empty()
    } else {
        match rows.last().old_no {
            Some(k) => old_numbers(rows.drop_last()).push(k),
            None => old_numbers(rows.drop_last()),
        }
    }
}

/// The new line numbers shown by a sequence of rows, in order.
pub open spec fn new_numbers(rows: Seq<RowModel>) -> Seq<usize>
    decreases rows.len(),
{
    if rows.len() == 0 {
        Seq::<usize>::empty()
    } else {
        match rows.last().new_no {
            Some(k) => new_numbers(rows.drop_last()).push(k),
            None => new_numbers(rows.drop_last()),
        }
    }
}

/// The numbers `start + 1, ..., start + len`.
pub open spec fn numbered(start: int, len: int) -> Seq<usize> {
    Seq::new(len as nat, |i: int| (start + i + 1) as usize)
}

proof fn lemma_sides_append(a: Seq<RowModel>, b: Seq<RowModel>)
    ensures
        old_side(a + b) == old_side(a) + old_side(b),
        new_side(a + b) == new_side(a) + new_side(b),
        old_numbers(a + b) == old_numbers(a) + old_numbers(b),
        new_numbers(a + b) == new_numbers(a) + new_numbers(b),
    decreases b.len(),
{
    if b.len() == 0 {
        assert(a + b =~= a);
        assert(old_side(a) + old_side(b) =~= old_side(a));
        assert(new_side(a) + new_side(b) =~= new_side(a));
        assert(old_numbers(a) + old_numbers(b) =~= old_numbers(a));
        assert(new_numbers(a) + new_numbers(b) =~= new_numbers(a));
    } else {
        lemma_sides_append(a, b.drop_last());
        assert((a + b).drop_last() =~= a + b.drop_last());
        assert((a + b).last() == b.last());
        assert(old_side(a + b) =~= old_side(a) + old_side(b));
        assert(new_side(a + b) =~= new_side(a) + new_side(b));
        assert(old_numbers(a + b) =~= old_numbers(a) + old_numbers(b));
        assert(new_numbers(a + b) =~= new_numbers(a) + new_numbers(b));
    }
}

/// Rows whose `k`-th row shows old line `start + k` (numbered `start + k + 1`)
/// for the first `len` rows and no old line after.
pub open spec fn old_rows_shape(rows: Seq<RowModel>, old_lines: Seq<Seq<char>>, start: int, len: int) -> bool {
    &&& 0 <= len <= rows.len()
    &&& forall|k: int|
        #![trigger rows[k]]
        0 <= k < rows.len() ==> rows[k].old == (if k < len {
            Some(old_lines[start + k])
        } else {
            None
        }) && rows[k].old_no == (if k < len {
            Some((start + k + 1) as usize)
        } else {
            None
        })
}

pub open spec fn new_rows_shape(rows: Seq<RowModel>, new_lines: Seq<Seq<char>>, start: int, len: int) -> bool {
    &&& 0 <= len <= rows.len()
    &&& forall|k: int|
        #![trigger rows[k]]
        0 <= k < rows.len() ==> rows[k].new == (if k < len {
            Some(new_lines[start + k])
        } else {
            None
        }) && rows[k].new_no == (if k < len {
            Some((start + k + 1) as usize)
        } else {
            None
        })
}

proof fn lemma_shape_sides(rows: Seq<RowModel>, old_lines: Seq<Seq<char>>, new_lines: Seq<Seq<char>>, os: int, ol: int, ns: int, nl: int)
    requires
        old_rows_shape(rows, old_lines, os, ol),
        new_rows_shape(rows, new_lines, ns, nl),
        0 <= os,
        os + ol <= old_lines.len(),
        0 <= ns,
        ns + nl <= new_lines.len(),
    ensures
        old_side(rows) == old_lines.subrange(os, os + ol),
        old_numbers(rows) == numbered(os, ol),
        new_side(rows) == new_lines.subrange(ns, ns + nl),
        new_numbers(rows) == numbered(ns, nl),
    decreases rows.len(),
{
    if rows.len() > 0 {
        let prev = rows.drop_last();
        let k = rows.len() - 1;
        let pol = if ol < rows.len() { ol } else { ol - 1 };
        let pnl = if nl < rows.len() { nl } else { nl - 1 };
        assert forall|q: int| #![trigger prev[q]] 0 <= q < prev.len() implies prev[q].old == (if q < pol {
            Some(old_lines[os + q])
        } else {
            None
        }) && prev[q].old_no == (if q < pol {
            Some((os + q + 1) as usize)
        } else {
            None
        }) by {
            assert(prev[q] == rows[q]);
        }
        assert forall|q: int| #![trigger prev[q]] 0 <= q < prev.len() implies prev[q].new == (if q < pnl {
            Some(new_lines[ns + q])
        } else {
            None
        }) && prev[q].new_no == (if q < pnl {
            Some((ns + q + 1) as usize)
        } else {
            None
        }) by {
            assert(prev[q] == rows[q]);
        }
        lemma_shape_sides(prev, old_lines, new_lines, os, pol, ns, pnl);
        assert(rows.last() == rows[k]);
        assert(old_side(rows) =~= old_lines.subrange(os, os + ol));
        assert(old_numbers(rows) =~= numbered(os, ol));
        assert(new_side(rows) =~= new_lines.subrange(ns, ns + nl));
        assert(new_numbers(rows) =~= numbered(ns, nl));
    } else {
        assert(old_side(rows) =~= old_lines.subrange(os, os + ol));
        assert(old_numbers(rows) =~= numbered(os, ol));
        assert(new_side(rows) =~= new_lines.subrange(ns, ns + nl));
        assert(new_numbers(rows) =~= numbered(ns, nl));
    }
}

proof fn lemma_replace_rows_shape(
    count: nat,
    os: int,
    ol: int,
    ns: int,
    nl: int,
    old_lines: Seq<Seq<char>>,
    new_lines: Seq<Seq<char>>,
    options: Options,
)
    requires
        0 <= ol,
        0 <= nl,
    ensures
        replace_rows(count, os, ol, ns, nl, old_lines, new_lines, options) matches Some(rows) ==> {
            &&& rows.len() == count
            &&& forall|k: int|
                #![trigger rows[k]]
                0 <= k < count ==> rows[k].old == opt_line(old_lines, os, k, ol) && rows[k].old_no
                    == opt_no(os, k, ol) && rows[k].new == opt_line(new_lines, ns, k, nl) && rows[k].new_no
                    == opt_no(ns, k, nl)
        },
    decreases count,
{
    if count > 0 {
        lemma_replace_rows_shape((count - 1) as nat, os, ol, ns, nl, old_lines, new_lines, options);
        match replace_rows(count, os, ol, ns, nl, old_lines, new_lines, options) {
            Some(rows) => {
                let prev = replace_rows((count - 1) as nat, os, ol, ns, nl, old_lines, new_lines, options).unwrap();
                assert forall|k: int| #![trigger rows[k]] 0 <= k < count implies rows[k].old == opt_line(old_lines, os, k, ol)
                    && rows[k].old_no == opt_no(os, k, ol) && rows[k].new == opt_line(new_lines, ns, k, nl)
                    && rows[k].new_no == opt_no(ns, k, nl) by {
                    if k < count - 1 {
                        assert(rows[k] == prev[k]);
                    }
                }
            },
            None => {},
        }
    }
}

/// The rows of one op show the lines of its ranges on each side.
proof fn lemma_op_rows_sides(op: EditOp, old_lines: Seq<Seq<char>>, new_lines: Seq<Seq<char>>, options: Options)
    requires
        op_fits(op, op.old_start as int, op.new_start as int),
        op.tag != OpTag::Insert ==> op.old_end <= old_lines.len(),
        op.tag != OpTag::Delete ==> op.new_end <= new_lines.len(),
    ensures
        op_rows(op, old_lines, new_lines, options) matches Some(rows) ==> {
            &&& old_side(rows) == (if op.tag == OpTag::Insert {
                Seq::<Seq<char>>::empty()
            } else {
                old_lines.subrange(op.old_start as int, op.old_end as int)
            })
            &&& old_numbers(rows) == (if op.tag == OpTag::Insert {
                Seq::<usize>::empty()
            } else {
                numbered(op.old_start as int, op.old_end - op.old_start)
            })
            &&& new_side(rows) == (if op.tag == OpTag::Delete {
                Seq::<Seq<char>>::empty()
            } else {
                new_lines.subrange(op.new_start as int, op.new_end as int)
            })
            &&& new_numbers(rows) == (if op.tag == OpTag::Delete {
                Seq::<usize>::empty()
            } else {
                numbered(op.new_start as int, op.new_end - op.new_start)
            })
        },
{
    let os = op.old_start as int;
    let ns = op.new_start as int;
    let ol = op.old_end - op.old_start;
    let nl = op.new_end - op.new_start;
    match op_rows(op, old_lines, new_lines, options) {
        Some(rows) => {
            match op.tag {
                OpTag::Equal => {
                    lemma_shape_sides(rows, old_lines, new_lines, os, ol, ns, ol);
                },
                OpTag::Delete => {
                    lemma_shape_sides(rows, old_lines, new_lines, os, ol, 0, 0);
                    assert(new_side(rows) =~= Seq::<Seq<char>>::empty());
                    assert(new_numbers(rows) =~= Seq::<usize>::empty());
                },
                OpTag::Insert => {
                    lemma_shape_sides(rows, old_lines, new_lines, 0, 0, ns, nl);
                    assert(old_side(rows) =~= Seq::<Seq<char>>::empty());
                    assert(old_numbers(rows) =~= Seq::<usize>::empty());
                },
                OpTag::Replace => {
                    lemma_replace_rows_shape(max(ol, nl) as nat, os, ol, ns, nl, old_lines, new_lines, options);
                    lemma_shape_sides(rows, old_lines, new_lines, os, ol, ns, nl);
                },
            }
        },
        None => {},
    }
}

/// The rows of a well-formed script prefix show the old lines it has reached
/// and the new lines it has reached, each once, in order, with their numbers.
proof fn lemma_script_sides(ops: Seq<EditOp>, old_lines: Seq<Seq<char>>, new_lines: Seq<Seq<char>>, options: Options)
    requires
        fits_all(ops),
        old_pos(ops) <= old_lines.len(),
        new_pos(ops) <= new_lines.len(),
    ensures
        script_rows(ops, old_lines, new_lines, options) matches Some(rows) ==> {
            &&& old_side(rows) == old_lines.subrange(0, old_pos(ops))
            &&& old_numbers(rows) == numbered(0, old_pos(ops))
            &&& new_side(rows) == new_lines.subrange(0, new_pos(ops))
            &&& new_numbers(rows) == numbered(0, new_pos(ops))
        },
    decreases ops.len(),
{
    if ops.len() == 0 {
        match script_rows(ops, old_lines, new_lines, options) {
            Some(rows) => {
                assert(old_side(rows) =~= old_lines.subrange(0, 0));
                assert(old_numbers(rows) =~= numbered(0, 0));
                assert(new_side(rows) =~= new_lines.subrange(0, 0));
                assert(new_numbers(rows) =~= numbered(0, 0));
            },
            None => {},
        }
    } else {
        let prefix = ops.drop_last();
        let op = ops.last();
        lemma_script_sides(prefix, old_lines, new_lines, options);
        lemma_pos_nonneg(prefix);
        lemma_op_rows_sides(op, old_lines, new_lines, options);
        match script_rows(ops, old_lines, new_lines, options) {
            Some(rows) => {
                let a = script_rows(prefix, old_lines, new_lines, options).unwrap();
                let b = op_rows(op, old_lines, new_lines, options).unwrap();
                lemma_sides_append(a, b);
                let i = old_pos(prefix);
                let j = new_pos(prefix);
                if op.tag != OpTag::Insert {
                    assert(old_lines.subrange(0, i) + old_lines.subrange(i, old_pos(ops)) =~= old_lines.subrange(
                        0,
                        old_pos(ops),
                    ));
                    assert(numbered(0, i) + numbered(i, old_pos(ops) - i) =~= numbered(0, old_pos(ops)));
                } else {
                    assert(old_lines.subrange(0, i) + Seq::<Seq<char>>::empty() =~= old_lines.subrange(0, old_pos(ops)));
                    assert(numbered(0, i) + Seq::<usize>::empty() =~= numbered(0, old_pos(ops)));
                }
                if op.tag != OpTag::Delete {
                    assert(new_lines.subrange(0, j) + new_lines.subrange(j, new_pos(ops)) =~= new_lines.subrange(
                        0,
                        new_pos(ops),
                    ));
                    assert(numbered(0, j) + numbered(j, new_pos(ops) - j) =~= numbered(0, new_pos(ops)));
                } else {
                    assert(new_lines.subrange(0, j) + Seq::<Seq<char>>::empty() =~= new_lines.subrange(0, new_pos(ops)));
                    assert(numbered(0, j) + Seq::<usize>::empty() =~= numbered(0, new_pos(ops)));
                }
            },
            None => {},
        }
    }
}

/// Every report shows each line of the old text and each line of the new
/// text exactly once, in order, numbered from 1; the rows hold the original
/// lines also when whitespace is ignored for matching.
pub proof fn law_rows_show_both_texts(old_text: Seq<char>, new_text: Seq<char>, options: Options, raw: Seq<RawOp>)
    ensures
        report_from_script(old_text, new_text, options, raw) matches Ok(r) ==> {
            &&& old_side(r.rows) == split_lines_spec(old_text)
            &&& new_side(r.rows) == split_lines_spec(new_text)
            &&& old_numbers(r.rows) == numbered(0, split_lines_spec(old_text).len() as int)
            &&& new_numbers(r.rows) == numbered(0, split_lines_spec(new_text).len() as int)
        },
{
    let old_lines = split_lines_spec(old_text);
    let new_lines = split_lines_spec(new_text);
    let ops = decoded(raw);
    if report_from_script(old_text, new_text, options, raw) is Ok {
        assert(tiles(ops, old_lines.len() as int, new_lines.len() as int));
        lemma_script_sides(ops, old_lines, new_lines, options);
        assert(old_lines.subrange(0, old_lines.len() as int) =~= old_lines);
        assert(new_lines.subrange(0, new_lines.len() as int) =~= new_lines);
    }
}

/// The statistics of every report add up: its unchanged and deleted lines are
/// the old lines, its unchanged and added lines are the new lines, and its
/// changed blocks are the ops that are not unchanged blocks.
pub proof fn law_stats_add_up(old_text: Seq<char>, new_text: Seq<char>, options: Options, raw: Seq<RawOp>)
    requires
        old_text.len() <= isize::MAX,
        new_text.len() <= isize::MAX,
    ensures
        report_from_script(old_text, new_text, options, raw) matches Ok(r) ==> {
            &&& r.stats.old_lines == split_lines_spec(old_text).len()
            &&& r.stats.new_lines == split_lines_spec(new_text).len()
            &&& r.stats.deletions + r.stats.equal_lines == r.stats.old_lines
            &&& r.stats.additions + r.stats.equal_lines == r.stats.new_lines
            &&& r.ops.len() <= usize::MAX ==> r.stats.changed_blocks == changed_ops(r.ops)
        },
{
    let old_lines = split_lines_spec(old_text);
    let new_lines = split_lines_spec(new_text);
    let ops = decoded(raw);
    lemma_split_lines_len(old_text);
    lemma_split_lines_len(new_text);
    if report_from_script(old_text, new_text, options, raw) is Ok {
        lemma_totals(ops);
        lemma_changed_ops(ops);
        lemma_report_ops_len(ops);
    }
}

/// The ops of a report that are not unchanged blocks.
pub open spec fn changed_ops(ops: Seq<ReportOp>) -> int
    decreases ops.len(),
{
    if ops.len() == 0 {
        0
    } else {
        changed_ops(ops.drop_last()) + if ops.last().kind == RowKind::Equal {
            0int
        } else {
            1int
        }
    }
}

proof fn lemma_changed_ops(ops: Seq<EditOp>)
    ensures
        changed_ops(script_report_ops(ops)) == changed_total(ops),
    decreases ops.len(),
{
    if ops.len() > 0 {
        lemma_changed_ops(ops.drop_last());
        assert(script_report_ops(ops).drop_last() =~= script_report_ops(ops.drop_last()));
    }
}

proof fn lemma_report_ops_len(ops: Seq<EditOp>)
    ensures
        script_report_ops(ops).len() == ops.len(),
    decreases ops.len(),
{
    if ops.len() > 0 {
        lemma_report_ops_len(ops.drop_last());
    }
}

/// The row ranges of ops, in order, each starting where the one before ended,
/// the first at row 0 and the last ending at `total`.
pub open spec fn ops_tile_rows(ops: Seq<ReportOp>, total: int) -> bool
    decreases ops.len(),
{
    if ops.len() == 0 {
        total == 0
    } else {
        ops_tile_rows(ops.drop_last(), ops.last().row_start as int) && ops.last().row_start + ops.last().row_len
            == total
    }
}

proof fn lemma_row_total_bound(ops: Seq<EditOp>)
    requires
        fits_all(ops),
    ensures
        0 <= row_total(ops) <= old_pos(ops) + new_pos(ops),
    decreases ops.len(),
{
    if ops.len() > 0 {
        lemma_row_total_bound(ops.drop_last());
    }
}

proof fn lemma_ops_tile_rows(ops: Seq<EditOp>, bound: int)
    requires
        fits_all(ops),
        old_pos(ops) + new_pos(ops) <= bound <= usize::MAX,
    ensures
        ops_tile_rows(script_report_ops(ops), row_total(ops)),
    decreases ops.len(),
{
    if ops.len() > 0 {
        let prefix = ops.drop_last();
        lemma_pos_nonneg(prefix);
        lemma_pos_nonneg(ops);
        lemma_row_total_bound(prefix);
        lemma_row_total_bound(ops);
        lemma_ops_tile_rows(prefix, bound);
        assert(script_report_ops(ops).drop_last() =~= script_report_ops(prefix));
    }
}

/// Every row in the range of an op has the op's kind.
pub open spec fn ops_label_rows(ops: Seq<ReportOp>, rows: Seq<RowModel>) -> bool {
    forall|i: int, r: int|
        #![trigger ops[i], rows[r]]
        0 <= i < ops.len() && ops[i].row_start <= r < ops[i].row_start + ops[i].row_len && r < rows.len()
            ==> rows[r].kind == ops[i].kind
}

proof fn lemma_replace_rows_all_replace(
    count: nat,
    os: int,
    ol: int,
    ns: int,
    nl: int,
    old_lines: Seq<Seq<char>>,
    new_lines: Seq<Seq<char>>,
    options: Options,
)
    ensures
        replace_rows(count, os, ol, ns, nl, old_lines, new_lines, options) matches Some(rows) ==> forall|k: int|
            0 <= k < rows.len() ==> #[trigger] rows[k].kind == RowKind::Replace,
    decreases count,
{
    if count > 0 {
        lemma_replace_rows_all_replace((count - 1) as nat, os, ol, ns, nl, old_lines, new_lines, options);
        match replace_rows(count, os, ol, ns, nl, old_lines, new_lines, options) {
            Some(rows) => {
                let prev = replace_rows((count - 1) as nat, os, ol, ns, nl, old_lines, new_lines, options).unwrap();
                assert forall|q: int| 0 <= q < rows.len() implies #[trigger] rows[q].kind == RowKind::Replace by {
                    if q < prev.len() {
                        assert(rows[q] == prev[q]);
                    }
                }
            },
            None => {},
        }
    }
}

proof fn lemma_op_rows_kinds(op: EditOp, old_lines: Seq<Seq<char>>, new_lines: Seq<Seq<char>>, options: Options)
    ensures
        op_rows(op, old_lines, new_lines, options) matches Some(rows) ==> forall|k: int|
            0 <= k < rows.len() ==> #[trigger] rows[k].kind == report_op(op, 0).kind,
{
    if op.tag == OpTag::Replace {
        let ol = op.old_end - op.old_start;
        let nl = op.new_end - op.new_start;
        lemma_replace_rows_all_replace(
            max(ol, nl) as nat,
            op.old_start as int,
            ol,
            op.new_start as int,
            nl,
            old_lines,
            new_lines,
            options,
        );
    }
}

proof fn lemma_ops_label_rows(
    ops: Seq<EditOp>,
    old_lines: Seq<Seq<char>>,
    new_lines: Seq<Seq<char>>,
    options: Options,
    bound: int,
)
    requires
        fits_all(ops),
        old_pos(ops) + new_pos(ops) <= bound <= usize::MAX,
    ensures
        forall|i: int|
            0 <= i < ops.len() ==> #[trigger] script_report_ops(ops)[i].row_start + script_report_ops(ops)[i].row_len
                <= row_total(ops),
        script_rows(ops, old_lines, new_lines, options) matches Some(rows) ==> ops_label_rows(
            script_report_ops(ops),
            rows,
        ),
    decreases ops.len(),
{
    if ops.len() > 0 {
        let prefix = ops.drop_last();
        let op = ops.last();
        lemma_pos_nonneg(prefix);
        lemma_pos_nonneg(ops);
        lemma_row_total_bound(prefix);
        lemma_row_total_bound(ops);
        lemma_ops_label_rows(prefix, old_lines, new_lines, options, bound);
        lemma_script_rows_len(prefix, old_lines, new_lines, options);
        lemma_op_rows_len(op, old_lines, new_lines, options);
        lemma_op_rows_kinds(op, old_lines, new_lines, options);
        let rops = script_report_ops(ops);
        let pops = script_report_ops(prefix);
        lemma_report_ops_len(prefix);
        assert(rops.drop_last() =~= pops);
        let start = row_total(prefix);
        assert(rops.last() == report_op(op, start));
        assert(rops.last().row_start == start);
        assert(rops.last().row_len == op_row_count(op));
        assert forall|i: int| 0 <= i < ops.len() implies #[trigger] rops[i].row_start + rops[i].row_len <= row_total(
            ops,
        ) by {
            if i < prefix.len() {
                assert(rops[i] == pops[i]);
            }
        }
        match script_rows(ops, old_lines, new_lines, options) {
            Some(rows) => {
                let a = script_rows(prefix, old_lines, new_lines, options).unwrap();
                let b = op_rows(op, old_lines, new_lines, options).unwrap();
                assert(rows == a + b);
                assert forall|i: int, r: int|
                    0 <= i < rops.len() && rops[i].row_start <= r < rops[i].row_start + rops[i].row_len && r
                        < rows.len() implies #[trigger] rows[r].kind == #[trigger] rops[i].kind by {
                    if i < prefix.len() {
                        assert(rops[i] == pops[i]);
                        assert(pops[i].row_start + pops[i].row_len <= start);
                        assert(rows[r] == a[r]);
                    } else {
                        assert(rows[r] == b[r - a.len()]);
                        assert(report_op(op, start).kind == report_op(op, 0).kind);
                    }
                }
            },
            None => {},
        }
    }
}

/// Every unchanged row pairs lines that match: equal lines, or lines with
/// equal keys when whitespace is ignored.
pub open spec fn equal_rows_match(rows: Seq<RowModel>, ignore_whitespace: bool) -> bool {
    forall|k: int|
        #![trigger rows[k]]
        0 <= k < rows.len() && rows[k].kind == RowKind::Equal ==> {
            &&& rows[k].old matches Some(a)
            &&& rows[k].new matches Some(b)
            &&& line_key(a, ignore_whitespace) == line_key(b, ignore_whitespace)
        }
}

proof fn lemma_script_rows_match(
    ops: Seq<EditOp>,
    old_lines: Seq<Seq<char>>,
    new_lines: Seq<Seq<char>>,
    options: Options,
)
    requires
        fits_all(ops),
        old_pos(ops) <= old_lines.len(),
        new_pos(ops) <= new_lines.len(),
        equal_ops_match(
            ops,
            line_keys(old_lines, options.ignore_whitespace),
            line_keys(new_lines, options.ignore_whitespace),
        ),
    ensures
        script_rows(ops, old_lines, new_lines, options) matches Some(rows) ==> equal_rows_match(
            rows,
            options.ignore_whitespace,
        ),
    decreases ops.len(),
{
    if ops.len() > 0 {
        let prefix = ops.drop_last();
        let op = ops.last();
        let iw = options.ignore_whitespace;
        let ok = line_keys(old_lines, iw);
        let nk = line_keys(new_lines, iw);
        lemma_pos_nonneg(prefix);
        assert forall|k: int| 0 <= k < prefix.len() && #[trigger] prefix[k].tag == OpTag::Equal && prefix[k].old_start
            <= prefix[k].old_end <= ok.len() && prefix[k].new_start <= prefix[k].new_end <= nk.len() implies ok.subrange(
            prefix[k].old_start as int,
            prefix[k].old_end as int,
        ) == nk.subrange(prefix[k].new_start as int, prefix[k].new_end as int) by {
            assert(prefix[k] == ops[k]);
        }
        lemma_script_rows_match(prefix, old_lines, new_lines, options);
        if op.tag == OpTag::Replace {
            let ol = op.old_end - op.old_start;
            let nl = op.new_end - op.new_start;
            lemma_replace_rows_all_replace(
                max(ol, nl) as nat,
                op.old_start as int,
                ol,
                op.new_start as int,
                nl,
                old_lines,
                new_lines,
                options,
            );
        }
        match script_rows(ops, old_lines, new_lines, options) {
            Some(rows) => {
                let a = script_rows(prefix, old_lines, new_lines, options).unwrap();
                let b = op_rows(op, old_lines, new_lines, options).unwrap();
                assert(rows == a + b);
                if op.tag == OpTag::Equal {
                    assert(ops[ops.len() - 1] == op);
                    assert(ok.subrange(op.old_start as int, op.old_end as int) == nk.subrange(
                        op.new_start as int,
                        op.new_end as int,
                    ));
                }
                assert forall|k: int| 0 <= k < rows.len() && #[trigger] rows[k].kind == RowKind::Equal implies {
                    &&& rows[k].old matches Some(x)
                    &&& rows[k].new matches Some(y)
                    &&& line_key(x, iw) == line_key(y, iw)
                } by {
                    if k < a.len() {
                        assert(rows[k] == a[k]);
                    } else {
                        let j = k - a.len();
                        assert(rows[k] == b[j]);
                        if op.tag == OpTag::Equal {
                            let os = op.old_start as int;
                            let ns = op.new_start as int;
                            assert(ok.subrange(os, op.old_end as int)[j] == ok[os + j]);
                            assert(nk.subrange(ns, op.new_end as int)[j] == nk[ns + j]);
                        } else if op.tag == OpTag::Replace {
                            assert(b[j].kind == RowKind::Replace);
                        }
                    }
                }
            },
            None => {},
        }
    }
}

/// Every unchanged row of a report pairs lines that match: equal lines, or
/// lines with equal keys when whitespace is ignored. This holds for every
/// script whose equal ops relate equal keys, as `similar` documents of its
/// scripts.
pub proof fn law_equal_rows_match(old_text: Seq<char>, new_text: Seq<char>, options: Options, raw: Seq<RawOp>)
    requires
        equal_ops_match(
            decoded(raw),
            line_keys(split_lines_spec(old_text), options.ignore_whitespace),
            line_keys(split_lines_spec(new_text), options.ignore_whitespace),
        ),
    ensures
        report_from_script(old_text, new_text, options, raw) matches Ok(r) ==> equal_rows_match(
            r.rows,
            options.ignore_whitespace,
        ),
{
    if report_from_script(old_text, new_text, options, raw) is Ok {
        lemma_script_rows_match(decoded(raw), split_lines_spec(old_text), split_lines_spec(new_text), options);
    }
}

/// When whitespace is ignored, the line script sees only the lines' keys:
/// lines replaced by lines with the same keys get the same script.
pub proof fn law_line_script_sees_only_keys(
    algorithm: DiffAlgorithm,
    old_lines: Seq<Seq<char>>,
    new_lines: Seq<Seq<char>>,
    other_old: Seq<Seq<char>>,
    other_new: Seq<Seq<char>>,
)
    requires
        line_keys(other_old, true) == line_keys(old_lines, true),
        line_keys(other_new, true) == line_keys(new_lines, true),
    ensures
        diff_ops(algorithm, line_keys(other_old, true), line_keys(other_new, true)) == diff_ops(
            algorithm,
            line_keys(old_lines, true),
            line_keys(new_lines, true),
        ),
{
}

/// The ops of every report cover its rows: each op's rows start where the
/// previous op's rows ended, from the first row to the last, and every row in
/// an op's range has the op's kind.
pub proof fn law_ops_cover_rows(old_text: Seq<char>, new_text: Seq<char>, options: Options, raw: Seq<RawOp>)
    requires
        split_lines_spec(old_text).len() + split_lines_spec(new_text).len() <= usize::MAX,
    ensures
        report_from_script(old_text, new_text, options, raw) matches Ok(r) ==> ops_tile_rows(r.ops, r.rows.len() as int)
            && ops_label_rows(r.ops, r.rows),
{
    let old_lines = split_lines_spec(old_text);
    let new_lines = split_lines_spec(new_text);
    let ops = decoded(raw);
    if report_from_script(old_text, new_text, options, raw) is Ok {
        lemma_ops_tile_rows(ops, (old_lines.len() + new_lines.len()) as int);
        lemma_script_rows_len(ops, old_lines, new_lines, options);
        lemma_ops_label_rows(ops, old_lines, new_lines, options, (old_lines.len() + new_lines.len()) as int);
    }
}

/// The spans of a row, on each side where there are any, alternate in kind.
pub open spec fn row_spans_alternate(row: RowModel) -> bool {
    opt_alternate(row.old_spans) && opt_alternate(row.new_spans)
}

pub open spec fn rows_spans_alternate(rows: Seq<RowModel>) -> bool {
    forall|k: int| 0 <= k < rows.len() ==> row_spans_alternate(#[trigger] rows[k])
}

proof fn lemma_replace_result_alternate(old_line: Option<Seq<char>>, new_line: Option<Seq<char>>, options: Options)
    ensures
        replace_result(old_line, new_line, options) matches Some(p) ==> opt_alternate(p.0) && opt_alternate(p.1),
{
    match (old_line, new_line) {
        (Some(o), Some(n)) => {
            law_token_spans(
                inline_raw_ops(line_tokens(o, options), line_tokens(n, options), options),
                line_tokens(o, options),
                line_tokens(n, options),
                options.show_whitespace,
            );
        },
        (Some(o), None) => {
            law_display_spans(o, SpanKind::Delete, options.show_whitespace);
        },
        (None, Some(n)) => {
            law_display_spans(n, SpanKind::Insert, options.show_whitespace);
        },
        (None, None) => {},
    }
}

proof fn lemma_replace_rows_alternate(
    count: nat,
    os: int,
    ol: int,
    ns: int,
    nl: int,
    old_lines: Seq<Seq<char>>,
    new_lines: Seq<Seq<char>>,
    options: Options,
)
    ensures
        replace_rows(count, os, ol, ns, nl, old_lines, new_lines, options) matches Some(rows) ==> rows_spans_alternate(
            rows,
        ),
    decreases count,
{
    if count > 0 {
        let k = count - 1;
        lemma_replace_rows_alternate((count - 1) as nat, os, ol, ns, nl, old_lines, new_lines, options);
        lemma_replace_result_alternate(opt_line(old_lines, os, k, ol), opt_line(new_lines, ns, k, nl), options);
        match replace_rows(count, os, ol, ns, nl, old_lines, new_lines, options) {
            Some(rows) => {
                let prev = replace_rows((count - 1) as nat, os, ol, ns, nl, old_lines, new_lines, options).unwrap();
                assert forall|q: int| 0 <= q < rows.len() implies row_spans_alternate(#[trigger] rows[q]) by {
                    if q < prev.len() {
                        assert(rows[q] == prev[q]);
                    }
                }
            },
            None => {},
        }
    }
}

proof fn lemma_op_rows_alternate(op: EditOp, old_lines: Seq<Seq<char>>, new_lines: Seq<Seq<char>>, options: Options)
    ensures
        op_rows(op, old_lines, new_lines, options) matches Some(rows) ==> rows_spans_alternate(rows),
{
    let os = op.old_start as int;
    let ns = op.new_start as int;
    let ol = op.old_end - op.old_start;
    let nl = op.new_end - op.new_start;
    let sw = options.show_whitespace;
    match op.tag {
        OpTag::Equal => {
            let rows = op_rows(op, old_lines, new_lines, options).unwrap();
            assert forall|k: int| 0 <= k < rows.len() implies row_spans_alternate(#[trigger] rows[k]) by {
                lemma_equal_spans_alternate(old_lines[os + k], sw);
                lemma_equal_spans_alternate(new_lines[ns + k], sw);
            }
        },
        OpTag::Delete => {
            let rows = op_rows(op, old_lines, new_lines, options).unwrap();
            assert forall|k: int| 0 <= k < rows.len() implies row_spans_alternate(#[trigger] rows[k]) by {
                law_display_spans(old_lines[os + k], SpanKind::Delete, sw);
            }
        },
        OpTag::Insert => {
            let rows = op_rows(op, old_lines, new_lines, options).unwrap();
            assert forall|k: int| 0 <= k < rows.len() implies row_spans_alternate(#[trigger] rows[k]) by {
                law_display_spans(new_lines[ns + k], SpanKind::Insert, sw);
            }
        },
        OpTag::Replace => {
            lemma_replace_rows_alternate(max(ol, nl) as nat, os, ol, ns, nl, old_lines, new_lines, options);
        },
    }
}

proof fn lemma_script_rows_alternate(
    ops: Seq<EditOp>,
    old_lines: Seq<Seq<char>>,
    new_lines: Seq<Seq<char>>,
    options: Options,
)
    ensures
        script_rows(ops, old_lines, new_lines, options) matches Some(rows) ==> rows_spans_alternate(rows),
    decreases ops.len(),
{
    if ops.len() > 0 {
        lemma_script_rows_alternate(ops.drop_last(), old_lines, new_lines, options);
        lemma_op_rows_alternate(ops.last(), old_lines, new_lines, options);
        match script_rows(ops, old_lines, new_lines, options) {
            Some(rows) => {
                let a = script_rows(ops.drop_last(), old_lines, new_lines, options).unwrap();
                let b = op_rows(ops.last(), old_lines, new_lines, options).unwrap();
                assert forall|k: int| 0 <= k < rows.len() implies row_spans_alternate(#[trigger] rows[k]) by {
                    if k < a.len() {
                        assert(rows[k] == a[k]);
                    } else {
                        assert(rows[k] == b[k - a.len()]);
                    }
                }
            },
            None => {},
        }
    }
}

/// In every row of every report, no two neighbouring spans on one side share
/// a kind: text of one kind is always gathered into one span.
pub proof fn law_spans_alternate(old_text: Seq<char>, new_text: Seq<char>, options: Options, raw: Seq<RawOp>)
    ensures
        report_from_script(old_text, new_text, options, raw) matches Ok(r) ==> rows_spans_alternate(r.rows),
{
    let old_lines = split_lines_spec(old_text);
    let new_lines = split_lines_spec(new_text);
    let ops = decoded(raw);
    lemma_script_rows_alternate(ops, old_lines, new_lines, options);
}

/// Which sides a row of a kind shows: both for an unchanged line, the old one
/// for a deleted line, the new one for an inserted line, and at least one for
/// a replaced line.
pub open spec fn row_sides_match_kind(row: RowModel) -> bool {
    match row.kind {
        RowKind::Equal => row.old is Some && row.new is Some,
        RowKind::Delete => row.old is Some && row.new is None,
        RowKind::Insert => row.old is None && row.new is Some,
        RowKind::Replace => row.old is Some || row.new is Some,
    }
}

pub open spec fn rows_sides_match_kind(rows: Seq<RowModel>) -> bool {
    forall|k: int| 0 <= k < rows.len() ==> row_sides_match_kind(#[trigger] rows[k])
}

proof fn lemma_replace_rows_kind(
    count: nat,
    os: int,
    ol: int,
    ns: int,
    nl: int,
    old_lines: Seq<Seq<char>>,
    new_lines: Seq<Seq<char>>,
    options: Options,
)
    requires
        count <= max(ol, nl),
    ensures
        replace_rows(count, os, ol, ns, nl, old_lines, new_lines, options) matches Some(rows) ==> rows_sides_match_kind(
            rows,
        ),
    decreases count,
{
    if count > 0 {
        lemma_replace_rows_kind((count - 1) as nat, os, ol, ns, nl, old_lines, new_lines, options);
        match replace_rows(count, os, ol, ns, nl, old_lines, new_lines, options) {
            Some(rows) => {
                let prev = replace_rows((count - 1) as nat, os, ol, ns, nl, old_lines, new_lines, options).unwrap();
                assert forall|q: int| 0 <= q < rows.len() implies row_sides_match_kind(#[trigger] rows[q]) by {
                    if q < prev.len() {
                        assert(rows[q] == prev[q]);
                    }
                }
            },
            None => {},
        }
    }
}

proof fn lemma_script_rows_kind(
    ops: Seq<EditOp>,
    old_lines: Seq<Seq<char>>,
    new_lines: Seq<Seq<char>>,
    options: Options,
)
    requires
        fits_all(ops),
    ensures
        script_rows(ops, old_lines, new_lines, options) matches Some(rows) ==> rows_sides_match_kind(rows),
    decreases ops.len(),
{
    if ops.len() > 0 {
        lemma_script_rows_kind(ops.drop_last(), old_lines, new_lines, options);
        let op = ops.last();
        let ol = op.old_end - op.old_start;
        let nl = op.new_end - op.new_start;
        if op.tag == OpTag::Replace {
            lemma_replace_rows_kind(
                max(ol, nl) as nat,
                op.old_start as int,
                ol,
                op.new_start as int,
                nl,
                old_lines,
                new_lines,
                options,
            );
        }
        match script_rows(ops, old_lines, new_lines, options) {
            Some(rows) => {
                let a = script_rows(ops.drop_last(), old_lines, new_lines, options).unwrap();
                let b = op_rows(op, old_lines, new_lines, options).unwrap();
                assert forall|k: int| 0 <= k < rows.len() implies row_sides_match_kind(#[trigger] rows[k]) by {
                    if k < a.len() {
                        assert(rows[k] == a[k]);
                    } else {
                        assert(rows[k] == b[k - a.len()]);
                    }
                }
            },
            None => {},
        }
    }
}

/// Every row of every report shows the sides its kind calls for.
pub proof fn law_row_sides_match_kind(old_text: Seq<char>, new_text: Seq<char>, options: Options, raw: Seq<RawOp>)
    ensures
        report_from_script(old_text, new_text, options, raw) matches Ok(r) ==> rows_sides_match_kind(r.rows),
{
    if report_from_script(old_text, new_text, options, raw) is Ok {
        lemma_script_rows_kind(decoded(raw), split_lines_spec(old_text), split_lines_spec(new_text), options);
    }
}


/// The note that the files differ only by their trailing newline is among a
/// report's messages exactly when the texts differ and their lines are the
/// same; it never appears when some line differs.
pub proof fn law_trailing_newline_note(old_text: Seq<char>, new_text: Seq<char>, options: Options)
    ensures
        messages_spec(old_text, new_text, options).contains("files differ only by trailing newline"@) <==> (old_text
            != new_text && split_lines_spec(old_text) == split_lines_spec(new_text)),
{
    let note = "files differ only by trailing newline"@;
    reveal_strlit("files differ only by trailing newline");
    reveal_strlit("algorithm: ");
    reveal_strlit("inline: ");
    reveal_strlit("unicode inline tokenization enabled");
    reveal_strlit("unicode inline tokenization disabled");
    reveal_strlit("line matching ignores whitespace");
    reveal_strlit("changed whitespace is rendered visibly");
    reveal_strlit("semantic cleanup enabled for inline spans");
    reveal_strlit("line endings differ: ");
    let msgs = messages_spec(old_text, new_text, options);
    let cond = old_text != new_text && split_lines_spec(old_text) == split_lines_spec(new_text);
    let a = "algorithm: "@ + crate::options::algorithm_name_spec(options.algorithm);
    let b = "inline: "@ + options.inline.name_spec();
    assert(a[0] == 'a');
    assert(b[0] == 'i');
    assert(note[0] == 'f');
    if cond {
        let k = if options.ignore_whitespace { 1int } else { 0int } + if options.show_whitespace { 1int } else {
            0int
        } + if options.semantic_cleanup { 1int } else { 0int } + 3;
        assert(msgs[k] == note);
    } else {
        assert forall|i: int| 0 <= i < msgs.len() implies #[trigger] msgs[i] != note by {
            let e = endings_message(old_text, new_text);
            assert(e[0] == 'l');
            if msgs[i] == note {
                assert(msgs[i][0] == 'f');
            }
        }
    }
}

/// The message that names two different line-ending styles.
pub open spec fn endings_message(old_text: Seq<char>, new_text: Seq<char>) -> Seq<char> {
    "line endings differ: "@ + crate::text::line_endings_of(old_text).name_spec() + " -> "@
        + crate::text::line_endings_of(new_text).name_spec()
}


/// A row at offset `t` in the rows of an op shows the `t`-th line of each of
/// the op's ranges, numbered as the op's range says, and no line past a range.
pub open spec fn numbers_fit(row: RowModel, op: ReportOp, t: int) -> bool {
    &&& (row.old_no is Some) == (t < op.old_len)
    &&& (row.old_no matches Some(k) ==> k == op.old_start + t)
    &&& (row.new_no is Some) == (t < op.new_len)
    &&& (row.new_no matches Some(k) ==> k == op.new_start + t)
}

/// The line ranges of every op are the line numbers of its rows.
pub open spec fn ops_number_rows(ops: Seq<ReportOp>, rows: Seq<RowModel>) -> bool {
    forall|i: int, r: int|
        #![trigger ops[i], rows[r]]
        0 <= i < ops.len() && ops[i].row_start <= r < ops[i].row_start + ops[i].row_len && r < rows.len()
            ==> numbers_fit(rows[r], ops[i], r - ops[i].row_start)
}

proof fn lemma_replace_rows_numbers(
    count: nat,
    os: int,
    ol: int,
    ns: int,
    nl: int,
    old_lines: Seq<Seq<char>>,
    new_lines: Seq<Seq<char>>,
    options: Options,
)
    ensures
        replace_rows(count, os, ol, ns, nl, old_lines, new_lines, options) matches Some(rows) ==> forall|k: int|
            0 <= k < rows.len() ==> #[trigger] rows[k].old_no == opt_no(os, k, ol) && rows[k].new_no == opt_no(ns, k, nl),
    decreases count,
{
    if count > 0 {
        lemma_replace_rows_numbers((count - 1) as nat, os, ol, ns, nl, old_lines, new_lines, options);
        lemma_replace_rows_len((count - 1) as nat, os, ol, ns, nl, old_lines, new_lines, options);
        match replace_rows(count, os, ol, ns, nl, old_lines, new_lines, options) {
            Some(rows) => {
                let prev = replace_rows((count - 1) as nat, os, ol, ns, nl, old_lines, new_lines, options).unwrap();
                assert forall|q: int| 0 <= q < rows.len() implies #[trigger] rows[q].old_no == opt_no(os, q, ol)
                    && rows[q].new_no == opt_no(ns, q, nl) by {
                    if q < prev.len() {
                        assert(rows[q] == prev[q]);
                    }
                }
            },
            None => {},
        }
    }
}

proof fn lemma_op_rows_numbers(op: EditOp, old_lines: Seq<Seq<char>>, new_lines: Seq<Seq<char>>, options: Options)
    requires
        op_fits(op, op.old_start as int, op.new_start as int),
        op.tag != OpTag::Insert ==> op.old_end < usize::MAX,
        op.tag != OpTag::Delete ==> op.new_end < usize::MAX,
    ensures
        op_rows(op, old_lines, new_lines, options) matches Some(rows) ==> forall|t: int|
            0 <= t < rows.len() ==> numbers_fit(#[trigger] rows[t], report_op(op, 0), t),
{
    let ol = op.old_end - op.old_start;
    let nl = op.new_end - op.new_start;
    if op.tag == OpTag::Replace {
        lemma_replace_rows_numbers(
            max(ol, nl) as nat,
            op.old_start as int,
            ol,
            op.new_start as int,
            nl,
            old_lines,
            new_lines,
            options,
        );
    }
}

proof fn lemma_ops_number_rows(
    ops: Seq<EditOp>,
    old_lines: Seq<Seq<char>>,
    new_lines: Seq<Seq<char>>,
    options: Options,
    bound: int,
)
    requires
        fits_all(ops),
        old_pos(ops) + new_pos(ops) <= bound <= usize::MAX,
        old_pos(ops) < usize::MAX,
        new_pos(ops) < usize::MAX,
    ensures
        script_rows(ops, old_lines, new_lines, options) matches Some(rows) ==> ops_number_rows(
            script_report_ops(ops),
            rows,
        ),
    decreases ops.len(),
{
    if ops.len() > 0 {
        let prefix = ops.drop_last();
        let op = ops.last();
        lemma_pos_nonneg(prefix);
        lemma_pos_nonneg(ops);
        lemma_row_total_bound(prefix);
        lemma_row_total_bound(ops);
        lemma_ops_number_rows(prefix, old_lines, new_lines, options, bound);
        lemma_ops_label_rows(prefix, old_lines, new_lines, options, bound);
        lemma_script_rows_len(prefix, old_lines, new_lines, options);
        lemma_op_rows_len(op, old_lines, new_lines, options);
        lemma_op_rows_numbers(op, old_lines, new_lines, options);
        let rops = script_report_ops(ops);
        let pops = script_report_ops(prefix);
        lemma_report_ops_len(prefix);
        assert(rops.drop_last() =~= pops);
        let start = row_total(prefix);
        assert(rops.last() == report_op(op, start));
        match script_rows(ops, old_lines, new_lines, options) {
            Some(rows) => {
                let a = script_rows(prefix, old_lines, new_lines, options).unwrap();
                let b = op_rows(op, old_lines, new_lines, options).unwrap();
                assert(rows == a + b);
                assert forall|i: int, r: int|
                    0 <= i < rops.len() && rops[i].row_start <= r < rops[i].row_start + rops[i].row_len && r
                        < rows.len() implies numbers_fit(#[trigger] rows[r], #[trigger] rops[i], r - rops[i].row_start) by {
                    if i < prefix.len() {
                        assert(rops[i] == pops[i]);
                        assert(pops[i].row_start + pops[i].row_len <= start);
                        assert(rows[r] == a[r]);
                    } else {
                        let t = r - start;
                        assert(rows[r] == b[t]);
                        assert(numbers_fit(b[t], report_op(op, 0), t));
                    }
                }
            },
            None => {},
        }
    }
}

/// The line ranges of every report's ops are the line numbers of its rows:
/// the `t`-th row of an op shows old line `old_start + t` while `t` is below
/// `old_len` and no old line after, and likewise on the new side.
pub proof fn law_ops_number_rows(old_text: Seq<char>, new_text: Seq<char>, options: Options, raw: Seq<RawOp>)
    requires
        split_lines_spec(old_text).len() + split_lines_spec(new_text).len() <= usize::MAX,
        split_lines_spec(old_text).len() < usize::MAX,
        split_lines_spec(new_text).len() < usize::MAX,
    ensures
        report_from_script(old_text, new_text, options, raw) matches Ok(r) ==> ops_number_rows(r.ops, r.rows),
{
    let old_lines = split_lines_spec(old_text);
    let new_lines = split_lines_spec(new_text);
    if report_from_script(old_text, new_text, options, raw) is Ok {
        lemma_ops_number_rows(decoded(raw), old_lines, new_lines, options, (old_lines.len() + new_lines.len()) as int);
    }
}


/// Each optional message of a report stands among its messages exactly when
/// its option or condition holds: ignoring whitespace, showing whitespace,
/// semantic cleanup, Unicode tokenization (enabled or disabled), and line
/// endings that differ between the files.
pub proof fn law_messages_follow_options(old_text: Seq<char>, new_text: Seq<char>, options: Options)
    ensures
        messages_spec(old_text, new_text, options).contains("line matching ignores whitespace"@)
            <==> options.ignore_whitespace,
        messages_spec(old_text, new_text, options).contains("changed whitespace is rendered visibly"@)
            <==> options.show_whitespace,
        messages_spec(old_text, new_text, options).contains("semantic cleanup enabled for inline spans"@)
            <==> options.semantic_cleanup,
        messages_spec(old_text, new_text, options).contains("unicode inline tokenization enabled"@)
            <==> options.unicode,
        messages_spec(old_text, new_text, options).contains("unicode inline tokenization disabled"@)
            <==> !options.unicode,
        messages_spec(old_text, new_text, options).contains(endings_message(old_text, new_text))
            <==> crate::text::line_endings_of(old_text) != crate::text::line_endings_of(new_text),
{
    reveal_strlit("files differ only by trailing newline");
    reveal_strlit("algorithm: ");
    reveal_strlit("inline: ");
    reveal_strlit("unicode inline tokenization enabled");
    reveal_strlit("unicode inline tokenization disabled");
    reveal_strlit("line matching ignores whitespace");
    reveal_strlit("changed whitespace is rendered visibly");
    reveal_strlit("semantic cleanup enabled for inline spans");
    reveal_strlit("line endings differ: ");
    let msgs = messages_spec(old_text, new_text, options);
    let a = "algorithm: "@ + crate::options::algorithm_name_spec(options.algorithm);
    let b = "inline: "@ + options.inline.name_spec();
    let e = endings_message(old_text, new_text);
    assert(a[0] == 'a');
    assert(b[0] == 'i');
    assert(e[0] == 'l' && e[5] == 'e');
    let l = "line matching ignores whitespace"@;
    let c = "changed whitespace is rendered visibly"@;
    let sc = "semantic cleanup enabled for inline spans"@;
    let ue = "unicode inline tokenization enabled"@;
    let ud = "unicode inline tokenization disabled"@;
    let f = "files differ only by trailing newline"@;
    assert(l[0] == 'l' && l[5] == 'm');
    assert(c[0] == 'c');
    assert(sc[0] == 's');
    assert(ue[0] == 'u' && ue[28] == 'e');
    assert(ud[0] == 'u' && ud[28] == 'd');
    assert(f[0] == 'f');
    let k0 = 3int;
    let k1 = k0 + if options.ignore_whitespace { 1int } else { 0int };
    let k2 = k1 + if options.show_whitespace { 1int } else { 0int };
    let k3 = k2 + if options.semantic_cleanup { 1int } else { 0int };
    let k4 = k3 + if old_text != new_text && split_lines_spec(old_text) == split_lines_spec(new_text) {
        1int
    } else {
        0int
    };
    if options.ignore_whitespace {
        assert(msgs[k0] == l);
    } else {
        assert forall|i: int| 0 <= i < msgs.len() implies #[trigger] msgs[i] != l by {
            if msgs[i] == l {
                assert(msgs[i][0] == 'l' && msgs[i][5] == 'm');
            }
        }
    }
    if options.show_whitespace {
        assert(msgs[k1] == c);
    } else {
        assert forall|i: int| 0 <= i < msgs.len() implies #[trigger] msgs[i] != c by {
            if msgs[i] == c {
                assert(msgs[i][0] == 'c');
            }
        }
    }
    if options.semantic_cleanup {
        assert(msgs[k2] == sc);
    } else {
        assert forall|i: int| 0 <= i < msgs.len() implies #[trigger] msgs[i] != sc by {
            if msgs[i] == sc {
                assert(msgs[i][0] == 's');
            }
        }
    }
    if options.unicode {
        assert(msgs[2] == ue);
        assert forall|i: int| 0 <= i < msgs.len() implies #[trigger] msgs[i] != ud by {
            if msgs[i] == ud {
                assert(msgs[i][0] == 'u' && msgs[i][28] == 'd');
            }
        }
    } else {
        assert(msgs[2] == ud);
        assert forall|i: int| 0 <= i < msgs.len() implies #[trigger] msgs[i] != ue by {
            if msgs[i] == ue {
                assert(msgs[i][0] == 'u' && msgs[i][28] == 'e');
            }
        }
    }
    if crate::text::line_endings_of(old_text) != crate::text::line_endings_of(new_text) {
        assert(msgs[k4] == e);
    } else {
        assert forall|i: int| 0 <= i < msgs.len() implies #[trigger] msgs[i] != e by {
            if msgs[i] == e {
                assert(msgs[i][0] == 'l' && msgs[i][5] == 'e');
            }
        }
    }
}

} // verus!
