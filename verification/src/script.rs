//! Edit scripts: the steps that turn one sequence into another, as computed by
//! the `similar` crate, and the check that a script tiles both sequences.

use vstd::prelude::*;
use similar::Algorithm;
use similar::algorithms::Capture;
use similar::algorithms::Compact;
use similar::algorithms::Replace;

verus! {

/// The diff algorithms that can align two sequences.
#[derive(Clone, Copy, Debug, PartialEq, Eq, Structural)]
pub enum DiffAlgorithm {
    Myers,
    Patience,
    Lcs,
    Hunt,
    Histogram,
}

/// What a step of an edit script does with its two ranges.
#[derive(Clone, Copy, Debug, PartialEq, Eq, Structural)]
pub enum OpTag {
    Equal,
    Delete,
    Insert,
    Replace,
}

/// One step of an edit script: `old[old_start..old_end]` relates to
/// `new[new_start..new_end]` as `tag` says.
#[derive(Clone, Copy, Debug, PartialEq, Eq, Structural)]
pub struct EditOp {
    pub tag: OpTag,
    pub old_start: usize,
    pub old_end: usize,
    pub new_start: usize,
    pub new_end: usize,
}

pub open spec fn view_strings(v: Seq<String>) -> Seq<Seq<char>> {
    v.map_values(|s: String| s@)
}

/// An op as `similar` reports it through `DiffOp::as_tag_tuple`: the position
/// of its `DiffTag` variant in declaration order (equal, delete, insert,
/// replace), then the old range and the new range.
pub type RawOp = (u8, usize, usize, usize, usize);

/// Every equal op whose ranges lie within the two sequences relates equal
/// runs of elements: `old[old_start..old_end]` is `new[new_start..new_end]`.
pub open spec fn equal_ops_match(ops: Seq<EditOp>, old: Seq<Seq<char>>, new: Seq<Seq<char>>) -> bool {
    forall|k: int|
        #![trigger ops[k]]
        0 <= k < ops.len() && ops[k].tag == OpTag::Equal && ops[k].old_start <= ops[k].old_end <= old.len()
            && ops[k].new_start <= ops[k].new_end <= new.len() ==> old.subrange(
            ops[k].old_start as int,
            ops[k].old_end as int,
        ) == new.subrange(ops[k].new_start as int, ops[k].new_end as int)
}

/// The edit script that `similar::capture_diff_slices` computes with the given
/// algorithm.
pub uninterp spec fn diff_ops(algorithm: DiffAlgorithm, old: Seq<Seq<char>>, new: Seq<Seq<char>>) -> Seq<RawOp>;

/// The edit script that `similar::algorithms::diff_slices` reports through a
/// `Compact` over `Replace` over `Capture` hook.
pub uninterp spec fn compact_diff_ops(
    algorithm: DiffAlgorithm,
    old: Seq<Seq<char>>,
    new: Seq<Seq<char>>,
) -> Seq<RawOp>;

/// Calls `similar::capture_diff_slices`. Its result is a function of the
/// algorithm and of the two sequences alone (the crate sorts whatever it
/// gathers in hash maps); it is named `diff_ops`. Two facts are claimed of it.
/// An equal op relates equal runs, as `DiffOp::as_tag_tuple` documents:
/// "`a[i1..i2]` is equal to `b[j1..j2]`". And the script is an edit script
/// over both whole sequences: its ops form contiguous ranges from the start of
/// each sequence to its end, as the crate's changelog (3.1.1) and its tests of
/// `capture_diff_slices` (`test_compact_keeps_diffop_cursors_contiguous`,
/// `test_compact_preserves_non_zero_range_cursors`) state; the tag is the
/// position of one of `DiffTag`'s four variants.
#[verifier::external_body]
pub(crate) fn capture_diff_slices(algorithm: DiffAlgorithm, old: &Vec<String>, new: &Vec<String>) -> (ops: Vec<RawOp>)
    ensures
        ops@ == diff_ops(algorithm, view_strings(old@), view_strings(new@)),
        equal_ops_match(decoded(ops@), view_strings(old@), view_strings(new@)),
        tags_known(ops@),
        tiles(decoded(ops@), old@.len() as int, new@.len() as int),
{
    let algorithm = match algorithm {
        DiffAlgorithm::Myers => Algorithm::Myers,
        DiffAlgorithm::Patience => Algorithm::Patience,
        DiffAlgorithm::Lcs => Algorithm::Lcs,
        DiffAlgorithm::Hunt => Algorithm::Hunt,
        DiffAlgorithm::Histogram => Algorithm::Histogram,
    };
    similar::capture_diff_slices(algorithm, old, new).iter().map(|op| {
        let (tag, o, n) = op.as_tag_tuple();
        (tag as u8, o.start, o.end, n.start, n.end)
    }).collect()
}

/// Runs `similar::algorithms::diff_slices` with a `Compact` hook over
/// `Replace` over `Capture` (`Compact::new`, `Replace::new`, `Capture::new`,
/// then `into_inner` twice and `Capture::into_ops`). The hooks' error type is
/// `Infallible`, so the call cannot fail. The result is a function of its
/// arguments alone, named `compact_diff_ops`. Two facts are claimed of it, the
/// same as of `capture_diff_slices`, which runs this same hook stack: an equal
/// op relates equal runs, as `DiffOp::as_tag_tuple` documents ("`a[i1..i2]` is
/// equal to `b[j1..j2]`"; the compacting hook only moves a boundary across
/// elements it has found equal), and the ops form contiguous ranges over both
/// whole sequences, as the changelog (3.1.0, 3.1.1: `Compact` keeps
/// "operations form contiguous ranges") and the crate's cursor tests state.
#[verifier::external_body]
pub(crate) fn capture_compact_diff_slices(algorithm: DiffAlgorithm, old: &Vec<String>, new: &Vec<String>) -> (ops: Vec<RawOp>)
    ensures
        ops@ == compact_diff_ops(algorithm, view_strings(old@), view_strings(new@)),
        equal_ops_match(decoded(ops@), view_strings(old@), view_strings(new@)),
        tags_known(ops@),
        tiles(decoded(ops@), old@.len() as int, new@.len() as int),
{
    let algorithm = match algorithm {
        DiffAlgorithm::Myers => Algorithm::Myers,
        DiffAlgorithm::Patience => Algorithm::Patience,
        DiffAlgorithm::Lcs => Algorithm::Lcs,
        DiffAlgorithm::Hunt => Algorithm::Hunt,
        DiffAlgorithm::Histogram => Algorithm::Histogram,
    };
    let mut hook = Compact::new(Replace::new(Capture::new()), &old[..], &new[..]);
    match similar::algorithms::diff_slices(algorithm, &mut hook, old, new) { Ok(()) => {}, Err(e) => match e {} }
    hook.into_inner().into_inner().into_ops().iter().map(|op| {
        let (tag, o, n) = op.as_tag_tuple();
        (tag as u8, o.start, o.end, n.start, n.end)
    }).collect()
}

pub open spec fn tag_of(code: u8) -> OpTag {
    if code == 0 {
        OpTag::Equal
    } else if code == 1 {
        OpTag::Delete
    } else if code == 2 {
        OpTag::Insert
    } else {
        OpTag::Replace
    }
}

pub open spec fn op_of(raw: RawOp) -> EditOp {
    EditOp { tag: tag_of(raw.0), old_start: raw.1, old_end: raw.2, new_start: raw.3, new_end: raw.4 }
}

pub open spec fn decoded(raw: Seq<RawOp>) -> Seq<EditOp> {
    raw.map_values(|r: RawOp| op_of(r))
}

pub open spec fn tags_known(raw: Seq<RawOp>) -> bool {
    forall|k: int| 0 <= k < raw.len() ==> #[trigger] raw[k].0 < 4
}

/// How far an op moves through the old sequence.
pub open spec fn old_advance(op: EditOp) -> int {
    match op.tag {
        OpTag::Insert => 0,
        _ => op.old_end - op.old_start,
    }
}

/// How far an op moves through the new sequence.
pub open spec fn new_advance(op: EditOp) -> int {
    match op.tag {
        OpTag::Delete => 0,
        _ => op.new_end - op.new_start,
    }
}

/// The op starts where the script has reached, `i` in the old sequence and
/// `j` in the new one, and its ranges are well formed; an equal op relates
/// ranges of one length.
pub open spec fn op_fits(op: EditOp, i: int, j: int) -> bool {
    match op.tag {
        OpTag::Equal => {
            &&& op.old_start == i && op.old_start <= op.old_end
            &&& op.new_start == j && op.new_start <= op.new_end
            &&& op.old_end - op.old_start == op.new_end - op.new_start
        },
        OpTag::Delete => op.old_start == i && op.old_start <= op.old_end,
        OpTag::Insert => op.new_start == j && op.new_start <= op.new_end,
        OpTag::Replace => {
            &&& op.old_start == i && op.old_start <= op.old_end
            &&& op.new_start == j && op.new_start <= op.new_end
        },
    }
}

/// Where a script has reached in the old sequence.
pub open spec fn old_pos(ops: Seq<EditOp>) -> int
    decreases ops.len(),
{
    if ops.len() == 0 {
        0
    } else {
        old_pos(ops.drop_last()) + old_advance(ops.last())
    }
}

/// Where a script has reached in the new sequence.
pub open spec fn new_pos(ops: Seq<EditOp>) -> int
    decreases ops.len(),
{
    if ops.len() == 0 {
        0
    } else {
        new_pos(ops.drop_last()) + new_advance(ops.last())
    }
}

/// Every op starts where the ops before it ended.
pub open spec fn fits_all(ops: Seq<EditOp>) -> bool
    decreases ops.len(),
{
    ops.len() == 0 || (fits_all(ops.drop_last()) && op_fits(
        ops.last(),
        old_pos(ops.drop_last()),
        new_pos(ops.drop_last()),
    ))
}

/// The script walks through both sequences from start to end: it relates
/// `old[0..n]` to `new[0..m]`, each element once, in order.
pub open spec fn tiles(ops: Seq<EditOp>, n: int, m: int) -> bool {
    fits_all(ops) && old_pos(ops) == n && new_pos(ops) == m
}

pub proof fn lemma_fits_prefix(ops: Seq<EditOp>, k: int)
    requires
        fits_all(ops),
        0 <= k <= ops.len(),
    ensures
        fits_all(ops.take(k)),
    decreases ops.len(),
{
    if k < ops.len() {
        assert(ops.drop_last().take(k) =~= ops.take(k));
        lemma_fits_prefix(ops.drop_last(), k);
    } else {
        assert(ops.take(k) =~= ops);
    }
}

/// Decodes a script reported by `similar` and checks that it tiles an old
/// sequence of `n` elements and a new one of `m`.
pub fn decode_script(raw: &Vec<RawOp>, n: usize, m: usize) -> (ops: Option<Vec<EditOp>>)
    ensures
        ops is Some <==> (tags_known(raw@) && tiles(decoded(raw@), n as int, m as int)),
        ops matches Some(v) ==> v@ == decoded(raw@),
{
    let ghost all = decoded(raw@);
    let mut ops: Vec<EditOp> = Vec::new();
    let mut i: usize = 0;
    let mut j: usize = 0;
    let mut k: usize = 0;
    while k < raw.len()
        invariant
            k <= raw.len(),
            all == decoded(raw@),
            ops@ == all.take(k as int),
            forall|q: int| 0 <= q < k ==> #[trigger] raw@[q].0 < 4,
            fits_all(ops@),
            i == old_pos(ops@),
            j == new_pos(ops@),
        decreases raw.len() - k,
    {
        let (code, old_start, old_end, new_start, new_end) = raw[k];
        let ghost prefix = ops@;
        proof {
            assert(all.take(k + 1).drop_last() =~= all.take(k as int));
        }
        if code >= 4 {
            proof {
                assert(!(raw@[k as int].0 < 4));
            }
            return None;
        }
        let tag = if code == 0 {
            OpTag::Equal
        } else if code == 1 {
            OpTag::Delete
        } else if code == 2 {
            OpTag::Insert
        } else {
            OpTag::Replace
        };
        let op = EditOp { tag, old_start, old_end, new_start, new_end };
        assert(op == all[k as int]);
        let fits = match tag {
            OpTag::Equal => old_start == i && old_start <= old_end && new_start == j && new_start <= new_end
                && old_end - old_start == new_end - new_start,
            OpTag::Delete => old_start == i && old_start <= old_end,
            OpTag::Insert => new_start == j && new_start <= new_end,
            OpTag::Replace => old_start == i && old_start <= old_end && new_start == j && new_start <= new_end,
        };
        if !fits {
            proof {
                if tags_known(raw@) && tiles(all, n as int, m as int) {
                    lemma_fits_prefix(all, k + 1);
                    assert(all.take(k + 1).last() == op);
                }
            }
            return None;
        }
        ops.push(op);
        proof {
            assert(ops@ =~= all.take(k + 1));
            assert(ops@.drop_last() =~= prefix);
        }
        match tag {
            OpTag::Insert => {},
            _ => {
                i = old_end;
            },
        }
        match tag {
            OpTag::Delete => {},
            _ => {
                j = new_end;
            },
        }
        k = k + 1;
    }
    proof {
        assert(all.take(raw@.len() as int) =~= all);
    }
    if i == n && j == m {
        Some(ops)
    } else {
        None
    }
}

pub proof fn lemma_advance_nonneg(ops: Seq<EditOp>)
    requires
        fits_all(ops),
    ensures
        forall|k: int| 0 <= k <= ops.len() ==> old_pos(#[trigger] ops.take(k)) <= old_pos(ops),
        forall|k: int| 0 <= k <= ops.len() ==> new_pos(#[trigger] ops.take(k)) <= new_pos(ops),
    decreases ops.len(),
{
    if ops.len() > 0 {
        lemma_advance_nonneg(ops.drop_last());
        assert forall|k: int| 0 <= k <= ops.len() implies old_pos(#[trigger] ops.take(k)) <= old_pos(ops)
            && new_pos(ops.take(k)) <= new_pos(ops) by {
            if k < ops.len() {
                assert(ops.drop_last().take(k) =~= ops.take(k));
            } else {
                assert(ops.take(k) =~= ops);
            }
        }
    }
}

/// Each op of a tiling script starts where the ops before it ended and stays
/// within both sequences.
pub proof fn lemma_op_in_bounds(ops: Seq<EditOp>, n: int, m: int, k: int)
    requires
        tiles(ops, n, m),
        0 <= k < ops.len(),
    ensures
        op_fits(ops[k], old_pos(ops.take(k)), new_pos(ops.take(k))),
        old_pos(ops.take(k + 1)) == old_pos(ops.take(k)) + old_advance(ops[k]),
        new_pos(ops.take(k + 1)) == new_pos(ops.take(k)) + new_advance(ops[k]),
        0 <= old_pos(ops.take(k)),
        0 <= new_pos(ops.take(k)),
        old_pos(ops.take(k + 1)) <= n,
        new_pos(ops.take(k + 1)) <= m,
        ops[k].tag != OpTag::Insert ==> ops[k].old_end <= n,
        ops[k].tag != OpTag::Delete ==> ops[k].new_end <= m,
{
    lemma_fits_prefix(ops, k + 1);
    lemma_advance_nonneg(ops);
    assert(ops.take(k + 1).drop_last() =~= ops.take(k));
    assert(ops.take(k + 1).last() == ops[k]);
    lemma_pos_nonneg(ops.take(k));
    lemma_fits_prefix(ops, k);
}

pub proof fn lemma_pos_nonneg(ops: Seq<EditOp>)
    requires
        fits_all(ops),
    ensures
        0 <= old_pos(ops),
        0 <= new_pos(ops),
    decreases ops.len(),
{
    if ops.len() > 0 {
        lemma_pos_nonneg(ops.drop_last());
    }
}

} // verus!
