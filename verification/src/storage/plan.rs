//! The writes that store a range of the content in the files it crosses.

use vstd::prelude::*;

verus! {

/// Where a file lies in the content: the offset of its first byte, and
/// its length.
#[derive(Debug, Clone, Copy, PartialEq, Eq)]
pub struct FileSpan {
    pub offset: usize,
    pub length: usize,
}

/// One write: `len` bytes of a piece, from `data_offset` on, go to the
/// file numbered `file`, from `file_offset` on.
#[derive(Debug, Clone, Copy, PartialEq, Eq)]
pub struct WriteOp {
    pub file: usize,
    pub file_offset: usize,
    pub data_offset: usize,
    pub len: usize,
}

/// Where file `i` begins if the files lie one after another from 0 on:
/// the lengths of the files before it together.
pub open spec fn offset_at(files: Seq<FileSpan>, i: int) -> int
    decreases i,
{
    if i <= 0 {
        0
    } else {
        offset_at(files, i - 1) + files[i - 1].length
    }
}

/// Where the files end: behind the last one.
pub open spec fn end_of(files: Seq<FileSpan>) -> int {
    offset_at(files, files.len() as int)
}

/// The first file begins the content, and each other file begins where
/// the one before it ends.
pub open spec fn contiguous(files: Seq<FileSpan>) -> bool {
    forall|i: int| 0 <= i < files.len() ==> (#[trigger] files[i]).offset == offset_at(files, i)
}

/// The larger of two numbers.
pub open spec fn max_of(a: int, b: int) -> int {
    if a >= b {
        a
    } else {
        b
    }
}

/// The smaller of two numbers.
pub open spec fn min_of(a: int, b: int) -> int {
    if a <= b {
        a
    } else {
        b
    }
}

/// The write that stores in file `k` what the range of `n` bytes from `p`
/// on shares with it, if they share a byte.
pub open spec fn overlap(span: FileSpan, k: int, p: int, n: int) -> Option<WriteOp> {
    let lo = max_of(p, span.offset as int);
    let hi = min_of(p + n, span.offset + span.length);
    if lo < hi {
        Some(
            WriteOp {
                file: k as usize,
                file_offset: (lo - span.offset) as usize,
                data_offset: (lo - p) as usize,
                len: (hi - lo) as usize,
            },
        )
    } else {
        None
    }
}

/// The writes that store the range of `n` bytes from `p` on: one for each
/// file that shares a byte with the range, in the order of the files.
pub open spec fn plan_of(files: Seq<FileSpan>, p: int, n: int) -> Seq<WriteOp>
    decreases files.len(),
{
    if files.len() == 0 {
        Seq::empty()
    } else {
        let before = plan_of(files.drop_last(), p, n);
        match overlap(files.last(), files.len() - 1, p, n) {
            Some(op) => before.push(op),
            None => before,
        }
    }
}

/// How many bytes the writes store together.
pub open spec fn written(ops: Seq<WriteOp>) -> int
    decreases ops.len(),
{
    if ops.len() == 0 {
        0
    } else {
        written(ops.drop_last()) + ops.last().len
    }
}

/// One of the writes stores byte `x` of file `f`.
pub open spec fn covers(ops: Seq<WriteOp>, f: int, x: int) -> bool {
    exists|k: int|
        0 <= k < ops.len() && (#[trigger] ops[k]).file == f && ops[k].file_offset <= x
            < ops[k].file_offset + ops[k].len
}

/// A later file begins no earlier than an earlier one.
pub proof fn lemma_offset_monotone(files: Seq<FileSpan>, i: int, j: int)
    requires
        0 <= i <= j,
    ensures
        0 <= offset_at(files, i) <= offset_at(files, j),
    decreases j,
{
    if i < j {
        lemma_offset_monotone(files, i, j - 1);
    } else if i > 0 {
        lemma_offset_monotone(files, i - 1, i - 1);
    }
}

/// Where a file begins does not depend on the files behind it.
pub proof fn lemma_offset_prefix(files: Seq<FileSpan>, i: int)
    requires
        0 <= i < files.len(),
    ensures
        offset_at(files.drop_last(), i) == offset_at(files, i),
    decreases i,
{
    if i > 0 {
        lemma_offset_prefix(files, i - 1);
        assert(files.drop_last()[i - 1] == files[i - 1]);
    }
}

/// Each file ends at or before the end of the files.
pub proof fn lemma_contiguous_ends(files: Seq<FileSpan>, i: int)
    requires
        contiguous(files),
        0 <= i < files.len(),
    ensures
        files[i].offset + files[i].length <= end_of(files),
{
    lemma_offset_monotone(files, i + 1, files.len() as int);
}

/// Files that lie one after another still do without the last of them,
/// and the last begins where the others end.
pub proof fn lemma_contiguous_prefix(files: Seq<FileSpan>)
    requires
        contiguous(files),
        files.len() > 0,
    ensures
        contiguous(files.drop_last()),
        end_of(files.drop_last()) == files.last().offset,
        end_of(files) == files.last().offset + files.last().length,
{
    let head = files.drop_last();
    assert forall|i: int| 0 <= i < head.len() implies (#[trigger] head[i]).offset == offset_at(
        head,
        i,
    ) by {
        assert(head[i] == files[i]);
        lemma_offset_prefix(files, i);
    }
    lemma_offset_prefix(files, files.len() - 1);
}

/// The writes of a range store as many bytes as the range shares with the
/// files: all of it, where the range ends within the files.
pub proof fn lemma_written(files: Seq<FileSpan>, p: int, n: int)
    requires
        contiguous(files),
        0 <= p,
        0 <= n <= usize::MAX,
    ensures
        written(plan_of(files, p, n)) == max_of(min_of(p + n, end_of(files)) - p, 0),
    decreases files.len(),
{
    if files.len() > 0 {
        lemma_contiguous_prefix(files);
        lemma_offset_monotone(files, 0, files.len() - 1);
        lemma_written(files.drop_last(), p, n);
        let before = plan_of(files.drop_last(), p, n);
        match overlap(files.last(), files.len() - 1, p, n) {
            Some(op) => {
                assert(before.push(op).drop_last() =~= before);
            },
            None => {},
        }
    }
}

/// Every write of a plan goes to one of the files and stays within it,
/// and takes its bytes from within the range.
pub proof fn lemma_plan_bounds(files: Seq<FileSpan>, p: int, n: int, k: int)
    requires
        0 <= p,
        0 <= n <= usize::MAX,
        files.len() <= usize::MAX,
        0 <= k < plan_of(files, p, n).len(),
    ensures
        ({
            let op = plan_of(files, p, n)[k];
            &&& op.file < files.len()
            &&& op.len >= 1
            &&& op.file_offset + op.len <= files[op.file as int].length
            &&& op.data_offset + op.len <= n
            &&& files[op.file as int].offset + op.file_offset == p + op.data_offset
        }),
    decreases files.len(),
{
    if files.len() > 0 {
        let before = plan_of(files.drop_last(), p, n);
        if k < before.len() {
            lemma_plan_bounds(files.drop_last(), p, n, k);
            assert(files.drop_last()[before[k].file as int] == files[before[k].file as int]);
        }
    }
}

/// A plan stores byte `x` of file `f` if and only if the byte lies in the
/// range that the plan is for.
pub proof fn lemma_covers(files: Seq<FileSpan>, p: int, n: int, f: int, x: int)
    requires
        0 <= p,
        0 <= n <= usize::MAX,
        files.len() <= usize::MAX,
        0 <= f < files.len(),
        0 <= x < files[f].length,
    ensures
        covers(plan_of(files, p, n), f, x) <==> p <= files[f].offset + x < p + n,
    decreases files.len(),
{
    let plan = plan_of(files, p, n);
    let head = files.drop_last();
    let before = plan_of(head, p, n);
    let last = files.len() - 1;
    assert forall|k: int| 0 <= k < before.len() implies (#[trigger] before[k]).file < last by {
        lemma_plan_bounds(head, p, n, k);
    }
    if f < last {
        lemma_covers(head, p, n, f, x);
        assert(head[f] == files[f]);
        if covers(before, f, x) {
            let k = choose|k: int|
                0 <= k < before.len() && (#[trigger] before[k]).file == f && before[k].file_offset
                    <= x < before[k].file_offset + before[k].len;
            assert(plan[k] == before[k]);
        }
        if covers(plan, f, x) {
            let k = choose|k: int|
                0 <= k < plan.len() && (#[trigger] plan[k]).file == f && plan[k].file_offset <= x
                    < plan[k].file_offset + plan[k].len;
            if k < before.len() {
                assert(plan[k] == before[k]);
            }
        }
    } else {
        match overlap(files.last(), last, p, n) {
            Some(op) => {
                assert(plan[before.len() as int] == op);
                if covers(plan, f, x) {
                    let k = choose|k: int|
                        0 <= k < plan.len() && (#[trigger] plan[k]).file == f
                            && plan[k].file_offset <= x < plan[k].file_offset + plan[k].len;
                    if k < before.len() {
                        assert(plan[k] == before[k]);
                    }
                }
            },
            None => {
                if covers(plan, f, x) {
                    let k = choose|k: int|
                        0 <= k < plan.len() && (#[trigger] plan[k]).file == f
                            && plan[k].file_offset <= x < plan[k].file_offset + plan[k].len;
                    assert(plan[k] == before[k]);
                }
            },
        }
    }
}

} // verus!
