use vstd::arithmetic::power::lemma_pow0;
use vstd::arithmetic::power2::{lemma_pow2_pos, lemma_pow2_unfold, pow2};
use vstd::prelude::*;

use crate::model::{block_capacity, inserted, op_values, ArenaView, Op};

verus! {

proof fn lemma_grows_refl<T>(a: ArenaView<T>)
    ensures
        a.grows_into(a),
{
}

proof fn lemma_grows_trans<T>(a: ArenaView<T>, b: ArenaView<T>, c: ArenaView<T>)
    requires
        a.grows_into(b),
        b.grows_into(c),
    ensures
        a.grows_into(c),
{
    assert forall|i: int, k: int|
        0 <= i < a.blocks.len() && 0 <= k < a.blocks[i].len() implies #[trigger] a.blocks[i][k]
        == c.blocks[i][k] by {
        assert(a.blocks[i].len() <= b.blocks[i].len());
        assert(b.blocks[i][k] == c.blocks[i][k]);
    }
}

/// One call keeps the arena well formed.
pub proof fn lemma_step_wf<T>(s: ArenaView<T>, op: Op<T>)
    requires
        s.wf(),
    ensures
        s.step(op).wf(),
{
    match op {
        Op::Insert(v) => s.lemma_insert_wf(v),
        Op::InsertAll(vs) => s.lemma_insert_all_wf(vs),
    }
}

/// Any sequence of calls keeps the arena well formed.
pub proof fn lemma_run_wf<T>(s: ArenaView<T>, ops: Seq<Op<T>>)
    requires
        s.wf(),
    ensures
        s.run(ops).wf(),
    decreases ops.len(),
{
    if ops.len() > 0 {
        lemma_run_wf(s, ops.drop_last());
        lemma_step_wf(s.run(ops.drop_last()), ops.last());
    }
}

/// One call leaves every element that was already in the arena in its block,
/// at its position, with its value.
pub proof fn lemma_step_grows<T>(s: ArenaView<T>, op: Op<T>)
    requires
        s.wf(),
    ensures
        s.grows_into(s.step(op)),
{
    s.lemma_targets();
    let t = s.step(op);
    assert forall|i: int| 0 <= i < s.blocks.len() implies (#[trigger] s.blocks[i]).len()
        <= t.blocks[i].len() by {}
    assert forall|i: int, k: int|
        0 <= i < s.blocks.len() && 0 <= k < s.blocks[i].len() implies #[trigger] s.blocks[i][k]
        == t.blocks[i][k] by {}
}

/// The reference or slice that a call returns holds, right after the call,
/// exactly the values that the call handed in.
pub proof fn lemma_step_result<T>(s: ArenaView<T>, op: Op<T>)
    requires
        s.wf(),
    ensures
        s.read_result(op, s.step(op)) == op_values(op),
        match op {
            Op::Insert(_) => 0 <= s.insert_slot().0 < s.step(op).blocks.len() && 0 <= s.insert_slot().1
                < s.step(op).blocks[s.insert_slot().0].len(),
            Op::InsertAll(vs) => 0 <= s.insert_all_slot(vs).0 < s.step(op).blocks.len() && 0
                <= s.insert_all_slot(vs).1 && s.insert_all_slot(vs).1 + vs.len() <= s.step(
                op,
            ).blocks[s.insert_all_slot(vs).0].len(),
        },
{
    s.lemma_targets();
    match op {
        Op::Insert(v) => {
            assert(s.read_result(op, s.step(op)) =~= seq![v]);
        },
        Op::InsertAll(vs) => {
            assert(s.read_result(op, s.step(op)) =~= vs);
        },
    }
}

/// Any sequence of calls leaves every element that was already in the arena
/// in its block, at its position, with its value.
pub proof fn lemma_run_grows<T>(s: ArenaView<T>, ops: Seq<Op<T>>)
    requires
        s.wf(),
    ensures
        s.grows_into(s.run(ops)),
    decreases ops.len(),
{
    if ops.len() == 0 {
        lemma_grows_refl(s);
    } else {
        let pre = ops.drop_last();
        lemma_run_grows(s, pre);
        lemma_run_wf(s, pre);
        lemma_step_grows(s.run(pre), ops.last());
        lemma_grows_trans(s, s.run(pre), s.run(ops));
    }
}

/// After any sequence of calls the element count has grown by exactly the
/// number of values handed in, and it is the number of elements the blocks
/// hold.
pub proof fn lemma_len_counts_inserted<T>(s: ArenaView<T>, ops: Seq<Op<T>>)
    requires
        s.wf(),
    ensures
        s.run(ops).len == s.len + inserted(ops).len(),
        s.run(ops).len == crate::model::total_len(s.run(ops).blocks),
    decreases ops.len(),
{
    lemma_run_wf(s, ops);
    if ops.len() > 0 {
        lemma_len_counts_inserted(s, ops.drop_last());
    }
}

/// A reference or slice, once returned, goes on reading the same values after
/// any later sequence of calls.
pub proof fn lemma_results_stay<T>(s: ArenaView<T>, ops: Seq<Op<T>>, h: crate::model::Handle, r: crate::model::SliceHandle)
    requires
        s.wf(),
    ensures
        s.holds(h) ==> s.run(ops).holds(h) && s.run(ops).at(h) == s.at(h),
        s.holds_slice(r) ==> s.run(ops).holds_slice(r) && s.run(ops).slice_at(r) == s.slice_at(r),
{
    lemma_run_grows(s, ops);
    let t = s.run(ops);
    if s.holds(h) {
        assert(s.blocks[h.slab as int][h.index as int] == t.blocks[h.slab as int][h.index as int]);
    }
    if s.holds_slice(r) {
        let i = r.slab as int;
        assert(s.blocks[i].len() <= t.blocks[i].len());
        assert forall|k: int| 0 <= k < r.len implies #[trigger] t.slice_at(r)[k] == s.slice_at(r)[k] by {
            assert(s.blocks[i][r.start + k] == t.blocks[i][r.start + k]);
        }
        assert(t.slice_at(r) =~= s.slice_at(r));
    }
}

proof fn lemma_read_all_later<T>(s: ArenaView<T>, ops: Seq<Op<T>>, later: ArenaView<T>)
    requires
        s.wf(),
        s.run(ops).grows_into(later),
    ensures
        s.read_all(ops, later) == inserted(ops),
    decreases ops.len(),
{
    if ops.len() > 0 {
        let pre = ops.drop_last();
        let op = ops.last();
        let a = s.run(pre);
        let b = s.run(ops);
        lemma_run_wf(s, pre);
        lemma_step_grows(a, op);
        lemma_grows_trans(a, b, later);
        lemma_read_all_later(s, pre, later);
        lemma_step_result(a, op);
        match op {
            Op::Insert(v) => {
                let (i, p) = a.insert_slot();
                assert(b.blocks[i][p] == later.blocks[i][p]);
                assert(a.read_result(op, later) =~= a.read_result(op, b));
            },
            Op::InsertAll(vs) => {
                let (i, p) = a.insert_all_slot(vs);
                assert(b.blocks[i].len() <= later.blocks[i].len());
                assert forall|k: int| 0 <= k < vs.len() implies #[trigger] a.read_result(op, later)[k]
                    == a.read_result(op, b)[k] by {
                    assert(b.blocks[i][p + k] == later.blocks[i][p + k]);
                }
                assert(a.read_result(op, later) =~= a.read_result(op, b));
            },
        }
    }
}

/// Reading what every call returned, in call order, after any sequence of
/// calls gives back all the values handed in, in the order they were handed
/// in.
pub proof fn lemma_results_in_insertion_order<T>(s: ArenaView<T>, ops: Seq<Op<T>>)
    requires
        s.wf(),
    ensures
        s.read_all(ops, s.run(ops)) == inserted(ops),
{
    lemma_grows_refl(s.run(ops));
    lemma_read_all_later(s, ops, s.run(ops));
}

/// A call adds at most one block, at the end, and never moves the known-full
/// cursor back. A single insert adds one only
/// when every block from the cursor on is full, with the next capacity of the
/// doubling sequence; a bulk insert only when its values do not fit in the
/// block it tries, with that capacity or the number of values where that is
/// larger.
pub proof fn lemma_block_creation<T>(s: ArenaView<T>, op: Op<T>)
    requires
        s.wf(),
    ensures
        s.step(op).blocks.len() == s.blocks.len() || s.step(op).blocks.len() == s.blocks.len() + 1,
        s.step(op).caps.subrange(0, s.blocks.len() as int) == s.caps,
        s.step(op).cursor >= s.cursor,
        s.step(op).blocks.len() == s.blocks.len() + 1 ==> match op {
            Op::Insert(_) => (forall|k: int| s.cursor <= k < s.blocks.len() ==> !#[trigger] s.is_open(k))
                && s.step(op).caps[s.blocks.len() as int] == block_capacity(s.blocks.len()),
            Op::InsertAll(vs) => !s.bulk_fits(vs) && s.step(op).caps[s.blocks.len() as int] == (
            if vs.len() <= block_capacity(s.blocks.len()) {
                block_capacity(s.blocks.len())
            } else {
                vs.len()
            }),
        },
{
    s.lemma_targets();
    assert(s.step(op).caps.subrange(0, s.blocks.len() as int) =~= s.caps);
}

/// Block capacities run 32, 64, 128, ... for as long as they fit in a `usize`.
pub proof fn lemma_block_capacity_doubles(i: nat)
    requires
        32 * pow2(i) <= usize::MAX,
    ensures
        block_capacity(i) == 32 * pow2(i),
    decreases i,
{
    if i == 0 {
        lemma_pow0(2);
    } else {
        lemma_pow2_unfold(i);
        lemma_pow2_pos((i - 1) as nat);
        lemma_block_capacity_doubles((i - 1) as nat);
    }
}

} // verus!
