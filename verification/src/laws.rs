//! What holds of the arena across its operations: checkpoints, rewind and
//! reset, reserved memory, and where allocations land.
use vstd::prelude::*;

use crate::block::{aligned_start, block_fits, bumped};
use crate::layout::{is_pow2, lemma_round_up};
use crate::lemmas::{
    lemma_first_fit_range, lemma_reserved_monotone, lemma_reserved_prefix_eq, lemma_rewound,
    lemma_used_prefix_eq, lemma_used_zero_range, lemma_view_counters, lemma_keeps_blocks,
};
use crate::model::{is_live, step, steps, steps_wf, used_before, ArenaView};
use crate::stats::Checkpoint;
use crate::arena_vec::{after_pushes, grow_target, push_state, VecState};
use crate::model::{grown_block_size, max_int, new_block_capacity, worst_case, MAX_BLOCK_SIZE};
use crate::transaction::Transaction;

verus! {

/// A checkpoint taken of an arena is valid for it, and rewinding to it right
/// away changes nothing.
pub proof fn law_checkpoint_valid(v: ArenaView, cp: Checkpoint)
    requires
        v.wf(),
        cp.block_idx == v.current,
        cp.offset == v.current_block().offset,
        cp.bytes_allocated == v.bytes_allocated(),
    ensures
        v.valid_checkpoint(cp),
        v.rewound(cp.block_idx as int, cp.offset as int) == v,
{
    lemma_view_counters(v);
    assert(v.current_block().wf());
    let w = v.rewound(cp.block_idx as int, cp.offset as int);
    assert(w.blocks =~= v.blocks);
}

/// Serving a request, failing to serve one, and changing the transaction
/// depth keep every valid checkpoint valid; a served request never moves the
/// current block back.
pub proof fn law_alloc_keeps_checkpoints(v: ArenaView, cp: Checkpoint, size: int, align: int)
    requires
        v.wf(),
        v.valid_checkpoint(cp),
    ensures
        v.after_alloc(size, align).valid_checkpoint(cp),
        v.after_alloc(size, align).current >= v.current,
        v.after_failed_alloc(size, align).valid_checkpoint(cp),
        forall|d: int| (#[trigger] v.with_depth(d)).valid_checkpoint(cp),
{
    let w = v.after_alloc(size, align);
    let i = cp.block_idx as int;
    lemma_keeps_blocks(v, size, align, 0, 0);
    if v.needs_new_block(size, align) {
        assert forall|j: int| 0 <= j < i implies (#[trigger] v.blocks[j]).offset == w.blocks[j].offset by {
            assert(w.blocks[j] == v.blocks[j]);
        }
        lemma_used_prefix_eq(v.blocks, w.blocks, i);
    } else {
        let t = v.target(size, align);
        lemma_first_fit_range(v.blocks, v.current as int + 1, size, align);
        assert(v.current <= t < v.blocks.len());
        assert forall|j: int| 0 <= j < i implies (#[trigger] v.blocks[j]).offset == w.blocks[j].offset by {
            assert(w.blocks[j] == v.blocks[j]);
        }
        lemma_used_prefix_eq(v.blocks, w.blocks, i);
    }
}

/// Rewinding to a valid checkpoint restores the bytes in use to the
/// checkpoint's count and makes its block current, keeps every block and the
/// bytes reserved, and keeps valid every checkpoint taken at or before the
/// checkpoint's block.
pub proof fn law_rewind_restores(v: ArenaView, cp: Checkpoint, earlier: Checkpoint)
    requires
        v.wf(),
        v.valid_checkpoint(cp),
        v.valid_checkpoint(earlier),
        earlier.block_idx <= cp.block_idx,
    ensures
        ({
            let w = v.rewound(cp.block_idx as int, cp.offset as int);
            &&& w.wf()
            &&& w.bytes_allocated() == cp.bytes_allocated
            &&& w.current == cp.block_idx
            &&& w.bytes_reserved() == v.bytes_reserved()
            &&& w.blocks.len() == v.blocks.len()
            &&& v.keeps_blocks(w)
            &&& w.valid_checkpoint(cp)
            &&& w.valid_checkpoint(earlier)
        }),
{
    let idx = cp.block_idx as int;
    let w = v.rewound(idx, cp.offset as int);
    lemma_rewound(v, idx, cp.offset as int);
    lemma_keeps_blocks(v, 0, 1, idx, cp.offset as int);
    let e = earlier.block_idx as int;
    assert forall|j: int| 0 <= j < e implies (#[trigger] v.blocks[j]).offset == w.blocks[j].offset by {}
    lemma_used_prefix_eq(v.blocks, w.blocks, e);
}

/// Allocating and then rewinding to the checkpoint taken before gives back
/// the bytes in use before, and keeps the bytes the allocation reserved.
pub proof fn law_alloc_then_rewind(v: ArenaView, cp: Checkpoint, size: int, align: int)
    requires
        v.wf(),
        cp.block_idx == v.current,
        cp.offset == v.current_block().offset,
        cp.bytes_allocated == v.bytes_allocated(),
    ensures
        ({
            let w = v.after_alloc(size, align);
            let r = w.rewound(cp.block_idx as int, cp.offset as int);
            &&& r.bytes_allocated() == v.bytes_allocated()
            &&& r.current == v.current
            &&& r.blocks.len() == w.blocks.len()
            &&& w.keeps_blocks(r)
        }),
{
    law_checkpoint_valid(v, cp);
    law_alloc_keeps_checkpoints(v, cp, size, align);
    let w = v.after_alloc(size, align);
    let idx = cp.block_idx as int;
    let r = w.rewound(idx, cp.offset as int);
    lemma_keeps_blocks(v, size, align, 0, 0);
    assert(idx < w.blocks.len());
    assert forall|j: int| 0 <= j < idx implies (#[trigger] w.blocks[j]).offset == r.blocks[j].offset by {}
    lemma_used_prefix_eq(w.blocks, r.blocks, idx);
    assert(r.blocks[idx].offset == cp.offset);
    assert forall|j: int| 0 <= j < w.blocks.len() implies (#[trigger] r.blocks[j]).capacity == w.blocks[j].capacity
        && r.blocks[j].base == w.blocks[j].base by {}
}

/// Blocks laid out in increasing, disjoint ranges: every block ends at or
/// before the start of every later one.
proof fn lemma_blocks_ordered(v: ArenaView, i: int, j: int)
    requires
        v.wf(),
        0 <= i < j < v.blocks.len(),
    ensures
        v.blocks[i].base + v.blocks[i].capacity <= v.blocks[j].base,
    decreases j - i,
{
    if j > i + 1 {
        lemma_blocks_ordered(v, i, j - 1);
        assert(v.blocks[j - 1].wf());
    }
    assert(v.blocks[j - 1].base + v.blocks[j - 1].capacity <= v.blocks[j - 1 + 1].base);
}

/// Every block ends at or before `next_base`.
proof fn lemma_blocks_below_next_base(v: ArenaView, i: int)
    requires
        v.wf(),
        0 <= i < v.blocks.len(),
    ensures
        v.blocks[i].base + v.blocks[i].capacity <= v.next_base,
{
    let n = v.blocks.len() as int;
    assert(v.blocks.last() == v.blocks[n - 1]);
    if i < n - 1 {
        lemma_blocks_ordered(v, i, n - 1);
        assert(v.blocks[n - 1].wf());
    }
}

/// A served request gets an address aligned as asked, whose bytes were free
/// before and are in use after; the bytes in use before stay in use; and the
/// bytes in use grow by the size plus less than the alignment in padding.
pub proof fn law_alloc_fresh(v: ArenaView, size: int, align: int)
    requires
        v.wf(),
        is_pow2(align),
        size > 0,
        v.serves(size, align),
    ensures
        ({
            let a = v.alloc_addr(size, align);
            let w = v.after_alloc(size, align);
            &&& a % align == 0
            &&& forall|x: int| a <= x < a + size ==> !is_live(v.blocks, x)
            &&& forall|x: int| a <= x < a + size ==> is_live(w.blocks, x)
            &&& forall|x: int| is_live(v.blocks, x) ==> is_live(w.blocks, x)
            &&& v.bytes_allocated() + size <= w.bytes_allocated() < v.bytes_allocated() + size + align
        }),
{
    crate::layout::lemma_pow2_ge(align);
    lemma_view_counters(v);
    let a = v.alloc_addr(size, align);
    let w = v.after_alloc(size, align);
    let bs = v.blocks;
    let n = bs.len() as int;
    lemma_used_zero_range(bs, v.current as int + 1, n);
    if v.needs_new_block(size, align) {
        let b = v.new_block(size, align);
        crate::layout::lemma_round_up(v.next_base as int, crate::model::new_block_align(align));
        lemma_round_up(b.base as int, align);
        assert(a == aligned_start(b, align));
        assert(b.base >= v.next_base);
        // The new block takes the request.
        assert(v.new_capacity(size, align) >= size + align - 1);
        assert(a + size <= b.base + b.capacity);
        let nb = bumped(b, size, align);
        assert(nb.offset == a + size - b.base);
        assert(w.blocks[n] == nb);
        assert forall|x: int| a <= x < a + size implies !is_live(bs, x) by {
            assert forall|j: int| 0 <= j < bs.len() implies !((#[trigger] bs[j]).base <= x < bs[j].base + bs[j].offset) by {
                lemma_blocks_below_next_base(v, j);
                assert(bs[j].wf());
            }
        }
        assert forall|x: int| a <= x < a + size implies is_live(w.blocks, x) by {
            assert(w.blocks[n].base <= x < w.blocks[n].base + w.blocks[n].offset);
        }
        assert forall|x: int| is_live(bs, x) implies is_live(w.blocks, x) by {
            let j = choose|j: int| 0 <= j < bs.len() && (#[trigger] bs[j]).base <= x < bs[j].base + bs[j].offset;
            assert(w.blocks[j] == bs[j]);
        }
        assert forall|j: int| 0 <= j < n implies (#[trigger] bs[j]).offset == w.blocks[j].offset by {
            assert(w.blocks[j] == bs[j]);
        }
        lemma_used_prefix_eq(bs, w.blocks, n);
        assert(used_before(w.blocks, n + 1) == used_before(w.blocks, n) + w.blocks[n].offset);
    } else {
        let t = v.target(size, align);
        lemma_first_fit_range(bs, v.current as int + 1, size, align);
        assert(v.current <= t < n);
        let bt = bs[t];
        assert(bt.wf());
        assert(block_fits(bt, size, align));
        lemma_round_up(bt.base + bt.offset, align);
        assert(a == aligned_start(bt, align));
        let nb = bumped(bt, size, align);
        assert(w.blocks[t] == nb);
        assert(nb.offset == a + size - bt.base);
        assert forall|x: int| a <= x < a + size implies !is_live(bs, x) by {
            assert forall|j: int| 0 <= j < bs.len() implies !((#[trigger] bs[j]).base <= x < bs[j].base + bs[j].offset) by {
                assert(bs[j].wf());
                if j < t {
                    lemma_blocks_ordered(v, j, t);
                } else if j > t {
                    lemma_blocks_ordered(v, t, j);
                }
            }
        }
        assert forall|x: int| a <= x < a + size implies is_live(w.blocks, x) by {
            assert(w.blocks[t].base <= x < w.blocks[t].base + w.blocks[t].offset);
        }
        assert forall|x: int| is_live(bs, x) implies is_live(w.blocks, x) by {
            let j = choose|j: int| 0 <= j < bs.len() && (#[trigger] bs[j]).base <= x < bs[j].base + bs[j].offset;
            if j != t {
                assert(w.blocks[j] == bs[j]);
            } else {
                assert(w.blocks[j].base <= x < w.blocks[j].base + w.blocks[j].offset);
            }
        }
        assert forall|j: int| 0 <= j < t implies (#[trigger] bs[j]).offset == w.blocks[j].offset by {
            assert(w.blocks[j] == bs[j]);
        }
        lemma_used_prefix_eq(bs, w.blocks, t);
        assert(used_before(w.blocks, t + 1) == used_before(w.blocks, t) + w.blocks[t].offset);
        if t > v.current {
            lemma_used_zero_range(bs, v.current as int + 1, t);
            assert(bt.offset == 0);
        }
    }
}

/// The requests up to `k + 1` are those up to `k` and then request `k`.
proof fn lemma_steps_unfold(v: ArenaView, reqs: Seq<(int, int)>, k: int)
    requires
        0 <= k < reqs.len(),
    ensures
        steps(v, reqs.take(k + 1)) == step(steps(v, reqs.take(k)), reqs[k].0, reqs[k].1),
{
    let t = reqs.take(k + 1);
    assert(t.drop_last() =~= reqs.take(k));
    assert(t.last() == reqs[k]);
}

/// All the requests are the requests up to their number.
proof fn lemma_steps_all(v: ArenaView, reqs: Seq<(int, int)>)
    ensures
        steps(v, reqs.take(reqs.len() as int)) == steps(v, reqs),
{
    assert(reqs.take(reqs.len() as int) =~= reqs);
}

/// A valid checkpoint stays valid through any requests.
proof fn lemma_steps_keep_checkpoint(v: ArenaView, cp: Checkpoint, reqs: Seq<(int, int)>, k: int)
    requires
        steps_wf(v, reqs),
        v.valid_checkpoint(cp),
        0 <= k <= reqs.len(),
    ensures
        steps(v, reqs.take(k)).valid_checkpoint(cp),
        steps(v, reqs.take(k)).current >= v.current,
    decreases k,
{
    if k == 0 {
        assert(reqs.take(0) =~= Seq::<(int, int)>::empty());
    } else {
        lemma_steps_keep_checkpoint(v, cp, reqs, k - 1);
        lemma_steps_unfold(v, reqs, k - 1);
        let u = steps(v, reqs.take(k - 1));
        assert(u.wf());
        law_alloc_keeps_checkpoints(u, cp, reqs[k - 1].0, reqs[k - 1].1);
    }
}

/// Rewinding to a checkpoint after any sequence of allocation requests,
/// served or not, restores the bytes in use and the position at the
/// checkpoint, and keeps every block and the bytes reserved.
pub proof fn law_rewind_after_requests(v: ArenaView, cp: Checkpoint, reqs: Seq<(int, int)>)
    requires
        v.wf(),
        cp.block_idx == v.current,
        cp.offset == v.current_block().offset,
        cp.bytes_allocated == v.bytes_allocated(),
        steps_wf(v, reqs),
    ensures
        ({
            let w = steps(v, reqs);
            let r = w.rewound(cp.block_idx as int, cp.offset as int);
            &&& w.valid_checkpoint(cp)
            &&& r.wf()
            &&& r.bytes_allocated() == v.bytes_allocated()
            &&& r.bytes_reserved() == w.bytes_reserved()
            &&& r.blocks.len() == w.blocks.len()
            &&& r.current == v.current
            &&& r.current_block().offset == cp.offset
        }),
{
    law_checkpoint_valid(v, cp);
    lemma_steps_keep_checkpoint(v, cp, reqs, reqs.len() as int);
    lemma_steps_all(v, reqs);
    let w = steps(v, reqs);
    assert(w.wf());
    law_rewind_restores(w, cp, cp);
}

/// A request, served or not, keeps in use every byte that was.
proof fn lemma_live_kept(u: ArenaView, size: int, align: int)
    requires
        u.wf(),
        align > 0,
        size >= 0,
    ensures
        forall|x: int| is_live(u.blocks, x) ==> is_live(step(u, size, align).blocks, x),
{
    let w = step(u, size, align);
    let bs = u.blocks;
    if size != 0 && u.can_alloc(size, align) && !u.needs_new_block(size, align) {
        let t = u.target(size, align);
        lemma_first_fit_range(bs, u.current as int + 1, size, align);
        assert(u.current <= t < bs.len());
        assert(bs[t].wf());
        lemma_round_up(bs[t].base + bs[t].offset, align);
        assert forall|x: int| is_live(bs, x) implies is_live(w.blocks, x) by {
            let j = choose|j: int| 0 <= j < bs.len() && (#[trigger] bs[j]).base <= x < bs[j].base + bs[j].offset;
            if j != t {
                assert(w.blocks[j] == bs[j]);
            } else {
                assert(w.blocks[j].base <= x < w.blocks[j].base + w.blocks[j].offset);
            }
        }
    } else {
        assert forall|x: int| is_live(bs, x) implies is_live(w.blocks, x) by {
            let j = choose|j: int| 0 <= j < bs.len() && (#[trigger] bs[j]).base <= x < bs[j].base + bs[j].offset;
            assert(w.blocks[j] == bs[j]);
        }
    }
}

/// Bytes in use stay in use through any requests.
proof fn lemma_steps_keep_live(v: ArenaView, reqs: Seq<(int, int)>, k: int, x: int)
    requires
        steps_wf(v, reqs),
        forall|i: int| 0 <= i < reqs.len() ==> (#[trigger] reqs[i]).1 > 0 && reqs[i].0 >= 0,
        is_live(v.blocks, x),
        0 <= k <= reqs.len(),
    ensures
        is_live(steps(v, reqs.take(k)).blocks, x),
    decreases k,
{
    if k == 0 {
        assert(reqs.take(0) =~= Seq::<(int, int)>::empty());
    } else {
        lemma_steps_keep_live(v, reqs, k - 1, x);
        lemma_steps_unfold(v, reqs, k - 1);
        let u = steps(v, reqs.take(k - 1));
        assert(u.wf());
        assert(reqs[k - 1].1 > 0 && reqs[k - 1].0 >= 0);
        lemma_live_kept(u, reqs[k - 1].0, reqs[k - 1].1);
    }
}

/// Two allocations never overlap: an allocation and one served after any
/// further requests (with no rewind or reset between them) occupy disjoint
/// address ranges.
pub proof fn law_allocations_disjoint(
    v: ArenaView,
    size1: int,
    align1: int,
    reqs: Seq<(int, int)>,
    size2: int,
    align2: int,
)
    requires
        v.wf(),
        is_pow2(align1),
        size1 > 0,
        v.serves(size1, align1),
        forall|i: int| 0 <= i < reqs.len() ==> (#[trigger] reqs[i]).1 > 0 && reqs[i].0 >= 0,
        steps_wf(v.after_alloc(size1, align1), reqs),
        is_pow2(align2),
        size2 > 0,
        steps(v.after_alloc(size1, align1), reqs).serves(size2, align2),
    ensures
        ({
            let p1 = v.alloc_addr(size1, align1);
            let p2 = steps(v.after_alloc(size1, align1), reqs).alloc_addr(size2, align2);
            p1 + size1 <= p2 || p2 + size2 <= p1
        }),
{
    let v1 = v.after_alloc(size1, align1);
    let w = steps(v1, reqs);
    let p1 = v.alloc_addr(size1, align1);
    let p2 = w.alloc_addr(size2, align2);
    law_alloc_fresh(v, size1, align1);
    lemma_steps_all(v1, reqs);
    assert(steps(v1, reqs.take(reqs.len() as int)).wf());
    assert(w.wf());
    law_alloc_fresh(w, size2, align2);
    if !(p1 + size1 <= p2 || p2 + size2 <= p1) {
        let x = if p1 >= p2 { p1 } else { p2 };
        assert(p1 <= x < p1 + size1);
        assert(is_live(v1.blocks, x));
        lemma_steps_keep_live(v1, reqs, reqs.len() as int, x);
        assert(is_live(w.blocks, x));
        assert(p2 <= x < p2 + size2);
        assert(!is_live(w.blocks, x));
    }
}

/// A request, served or not, never lowers the bytes in use.
proof fn lemma_step_bytes_grow(u: ArenaView, size: int, align: int)
    requires
        u.wf(),
        align > 0,
        size >= 0,
    ensures
        step(u, size, align).bytes_allocated() >= u.bytes_allocated(),
{
    let w = step(u, size, align);
    let bs = u.blocks;
    let n = bs.len() as int;
    lemma_view_counters(u);
    if size != 0 && u.can_alloc(size, align) {
        lemma_used_zero_range(bs, u.current as int + 1, n);
        if u.needs_new_block(size, align) {
            let b = u.new_block(size, align);
            lemma_round_up(b.base as int, align);
            assert forall|j: int| 0 <= j < n implies (#[trigger] bs[j]).offset == w.blocks[j].offset by {
                assert(w.blocks[j] == bs[j]);
            }
            lemma_used_prefix_eq(bs, w.blocks, n);
            assert(used_before(w.blocks, n + 1) == used_before(w.blocks, n) + w.blocks[n].offset);
        } else {
            let t = u.target(size, align);
            lemma_first_fit_range(bs, u.current as int + 1, size, align);
            assert(u.current <= t < n);
            assert(bs[t].wf());
            lemma_round_up(bs[t].base + bs[t].offset, align);
            assert(w.blocks[t] == bumped(bs[t], size, align));
            assert forall|j: int| 0 <= j < t implies (#[trigger] bs[j]).offset == w.blocks[j].offset by {
                assert(w.blocks[j] == bs[j]);
            }
            lemma_used_prefix_eq(bs, w.blocks, t);
            assert(used_before(w.blocks, t + 1) == used_before(w.blocks, t) + w.blocks[t].offset);
            if t > u.current {
                lemma_used_zero_range(bs, u.current as int + 1, t);
            }
        }
    }
}

/// Allocation requests, served or not, never lower the bytes in use; so the
/// bytes a transaction reports as used are exactly those the arena gained
/// since it opened.
pub proof fn law_requests_never_lower_use(v: ArenaView, reqs: Seq<(int, int)>)
    requires
        steps_wf(v, reqs),
        forall|i: int| 0 <= i < reqs.len() ==> (#[trigger] reqs[i]).1 > 0 && reqs[i].0 >= 0,
    ensures
        steps(v, reqs).bytes_allocated() >= v.bytes_allocated(),
{
    lemma_steps_all(v, reqs);
    lemma_requests_grow(v, reqs, reqs.len() as int);
}

/// The bytes in use after the first `k` requests are at least those before.
proof fn lemma_requests_grow(v: ArenaView, reqs: Seq<(int, int)>, k: int)
    requires
        steps_wf(v, reqs),
        forall|i: int| 0 <= i < reqs.len() ==> (#[trigger] reqs[i]).1 > 0 && reqs[i].0 >= 0,
        0 <= k <= reqs.len(),
    ensures
        steps(v, reqs.take(k)).bytes_allocated() >= v.bytes_allocated(),
    decreases k,
{
    if k == 0 {
        assert(reqs.take(0) =~= Seq::<(int, int)>::empty());
    } else {
        lemma_requests_grow(v, reqs, k - 1);
        lemma_steps_unfold(v, reqs, k - 1);
        let u = steps(v, reqs.take(k - 1));
        assert(u.wf());
        assert(reqs[k - 1].1 > 0 && reqs[k - 1].0 >= 0);
        lemma_step_bytes_grow(u, reqs[k - 1].0, reqs[k - 1].1);
    }
}

/// Requests act on an arena independently of its transaction depth, and
/// leave the depth as it was.
proof fn lemma_steps_depth(v: ArenaView, d: int, reqs: Seq<(int, int)>)
    requires
        d >= 0,
    ensures
        steps(v.with_depth(d), reqs) == steps(v, reqs).with_depth(d),
        steps(v, reqs).txn_depth == v.txn_depth,
    decreases reqs.len(),
{
    if reqs.len() > 0 {
        lemma_steps_depth(v, d, reqs.drop_last());
        let u = steps(v, reqs.drop_last());
        let (size, align) = reqs.last();
        assert(step(u.with_depth(d), size, align) == step(u, size, align).with_depth(d));
    }
}

/// Committing a transaction after any allocation requests made in it leaves
/// exactly the arena those requests made, back at the depth it had before
/// the transaction opened.
pub proof fn law_commit_after_requests<'a>(v: ArenaView, t: &Transaction<'a>, reqs: Seq<(int, int)>)
    requires
        t.is_open(),
        t.arena_view() == steps(v.with_depth(v.txn_depth as int + 1), reqs),
    ensures
        t.committed_view() == steps(v, reqs),
        t.committed_view().bytes_allocated() == steps(v, reqs).bytes_allocated(),
        t.committed_view().txn_depth == v.txn_depth,
{
    lemma_steps_depth(v, v.txn_depth as int + 1, reqs);
    let w = steps(v, reqs);
    assert(w.with_depth(v.txn_depth as int + 1).with_depth(v.txn_depth as int) == w.with_depth(v.txn_depth as int));
    assert(w.with_depth(v.txn_depth as int) == w);
}

/// Reset leaves nothing in use and keeps every block and the bytes
/// reserved; it is the rewind to the start of the first block.
pub proof fn law_reset(v: ArenaView)
    requires
        v.wf(),
    ensures
        v.reset_view().wf(),
        v.reset_view().bytes_allocated() == 0,
        v.reset_view().bytes_reserved() == v.bytes_reserved(),
        v.reset_view().blocks.len() == v.blocks.len(),
        v.keeps_blocks(v.reset_view()),
        v.reset_view() == v.rewound(0, 0),
{
    crate::lemmas::lemma_reset(v);
    lemma_keeps_blocks(v, 0, 1, 0, 0);
    let a = v.reset_view().blocks;
    let b = v.rewound(0, 0).blocks;
    assert forall|k: int| 0 <= k < a.len() implies a[k] == b[k] by {
        if k > v.current {
            assert(v.blocks[k].offset == 0);
        }
    }
    assert(a =~= b);
}

/// No operation gives blocks back: an arena that keeps the blocks of another
/// has at least as many blocks and reserves at least as many bytes.
pub proof fn law_reserved_never_shrinks(v: ArenaView, w: ArenaView)
    requires
        v.wf(),
        v.keeps_blocks(w),
    ensures
        w.blocks.len() >= v.blocks.len(),
        w.bytes_reserved() >= v.bytes_reserved(),
{
    let n = v.blocks.len() as int;
    lemma_reserved_prefix_eq(v.blocks, w.blocks, n);
    lemma_reserved_monotone(w.blocks, n, w.blocks.len() as int);
}

/// Rolling a transaction back returns the bytes in use to what they were
/// when it opened, keeps every block and the bytes reserved, and closes one
/// level of nesting.
pub proof fn law_rollback_restores<'a>(t: &Transaction<'a>)
    requires
        t.wf(),
        t.arena_view().valid_checkpoint(t.checkpoint),
    ensures
        t.rolled_back_view().wf(),
        t.rolled_back_view().bytes_allocated() == t.checkpoint.bytes_allocated,
        t.rolled_back_view().bytes_reserved() == t.arena_view().bytes_reserved(),
        t.rolled_back_view().blocks.len() == t.arena_view().blocks.len(),
        t.arena_view().keeps_blocks(t.rolled_back_view()),
        t.arena_view().txn_depth > 0 ==> t.rolled_back_view().txn_depth == t.arena_view().txn_depth - 1,
{
    (*t.arena->0).lemma_view_wf();
    law_rewind_restores(t.arena_view(), t.checkpoint, t.checkpoint);
}

/// Committing a transaction keeps every allocation and block as they are and
/// closes one level of nesting.
pub proof fn law_commit_keeps<'a>(t: &Transaction<'a>)
    requires
        t.is_open(),
    ensures
        t.committed_view().blocks == t.arena_view().blocks,
        t.committed_view().current == t.arena_view().current,
        t.committed_view().bytes_allocated() == t.arena_view().bytes_allocated(),
        t.committed_view().bytes_reserved() == t.arena_view().bytes_reserved(),
        t.arena_view().txn_depth > 0 ==> t.committed_view().txn_depth == t.arena_view().txn_depth - 1,
{
}

/// A transaction rolled back right after it opened leaves the arena exactly
/// as it found it.
pub proof fn law_open_then_rollback<'a>(v: ArenaView, t: &Transaction<'a>)
    requires
        v.wf(),
        t.wf(),
        t.arena_view() == v.with_depth(v.txn_depth as int + 1),
        t.checkpoint.block_idx == v.current,
        t.checkpoint.offset == v.current_block().offset,
        t.checkpoint.bytes_allocated == v.bytes_allocated(),
    ensures
        t.rolled_back_view() == v,
{
    let u = v.with_depth(v.txn_depth as int + 1);
    (*t.arena->0).lemma_view_wf();
    law_checkpoint_valid(u, t.checkpoint);
}

/// A block opened for a request holds it whatever the padding, is at least
/// twice the alignment, and is no larger than the largest of the size cap,
/// the request's worst case and twice the alignment; the growth policy never
/// asks for more than the size cap.
pub proof fn law_block_sizing(next_size: int, size: int, align: int, capacity: int)
    requires
        0 <= next_size,
        0 <= size,
        0 < align,
        0 < capacity,
    ensures
        new_block_capacity(next_size, size, align) >= worst_case(size, align),
        new_block_capacity(next_size, size, align) >= 2 * align,
        new_block_capacity(next_size, size, align) <= max_int(
            max_int(MAX_BLOCK_SIZE as int, worst_case(size, align)),
            2 * align,
        ),
        grown_block_size(capacity) <= MAX_BLOCK_SIZE,
        grown_block_size(capacity) >= capacity || grown_block_size(capacity) == MAX_BLOCK_SIZE,
{
}

/// Popping right after a push gives back the pushed element and the elements
/// as they were before the push.
pub proof fn law_push_then_pop<T>(items: Seq<T>, x: T)
    ensures
        items.push(x).len() > 0,
        items.push(x).last() == x,
        items.push(x).drop_last() == items,
{
    assert(items.push(x).drop_last() =~= items);
}

/// Each push adds one element; a vector whose elements fit its capacity
/// keeps them fitting, growing to four elements first and doubling after.
pub proof fn law_pushes<T>(s: VecState, k: nat)
    requires
        s.len <= s.cap,
    ensures
        push_state::<T>(s).len == s.len + 1,
        push_state::<T>(s).cap == (if s.len < s.cap {
            s.cap as int
        } else if s.cap == 0 {
            4int
        } else {
            2 * (s.cap as int)
        }),
        push_state::<T>(s).len <= push_state::<T>(s).cap,
        after_pushes::<T>(s, k).len == s.len + k,
        after_pushes::<T>(s, k).len <= after_pushes::<T>(s, k).cap,
    decreases k,
{
    if k > 0 {
        law_pushes::<T>(push_state::<T>(s), (k - 1) as nat);
    }
}

/// A budget admits `additional` more bytes exactly when the bytes the
/// transaction has used plus `additional` (stopping at `usize::MAX`) stay
/// within its limit; without a limit every request is admitted.
pub proof fn law_budget_admits<'a>(t: &Transaction<'a>, additional: int)
    requires
        0 <= additional,
    ensures
        t.limit is None ==> t.within_budget(additional),
        t.limit is Some ==> (t.within_budget(additional) <==> (if t.used() + additional > usize::MAX {
            usize::MAX as int
        } else {
            t.used() + additional
        }) <= t.limit->0),
        t.limit is Some && t.used() + additional <= usize::MAX ==> (t.within_budget(additional) <==> t.used()
            + additional <= t.limit->0),
{
}

/// A push that finds the vector full takes room for four elements when it
/// had none, and for twice its capacity otherwise; storage is taken only
/// then, and for a sized element type it is that many elements' bytes.
pub proof fn law_push_doubles<T>(s: VecState)
    requires
        s.len == s.cap,
    ensures
        s.cap == 0 ==> push_state::<T>(s).cap == 4,
        s.cap > 0 ==> push_state::<T>(s).cap == 2 * s.cap,
        push_state::<T>(s).len == s.len + 1,
{
}

/// A block opened for a request is at least as large as the growth policy's
/// pending size, capped at [`MAX_BLOCK_SIZE`]; at least the request's worst
/// case and twice its alignment; and a power of two when none of these
/// exceeds the cap. After opening a block of `capacity` bytes the policy's
/// pending size is one and a half times it, capped.
pub proof fn law_block_growth(next_size: int, size: int, align: int, capacity: int)
    requires
        0 <= next_size <= usize::MAX,
        0 <= size,
        0 < align,
        0 <= capacity <= usize::MAX,
    ensures
        new_block_capacity(next_size, size, align) >= (if next_size < MAX_BLOCK_SIZE {
            next_size
        } else {
            MAX_BLOCK_SIZE as int
        }),
        new_block_capacity(next_size, size, align) >= size + align - 1,
        new_block_capacity(next_size, size, align) >= 2 * align,
        next_size <= MAX_BLOCK_SIZE && size + align - 1 <= MAX_BLOCK_SIZE && 2 * align <= MAX_BLOCK_SIZE
            ==> is_pow2(new_block_capacity(next_size, size, align)),
        grown_block_size(capacity) == (if capacity + capacity / 2 < MAX_BLOCK_SIZE {
            capacity + capacity / 2
        } else {
            MAX_BLOCK_SIZE as int
        }),
{
    let worst = size + align - 1;
    let wanted = max_int(max_int(next_size, worst), 2 * align);
    crate::layout::lemma_next_pow2_from(wanted, 1);
    reveal_with_fuel(is_pow2, 1);
    assert(is_pow2(1));
    assert(crate::layout::next_pow2(wanted) >= wanted);
    if next_size <= MAX_BLOCK_SIZE && worst <= MAX_BLOCK_SIZE && 2 * align <= MAX_BLOCK_SIZE {
        lemma_next_pow2_le_max(wanted);
    }
}

/// Rounding up to a power of two stays within [`MAX_BLOCK_SIZE`] when the
/// value does.
proof fn lemma_next_pow2_le_max(x: int)
    requires
        x <= MAX_BLOCK_SIZE,
    ensures
        crate::layout::next_pow2(x) <= MAX_BLOCK_SIZE,
{
    assert(is_pow2(MAX_BLOCK_SIZE as int)) by {
        reveal_with_fuel(is_pow2, 26);
    }
    assert(is_pow2(1)) by {
        reveal_with_fuel(is_pow2, 2);
    }
    lemma_next_pow2_from_le(x, 1, MAX_BLOCK_SIZE as int);
}

/// Doubling a power of two `p` until it reaches `x` stays at or below any
/// power of two `m` at or above both.
proof fn lemma_next_pow2_from_le(x: int, p: int, m: int)
    requires
        is_pow2(p),
        is_pow2(m),
        p <= m,
        x <= m,
    ensures
        crate::layout::next_pow2_from(x, p) <= m,
    decreases m - p,
{
    crate::layout::lemma_pow2_ge(p);
    if p < x {
        crate::layout::lemma_pow2_double(p);
        if 2 * p > m {
            lemma_pow2_between(p, m);
        }
        lemma_next_pow2_from_le(x, 2 * p, m);
    }
}

/// No power of two lies strictly between `p` and `2 * p`.
proof fn lemma_pow2_between(p: int, m: int)
    requires
        is_pow2(p),
        is_pow2(m),
        p < m,
    ensures
        2 * p <= m,
    decreases m,
{
    crate::layout::lemma_pow2_ge(p);
    crate::layout::lemma_pow2_ge(m);
    if m > 1 {
        assert(m % 2 == 0 && is_pow2(m / 2));
        if p == 1 {
        } else {
            assert(p % 2 == 0 && is_pow2(p / 2));
            lemma_pow2_between(p / 2, m / 2);
        }
    }
}

/// When the current block cannot take a request aligned at most at the
/// block alignment, the first block after the current one that is aligned
/// enough and has room serves it; a new block is opened only when no block
/// after the current one takes it.
pub proof fn law_retained_first_fit(v: ArenaView, size: int, align: int)
    requires
        v.wf(),
        0 < align <= crate::block::MIN_BLOCK_ALIGN,
        !v.fits_current(size, align),
    ensures
        v.needs_new_block(size, align) <==> forall|j: int|
            v.current < j < v.blocks.len() ==> !((#[trigger] v.blocks[j]).align >= align && block_fits(
                v.blocks[j],
                size,
                align,
            )),
        !v.needs_new_block(size, align) ==> {
            let t = v.target(size, align);
            &&& v.current < t < v.blocks.len()
            &&& v.blocks[t].align >= align
            &&& block_fits(v.blocks[t], size, align)
            &&& forall|k: int| v.current < k < t ==> !((#[trigger] v.blocks[k]).align >= align && block_fits(
                v.blocks[k],
                size,
                align,
            ))
        },
{
    crate::lemmas::lemma_first_fit_range(v.blocks, v.current as int + 1, size, align);
    let i = v.retained_fit(size, align);
    if i < v.blocks.len() {
        assert(v.blocks[i].align >= align && block_fits(v.blocks[i], size, align));
    }
}

/// A fresh arena made for `n` bytes has one block of `n` bytes, but at least
/// [`MIN_BLOCK_SIZE`](crate::model::MIN_BLOCK_SIZE): that is all it reserves,
/// nothing is in use, and the growth policy's pending size is twice the
/// block, capped at [`MAX_BLOCK_SIZE`].
pub proof fn law_fresh_arena(n: int)
    requires
        0 <= n <= usize::MAX,
    ensures
        ({
            let v = crate::arena::Arena::initial_view(n);
            let size = if n > crate::model::MIN_BLOCK_SIZE { n } else { crate::model::MIN_BLOCK_SIZE as int };
            &&& v.blocks.len() == 1
            &&& v.blocks[0].capacity == size
            &&& v.bytes_reserved() == size
            &&& v.bytes_allocated() == 0
            &&& v.current == 0
            &&& v.txn_depth == 0
            &&& v.next_block_size == (if 2 * size < MAX_BLOCK_SIZE { 2 * size } else { MAX_BLOCK_SIZE as int })
        }),
{
    let v = crate::arena::Arena::initial_view(n);
    assert(crate::model::reserved_before(v.blocks, 0) == 0);
    assert(used_before(v.blocks, 0) == 0);
}

/// Where a served request lands: a request aligned above the block
/// alignment always gets a new block; one the current block can take is
/// bumped there; when served from an existing block, the address is the
/// first address at or after that block's free space that is aligned as
/// asked; a new block is placed at the first address at or after the end of
/// the last block that is aligned to the request and to the block alignment,
/// and the request starts at its base.
pub proof fn law_alloc_placement(v: ArenaView, size: int, align: int)
    requires
        v.wf(),
        is_pow2(align),
        size > 0,
        v.serves(size, align),
    ensures
        align > crate::block::MIN_BLOCK_ALIGN ==> v.needs_new_block(size, align),
        align <= crate::block::MIN_BLOCK_ALIGN && block_fits(v.current_block(), size, align)
            ==> !v.needs_new_block(size, align) && v.target(size, align) == v.current,
        !v.needs_new_block(size, align) ==> {
            let b = v.blocks[v.target(size, align)];
            let a = v.alloc_addr(size, align);
            &&& b.base + b.offset <= a < b.base + b.offset + align
            &&& a % align == 0
            &&& a + size <= b.base + b.capacity
        },
        v.needs_new_block(size, align) ==> {
            let a = v.alloc_addr(size, align);
            let m = if align > crate::block::MIN_BLOCK_ALIGN { align } else { crate::block::MIN_BLOCK_ALIGN as int };
            let nb = v.after_alloc(size, align).blocks[v.blocks.len() as int];
            &&& a == nb.base
            &&& v.next_base <= a < v.next_base + m
            &&& a % m == 0
            &&& a % align == 0
        },
{
    crate::layout::lemma_pow2_ge(align);
    if !v.needs_new_block(size, align) {
        let t = v.target(size, align);
        crate::lemmas::lemma_first_fit_range(v.blocks, v.current as int + 1, size, align);
        let b = v.blocks[t];
        lemma_round_up(b.base + b.offset, align);
    } else {
        let m = crate::model::new_block_align(align);
        assert(is_pow2(crate::block::MIN_BLOCK_ALIGN as int)) by {
            reveal_with_fuel(is_pow2, 8);
        }
        lemma_round_up(v.next_base as int, m);
        let base = v.new_base(align);
        crate::layout::lemma_pow2_multiple(base, m, align);
        lemma_round_up(base, align);
    }
}

/// The bytes a transaction has used are the bytes its arena has in use
/// beyond those it had when the transaction opened, and none when it has
/// fewer.
pub proof fn law_used_since_open<'a>(t: &Transaction<'a>)
    ensures
        t.used() == (if t.arena_view().bytes_allocated() >= t.bytes_at_open {
            t.arena_view().bytes_allocated() - t.bytes_at_open
        } else {
            0
        }),
{
}

/// Taking storage for `new_cap` elements of a sized element type allocates
/// exactly `new_cap` times the element size at the element alignment and
/// moves the storage there, keeping the elements; a zero-sized element type
/// takes no storage.
pub proof fn law_resize_storage<T>(s: VecState, new_cap: int)
    requires
        new_cap >= 0,
    ensures
        crate::arena_vec::resized::<T>(s, new_cap).cap == new_cap,
        crate::arena_vec::resized::<T>(s, new_cap).len == s.len,
        crate::typed::type_size::<T>() == 0 ==> crate::arena_vec::resized::<T>(s, new_cap).arena == s.arena,
        crate::typed::type_size::<T>() > 0 ==> {
            &&& crate::arena_vec::resized::<T>(s, new_cap).arena == s.arena.after_alloc(
                new_cap * crate::typed::type_size::<T>(),
                crate::typed::type_align::<T>(),
            )
            &&& crate::arena_vec::resized::<T>(s, new_cap).addr == s.arena.alloc_addr(
                new_cap * crate::typed::type_size::<T>(),
                crate::typed::type_align::<T>(),
            )
        },
{
}

} // verus!
