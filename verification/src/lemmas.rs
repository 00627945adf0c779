//! Facts about the sums over blocks that the arena's counters cache.
use vstd::prelude::*;

use crate::block::{block_fits, bumped, Block, MIN_BLOCK_ALIGN};
use crate::model::{first_fit, ArenaView, used_before, reserved_before};

verus! {

/// Two block sequences with the same fill on their first `n` blocks have the
/// same bytes in use there.
pub proof fn lemma_used_prefix_eq(b1: Seq<Block>, b2: Seq<Block>, n: int)
    requires
        0 <= n <= b1.len(),
        n <= b2.len(),
        forall|j: int| 0 <= j < n ==> (#[trigger] b1[j]).offset == b2[j].offset,
    ensures
        used_before(b1, n) == used_before(b2, n),
    decreases n,
{
    if n > 0 {
        lemma_used_prefix_eq(b1, b2, n - 1);
    }
}

/// Two block sequences with the same capacities on their first `n` blocks
/// reserve the same bytes there.
pub proof fn lemma_reserved_prefix_eq(b1: Seq<Block>, b2: Seq<Block>, n: int)
    requires
        0 <= n <= b1.len(),
        n <= b2.len(),
        forall|j: int| 0 <= j < n ==> (#[trigger] b1[j]).capacity == b2[j].capacity,
    ensures
        reserved_before(b1, n) == reserved_before(b2, n),
    decreases n,
{
    if n > 0 {
        lemma_reserved_prefix_eq(b1, b2, n - 1);
    }
}

/// Empty blocks add nothing to the bytes in use.
pub proof fn lemma_used_zero_range(bs: Seq<Block>, lo: int, hi: int)
    requires
        0 <= lo <= hi <= bs.len(),
        forall|k: int| lo <= k < hi ==> (#[trigger] bs[k]).offset == 0,
    ensures
        used_before(bs, hi) == used_before(bs, lo),
    decreases hi - lo,
{
    if hi > lo {
        lemma_used_zero_range(bs, lo, hi - 1);
    }
}

/// The bytes in use never exceed the bytes reserved.
pub proof fn lemma_used_le_reserved(bs: Seq<Block>, n: int)
    requires
        0 <= n <= bs.len(),
        forall|j: int| 0 <= j < n ==> (#[trigger] bs[j]).offset <= bs[j].capacity,
    ensures
        0 <= used_before(bs, n) <= reserved_before(bs, n),
    decreases n,
{
    if n > 0 {
        lemma_used_le_reserved(bs, n - 1);
    }
}

/// The bytes in use only grow with the number of blocks counted.
pub proof fn lemma_used_monotone(bs: Seq<Block>, m: int, n: int)
    requires
        0 <= m <= n <= bs.len(),
    ensures
        used_before(bs, m) <= used_before(bs, n),
    decreases n - m,
{
    if m < n {
        lemma_used_monotone(bs, m, n - 1);
    }
}

/// The bytes reserved only grow with the number of blocks counted.
pub proof fn lemma_reserved_monotone(bs: Seq<Block>, m: int, n: int)
    requires
        0 <= m <= n <= bs.len(),
    ensures
        reserved_before(bs, m) <= reserved_before(bs, n),
    decreases n - m,
{
    if m < n {
        lemma_reserved_monotone(bs, m, n - 1);
    }
}

/// Blocks laid out in increasing, disjoint ranges reserve no more bytes than
/// the span from the first base to the end of the last one counted.
pub proof fn lemma_reserved_span(bs: Seq<Block>, n: int)
    requires
        1 <= n <= bs.len(),
        forall|j: int| 0 <= j < bs.len() - 1 ==> #[trigger] bs[j].base + bs[j].capacity <= bs[j + 1].base,
    ensures
        reserved_before(bs, n) + bs[0].base <= bs[n - 1].base + bs[n - 1].capacity,
    decreases n,
{
    assert(reserved_before(bs, 0) == 0);
    if n > 1 {
        lemma_reserved_span(bs, n - 1);
        assert(bs[n - 2].base + bs[n - 2].capacity <= bs[n - 2 + 1].base);
    }
}

/// In a well-formed model, bytes in use never exceed bytes reserved, which
/// fit in the address space.
pub proof fn lemma_view_counters(v: ArenaView)
    requires
        v.wf(),
    ensures
        0 <= v.bytes_allocated() <= v.bytes_reserved(),
        v.bytes_reserved() <= usize::MAX,
        v.bytes_allocated() == used_before(v.blocks, v.current as int) + v.current_block().offset,
        used_before(v.blocks, v.current as int) <= v.bytes_allocated(),
{
    let bs = v.blocks;
    let n = bs.len() as int;
    lemma_used_le_reserved(bs, n);
    lemma_used_monotone(bs, v.current as int + 1, n);
    lemma_used_zero_range(bs, v.current as int + 1, n);
    lemma_reserved_span(bs, n);
    assert(bs[n - 1] == bs.last());
    lemma_used_le_reserved(bs, v.current as int + 1);
    lemma_used_le_reserved(bs, v.current as int);
    assert(bs[0].wf());
}

/// The first-fit search from `from` stops at `i` when `i` takes the request
/// and no block in between does.
pub proof fn lemma_first_fit_found(bs: Seq<Block>, from: int, i: int, size: int, align: int)
    requires
        0 <= from <= i < bs.len(),
        forall|k: int| from <= k < i ==> !((#[trigger] bs[k]).align >= align && block_fits(bs[k], size, align)),
        bs[i].align >= align && block_fits(bs[i], size, align),
    ensures
        first_fit(bs, from, size, align) == i,
    decreases i - from,
{
    if from < i {
        lemma_first_fit_found(bs, from + 1, i, size, align);
    }
}

/// The first-fit search from `from` finds nothing when no block from there on
/// takes the request.
pub proof fn lemma_first_fit_none(bs: Seq<Block>, from: int, size: int, align: int)
    requires
        0 <= from <= bs.len(),
        forall|k: int| from <= k < bs.len() ==> !((#[trigger] bs[k]).align >= align && block_fits(bs[k], size, align)),
    ensures
        first_fit(bs, from, size, align) == bs.len(),
    decreases bs.len() - from,
{
    if from < bs.len() {
        lemma_first_fit_none(bs, from + 1, size, align);
    }
}

/// What the first-fit search returns: an index from `from` on whose block
/// takes the request, or `bs.len()`.
pub proof fn lemma_first_fit_range(bs: Seq<Block>, from: int, size: int, align: int)
    requires
        0 <= from,
    ensures
        from <= first_fit(bs, from, size, align) <= bs.len() || (from > bs.len() && first_fit(bs, from, size, align) == bs.len()),
        first_fit(bs, from, size, align) < bs.len() ==> {
            let i = first_fit(bs, from, size, align);
            bs[i].align >= align && block_fits(bs[i], size, align)
        },
        forall|k: int| from <= k < first_fit(bs, from, size, align) && k < bs.len()
            ==> !((#[trigger] bs[k]).align >= align && block_fits(bs[k], size, align)),
    decreases bs.len() - from,
{
    if from < bs.len() {
        lemma_first_fit_range(bs, from + 1, size, align);
    }
}

/// Rolling back keeps the model invariant and the reserved bytes, and leaves
/// the bytes in use before the new current block as they were.
pub proof fn lemma_rewound(v: ArenaView, idx: int, offset: int)
    requires
        v.wf(),
        0 <= idx < v.blocks.len(),
        0 <= offset <= v.blocks[idx].capacity,
    ensures
        v.rewound(idx, offset).wf(),
        v.rewound(idx, offset).bytes_reserved() == v.bytes_reserved(),
        used_before(v.rewound(idx, offset).blocks, idx) == used_before(v.blocks, idx),
        v.rewound(idx, offset).bytes_allocated() == used_before(v.blocks, idx) + offset,
        forall|j: int| 0 <= j < v.blocks.len() ==> (#[trigger] v.rewound(idx, offset).blocks[j]).offset <= v.blocks[j].capacity,
{
    let w = v.rewound(idx, offset);
    let nb = w.blocks;
    let ob = v.blocks;
    assert forall|j: int| 0 <= j < nb.len() implies (#[trigger] nb[j]).wf() && nb[j].align >= MIN_BLOCK_ALIGN by {
        assert(ob[j].wf());
    }
    assert forall|j: int| 0 <= j < nb.len() - 1 implies #[trigger] nb[j].base + nb[j].capacity <= nb[j + 1].base by {
        assert(ob[j].base + ob[j].capacity <= ob[j + 1].base);
    }
    assert forall|j: int| idx < j < nb.len() implies (#[trigger] nb[j]).offset == 0 by {
        if j > v.current {
            assert(ob[j].offset == 0);
        }
    }
    assert(nb.last() == nb[nb.len() - 1]);
    assert(nb.last().base == ob.last().base && nb.last().capacity == ob.last().capacity);
    lemma_reserved_prefix_eq(ob, nb, nb.len() as int);
    lemma_used_prefix_eq(ob, nb, idx);
    assert forall|j: int| 0 <= j < v.blocks.len() implies (#[trigger] nb[j]).offset <= v.blocks[j].capacity by {
        assert(ob[j].wf());
    }
}

/// A reset keeps the model invariant and the reserved bytes, and leaves no
/// byte in use.
pub proof fn lemma_reset(v: ArenaView)
    requires
        v.wf(),
    ensures
        v.reset_view().wf(),
        v.reset_view().bytes_reserved() == v.bytes_reserved(),
        v.reset_view().bytes_allocated() == 0,
{
    let w = v.reset_view();
    let nb = w.blocks;
    let ob = v.blocks;
    assert forall|j: int| 0 <= j < nb.len() implies (#[trigger] nb[j]).wf() && nb[j].align >= MIN_BLOCK_ALIGN by {
        assert(ob[j].wf());
    }
    assert forall|j: int| 0 <= j < nb.len() - 1 implies #[trigger] nb[j].base + nb[j].capacity <= nb[j + 1].base by {
        assert(ob[j].base + ob[j].capacity <= ob[j + 1].base);
    }
    assert(nb.last() == nb[nb.len() - 1]);
    assert(nb.last().base == ob.last().base && nb.last().capacity == ob.last().capacity);
    lemma_reserved_prefix_eq(ob, nb, nb.len() as int);
    assert(used_before(nb, 0) == 0);
    assert(used_before(nb, 1) == 0);
}

/// Every arena operation keeps the blocks it had, at their place and size.
pub proof fn lemma_keeps_blocks(v: ArenaView, size: int, align: int, idx: int, offset: int)
    requires
        v.wf(),
    ensures
        v.keeps_blocks(v),
        v.keeps_blocks(v.after_alloc(size, align)),
        v.keeps_blocks(v.after_failed_alloc(size, align)),
        v.keeps_blocks(v.rewound(idx, offset)),
        v.keeps_blocks(v.reset_view()),
        forall|d: int| v.keeps_blocks(#[trigger] v.with_depth(d)),
{
    let w = v.after_alloc(size, align);
    if v.needs_new_block(size, align) {
        assert forall|j: int| 0 <= j < v.blocks.len() implies (#[trigger] w.blocks[j]).capacity == v.blocks[j].capacity
            && w.blocks[j].base == v.blocks[j].base by {
            assert(w.blocks[j] == v.blocks[j]);
        }
    } else {
        let t = v.target(size, align);
        lemma_first_fit_range(v.blocks, v.current as int + 1, size, align);
        assert(0 <= t < v.blocks.len());
        assert forall|j: int| 0 <= j < v.blocks.len() implies (#[trigger] w.blocks[j]).capacity == v.blocks[j].capacity
            && w.blocks[j].base == v.blocks[j].base by {
            if j == t {
                assert(w.blocks[j] == bumped(v.blocks[t], size, align));
            } else {
                assert(w.blocks[j] == v.blocks[j]);
            }
        }
    }
}

/// Every allocation, served or not, keeps the blocks the arena had.
pub proof fn lemma_keeps_all(v: ArenaView)
    requires
        v.wf(),
    ensures
        v.keeps_blocks(v),
        forall|size: int, align: int| v.keeps_blocks(#[trigger] v.after_alloc(size, align)),
        forall|size: int, align: int| v.keeps_blocks(#[trigger] v.after_failed_alloc(size, align)),
{
    lemma_keeps_blocks(v, 0, 1, 0, 0);
    assert forall|size: int, align: int| v.keeps_blocks(#[trigger] v.after_alloc(size, align)) by {
        lemma_keeps_blocks(v, size, align, 0, 0);
    }
    assert forall|size: int, align: int| v.keeps_blocks(#[trigger] v.after_failed_alloc(size, align)) by {
        lemma_keeps_blocks(v, size, align, 0, 0);
    }
}

} // verus!
