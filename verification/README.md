# fastarena

A bump-pointer arena allocator with checkpoints, rewind, reset, RAII
transactions with byte budgets and nested savepoints, and an arena-backed
growable vector, verified with Verus.

## Model

The arena manages a private address space. Blocks cover disjoint,
increasing address ranges; an allocation is a range inside one block. The
state of an arena is described by `ArenaView` (`src/model.rs`): its blocks
with their fill, the current block, where the next block goes, the growth
policy's next block size and the transaction depth. Every operation is
specified as a function on that view (`after_alloc`, `after_failed_alloc`,
`rewound`, `reset_view`, `with_depth`), and the executable code is proved to
do exactly that.

Typed allocations return handles (`ArenaBox`, `ArenaSlice`, `ArenaStr`) that
hold the value and record the address the arena placed it at. As with values
placed in arena memory, a handle never runs the value's destructor; taking
the value out (`into_inner`, `into_vec`) hands it back to ordinary ownership.

Block sizes respect the limit of a memory layout: a new block whose size,
rounded up to its alignment, exceeds `isize::MAX` is refused.

## What is not offered

- The opt-in destructor tracking (running destructors of arena values in
  last-in, first-out order on `reset` and `rewind`) is not offered: values
  placed in the arena are never dropped by it.
- The arena's block list is a `Vec<Block>`; there is no inline-first small
  vector.
- Allocating a value is `alloc_value` (on `Arena` and on `Transaction`).
- `with_transaction_infallible` does not catch a panic of its closure: the
  transaction then rolls back on unwinding. `app/lib.rs` has a runner that
  commits through the panic and raises it again.
- A checkpoint carries no identity of its arena: `rewind` requires the
  checkpoint to be consistent with the arena (at or before its current block,
  with a matching byte count) rather than detecting one taken elsewhere.

## Layout

- `src/block.rs` — a single block and bumping inside it.
- `src/layout.rs` — alignment and power-of-two arithmetic.
- `src/model.rs` — the abstract arena state and the operations on it.
- `src/lemmas.rs` — proofs about sums of block fills and capacities.
- `src/arena.rs` — the arena: allocation paths, checkpoint, rewind, reset.
- `src/typed.rs` — typed allocation of values, slices and strings.
- `src/boxed.rs` — the handles returned by typed allocation.
- `src/transaction.rs` — transactions, savepoints and budgets.
- `src/arena_vec.rs` — the arena-backed vector.
- `src/laws.rs` — properties across operations: checkpoints stay valid,
  rewind restores, reset is a rewind to the start, reserved memory never
  shrinks, allocations are aligned and never overlap (also across any
  sequence of requests), rewind restores after any sequence of requests,
  transactions roll back and commit as stated, vector growth.
- `app/lib.rs` — formatting, the floating-point utilization ratio, and a
  transaction runner that commits through a panic.
