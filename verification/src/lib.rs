//! A bump-pointer arena allocator with checkpoints, rewind, reset,
//! transactions with byte budgets and nested savepoints, and an arena-backed
//! growable vector.
//!
//! The arena manages a private address space: blocks cover disjoint address
//! ranges, allocations are ranges inside blocks, and values handed out by the
//! typed allocation methods are carried by handles that record where the
//! arena placed them.
pub mod arena;
pub mod arena_vec;
pub mod block;
pub mod boxed;
pub mod laws;
pub mod layout;
pub mod lemmas;
pub mod model;
pub mod stats;
pub mod transaction;
pub mod typed;

pub use arena::Arena;
pub use arena_vec::{ArenaVec, ArenaVecIntoIter, TryReserveError};
pub use block::{Block, MIN_BLOCK_ALIGN};
pub use boxed::{ArenaBox, ArenaSlice, ArenaStr};
pub use layout::align_up;
pub use model::{CACHE_LINE_SIZE, DANGLING};
pub use stats::{ArenaStats, Checkpoint};
pub use transaction::{Transaction, TxnDiff, TxnStatus};
