//! A deterministic, resource-bounded task scheduler and bounded-batch queue
//! consumer.
//!
//! The crate models four cooperating pieces:
//!
//! - [`resource`]: append-only, deduplicated collections of opaque resource
//!   handles that must accompany an invocation;
//! - [`lookup`]: compaction of oversized handle sets into lookup tables with a
//!   warm-up delay, and the resolver that picks an inline or table-backed
//!   representation;
//! - [`triggers`] and [`scheduler`]: eligibility of scheduled tasks (cron,
//!   account-change, immediate), batch assembly, and bookkeeping after an
//!   execution attempt, including retry backoff and fatal auto-pause;
//! - [`crank`] and [`executor`]: a consumer that drains a growing event queue
//!   a bounded number of entries at a time, and a model of the external
//!   executor's observable commit state with idempotent resubmission.

use vstd::prelude::*;

pub mod crank;
pub mod executor;
pub mod lookup;
pub mod resource;
pub mod scheduler;
pub mod task;
pub mod triggers;

verus! {

/// Largest handle set that may accompany an invocation inline; anything
/// larger must be referenced through lookup tables.
pub const INLINE_LIMIT: usize = 16;

/// Fixed maximum membership of a single lookup table.
pub const TABLE_CAPACITY: usize = 256;

/// Scheduling epochs that must elapse after a table extension before the
/// table may be referenced by a batch.
pub const WARMUP_EPOCHS: u64 = 2;

/// Funding deducted from a task's balance for each committed execution.
pub const EXEC_FEE: u64 = 5000;

/// Cap on the exponential retry backoff counter.
pub const BACKOFF_LIMIT: u32 = 16;

/// Why a task was paused by the scheduler rather than by its authority.
#[derive(Clone, Copy, PartialEq, Eq, Structural, Debug)]
pub enum FatalReason {
    /// The task's authority no longer signs for it.
    AuthorityRevoked,
    /// An operation in the task's list cannot be executed as written.
    MalformedOperation,
    /// The task's balance cannot fund another execution.
    BalanceExhausted,
}

/// The error taxonomy shared by the whole engine.
#[derive(Clone, Copy, PartialEq, Eq, Structural, Debug)]
pub enum SchedulerError {
    /// A table's member cap (or the task's backing capacity) is exhausted;
    /// the caller must allocate an additional table.
    CapacityExceeded,
    /// A required table was extended too recently; retry after the warm-up.
    TableNotReady,
    /// A transient executor or resource failure; re-poll later.
    Retryable,
    /// The task must be auto-paused and the reason surfaced to its authority.
    Fatal(FatalReason),
    /// Eligibility was computed against state since superseded; re-evaluate
    /// before retrying, never resubmit blindly.
    StaleTrigger,
}

} // verus!
