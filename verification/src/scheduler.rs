//! The scheduler's per-task poll cycle: eligibility, batch assembly, and
//! the bookkeeping applied after the executor reports an outcome. The
//! executor itself is an external collaborator; the caller performs the
//! submission and hands the outcome back.

use vstd::prelude::*;

use crate::lookup::{chosen_ids, cold_in_prefix, coverable, resolve, Resolution};
use crate::task::{copy_operations, ops_equiv, Operation, ScheduledTask};
use crate::triggers::{advance_cron, cursor_after_fire, CronSchedule, Trigger};
use crate::{FatalReason, SchedulerError, BACKOFF_LIMIT, EXEC_FEE, INLINE_LIMIT};

verus! {

/// Everything one poll may read: the clock, the scheduling epoch, and the
/// chain value observed at an account trigger's watched location.
#[derive(Clone, Copy, PartialEq, Eq, Structural, Debug)]
pub struct PollContext {
    pub now: u64,
    pub epoch: u64,
    pub observed: u64,
}

/// The assembled batch handed to the executor for atomic application.
#[derive(PartialEq, Eq, Debug)]
pub struct Batch {
    pub task_key: u64,
    /// The task's execution count at assembly; resubmitting after a crash
    /// reuses it, so the executor can reject the duplicate.
    pub seq: u64,
    pub operations: Vec<Operation>,
    pub resolution: Resolution,
}

/// What the executor reported for a submitted batch.
#[derive(Clone, Copy, PartialEq, Eq, Structural, Debug)]
pub enum ExecOutcome {
    Committed,
    /// The same batch was already committed earlier (a post-crash
    /// resubmission); bookkeeping advances as for a fresh commit.
    AlreadyCommitted,
    /// Transient failure; the task stays live and is retried after a
    /// backoff delay.
    RejectedRetryable,
    /// Permanent failure; the task is auto-paused with the reason kept.
    RejectedFatal(FatalReason),
}

/// The trigger condition alone, ignoring pause and backoff.
pub open spec fn trigger_ready(task: ScheduledTask, ctx: PollContext) -> bool {
    match task.trigger {
        Trigger::Cron { .. } => task.cron_cursor <= ctx.now,
        Trigger::Account { .. } => task.snapshot != Some(ctx.observed),
        Trigger::Immediate => true,
    }
}

/// A task is due when it is not paused, its backoff delay has elapsed,
/// and its trigger condition holds.
pub open spec fn due_spec(task: ScheduledTask, ctx: PollContext) -> bool {
    &&& !task.paused
    &&& ctx.now >= task.retry_at
    &&& trigger_ready(task, ctx)
}

/// Law: a paused task is due in no context at all — after a fatal
/// failure (or an authority pause) nothing is assembled or submitted for
/// it until an explicit resume clears the pause.
pub proof fn lemma_paused_not_due(task: ScheduledTask, ctx: PollContext)
    requires
        task.paused,
    ensures
        !due_spec(task, ctx),
{
}

/// Classifies a rejected outcome for reporting to the task's authority:
/// a transient rejection is `Retryable`, a permanent one keeps its fatal
/// reason; a commit reports nothing. Whether the task was paused is
/// decided by `complete`, never here.
pub fn outcome_error(outcome: ExecOutcome) -> (r: Option<SchedulerError>)
    ensures
        r == (match outcome {
            ExecOutcome::Committed => Option::<SchedulerError>::None,
            ExecOutcome::AlreadyCommitted => Option::<SchedulerError>::None,
            ExecOutcome::RejectedRetryable => Some(SchedulerError::Retryable),
            ExecOutcome::RejectedFatal(reason) => Some(SchedulerError::Fatal(reason)),
        }),
{
    match outcome {
        ExecOutcome::Committed => None,
        ExecOutcome::AlreadyCommitted => None,
        ExecOutcome::RejectedRetryable => Some(SchedulerError::Retryable),
        ExecOutcome::RejectedFatal(reason) => Some(SchedulerError::Fatal(reason)),
    }
}

/// Law: a non-skippable cron task never collapses missed ticks. While a
/// further missed tick remains, the bookkeeping a commit applies — the
/// cursor moved one period past the consumed tick, the task live, the
/// backoff reset to the poll instant — leaves the task due again in the
/// very same context, so each missed tick fires in order.
pub proof fn lemma_catch_up_stays_due(
    task: ScheduledTask,
    updated: ScheduledTask,
    ctx: PollContext,
    s: CronSchedule,
)
    requires
        task.trigger == (Trigger::Cron { schedule: s, skippable: false }),
        due_spec(task, ctx),
        task.cron_cursor + s.period <= ctx.now,
        updated.trigger == task.trigger,
        !updated.paused,
        updated.retry_at == ctx.now,
        updated.cron_cursor as int == cursor_after_fire(s, task.cron_cursor as int, false,
            ctx.now as int),
    ensures
        due_spec(updated, ctx),
{
}

/// Law: a skippable cron task collapses all missed ticks into one fire.
/// After the bookkeeping of a single commit its trigger condition no
/// longer holds at the same instant: exactly one execution occurs, for
/// the most recent missed tick.
pub proof fn lemma_skip_exhausts_eligibility(
    task: ScheduledTask,
    updated: ScheduledTask,
    ctx: PollContext,
    s: CronSchedule,
)
    requires
        task.trigger == (Trigger::Cron { schedule: s, skippable: true }),
        s.wf(),
        s.is_tick(task.cron_cursor as int),
        due_spec(task, ctx),
        updated.trigger == task.trigger,
        updated.cron_cursor as int == cursor_after_fire(s, task.cron_cursor as int, true,
            ctx.now as int),
    ensures
        !trigger_ready(updated, ctx),
{
    crate::triggers::lemma_cron_skip(s, task.cron_cursor as int, ctx.now as int);
}

/// Evaluates the task's trigger against the context.
pub fn is_eligible(task: &ScheduledTask, ctx: &PollContext) -> (r: bool)
    ensures
        r == due_spec(*task, *ctx),
{
    if task.paused {
        return false;
    }
    if ctx.now < task.retry_at {
        return false;
    }
    match task.trigger {
        Trigger::Cron { .. } => task.cron_cursor <= ctx.now,
        Trigger::Account { .. } => match task.snapshot {
            None => true,
            Some(v) => v != ctx.observed,
        },
        Trigger::Immediate => true,
    }
}

/// Assembles the operation batch for a due task: checks funding, resolves
/// the task's handle set against its backing tables, and stamps the batch
/// with the task's key and execution sequence number.
pub fn assemble(task: &ScheduledTask, ctx: &PollContext) -> (r: Result<Batch, SchedulerError>)
    requires
        task.wf(),
    ensures
        !due_spec(*task, *ctx)
            ==> r == Err::<Batch, SchedulerError>(SchedulerError::StaleTrigger),
        due_spec(*task, *ctx) && task.balance < EXEC_FEE
            ==> r == Err::<Batch, SchedulerError>(
                SchedulerError::Fatal(FatalReason::BalanceExhausted)),
        due_spec(*task, *ctx) && task.balance >= EXEC_FEE ==> {
            &&& ((r matches Ok(_)) <==> (task.resources@.len() <= INLINE_LIMIT
                || (coverable(task.resources@, task.lookup_tables@)
                    && !cold_in_prefix(task.resources@, task.lookup_tables@,
                        task.lookup_tables@.len() as int, ctx.epoch))))
            &&& (r matches Ok(b) ==> {
                &&& b.task_key == task.task_key
                &&& b.seq == task.exec_count
                &&& ops_equiv(b.operations@, task.operations@)
                &&& (task.resources@.len() <= INLINE_LIMIT
                    ==> (b.resolution matches Resolution::Inline(v) && v@ == task.resources@))
                &&& (task.resources@.len() > INLINE_LIMIT
                    ==> (b.resolution matches Resolution::TableRefs(ids)
                        && ids@ == chosen_ids(task.resources@, task.lookup_tables@,
                            task.lookup_tables@.len() as int)))
            })
            &&& (r == Err::<Batch, SchedulerError>(SchedulerError::CapacityExceeded)
                <==> task.resources@.len() > INLINE_LIMIT
                    && !coverable(task.resources@, task.lookup_tables@))
            &&& (r == Err::<Batch, SchedulerError>(SchedulerError::TableNotReady)
                <==> task.resources@.len() > INLINE_LIMIT
                    && coverable(task.resources@, task.lookup_tables@)
                    && cold_in_prefix(task.resources@, task.lookup_tables@,
                        task.lookup_tables@.len() as int, ctx.epoch))
        },
{
    if !is_eligible(task, ctx) {
        return Err(SchedulerError::StaleTrigger);
    }
    if task.balance < EXEC_FEE {
        return Err(SchedulerError::Fatal(FatalReason::BalanceExhausted));
    }
    match resolve(&task.resources, &task.lookup_tables, ctx.epoch) {
        Ok(resolution) => Ok(Batch {
            task_key: task.task_key,
            seq: task.exec_count,
            operations: copy_operations(&task.operations),
            resolution,
        }),
        Err(e) => Err(e),
    }
}

/// The bookkeeping fits in machine integers: a cron task's next tick must
/// fit in a timestamp, and the execution counter must not be exhausted.
pub open spec fn bookkeeping_fits(task: ScheduledTask, ctx: PollContext) -> bool {
    &&& (match task.trigger {
        Trigger::Cron { schedule, .. } => ctx.now <= u64::MAX - schedule.period,
        _ => true,
    })
    &&& task.exec_count < u64::MAX
}

/// The retry delay after `b` consecutive retryable failures.
pub open spec fn backoff_delay(b: u32) -> u64 {
    1u64 << (b as u64)
}

/// Records the executor's outcome for a batch assembled in context `ctx`.
///
/// On a commit (fresh or already acknowledged) the bookkeeping advances
/// and the trigger re-arms: a cron cursor moves past the consumed tick, an
/// account snapshot takes the observed value, an immediate task pauses
/// itself. A retryable rejection only backs the task off exponentially; a
/// fatal rejection pauses the task durably with the reason attached. If
/// the task is no longer due in `ctx` — its eligibility was computed
/// against superseded state — nothing is recorded and `StaleTrigger` asks
/// the caller to re-evaluate.
pub fn complete(task: &mut ScheduledTask, ctx: &PollContext, outcome: ExecOutcome) -> (r:
    Result<(), SchedulerError>)
    requires
        old(task).wf(),
        bookkeeping_fits(*old(task), *ctx),
    ensures
        final(task).wf(),
        !due_spec(*old(task), *ctx) ==> {
            r == Err::<(), SchedulerError>(SchedulerError::StaleTrigger)
                && *final(task) == *old(task)
        },
        due_spec(*old(task), *ctx) ==> r == Ok::<(), SchedulerError>(()),
        final(task).id == old(task).id,
        final(task).task_key == old(task).task_key,
        final(task).authority == old(task).authority,
        final(task).operations == old(task).operations,
        final(task).trigger == old(task).trigger,
        final(task).resources == old(task).resources,
        final(task).lookup_tables == old(task).lookup_tables,
        due_spec(*old(task), *ctx)
            && (outcome == ExecOutcome::Committed || outcome == ExecOutcome::AlreadyCommitted)
            ==> {
            &&& final(task).exec_count == old(task).exec_count + 1
            &&& final(task).last_exec_at == Some(ctx.now)
            &&& final(task).balance == if old(task).balance >= EXEC_FEE {
                (old(task).balance - EXEC_FEE) as u64
            } else {
                0u64
            }
            &&& final(task).backoff == 0
            &&& final(task).retry_at == ctx.now
            &&& final(task).pause_reason == old(task).pause_reason
            &&& (old(task).trigger matches Trigger::Cron { schedule, skippable } ==> {
                &&& final(task).cron_cursor as int == cursor_after_fire(schedule,
                    old(task).cron_cursor as int, skippable, ctx.now as int)
                &&& !final(task).paused
                &&& final(task).snapshot == old(task).snapshot
            })
            &&& (old(task).trigger matches Trigger::Account { .. } ==> {
                &&& final(task).snapshot == Some(ctx.observed)
                &&& !final(task).paused
                &&& final(task).cron_cursor == old(task).cron_cursor
            })
            &&& ((old(task).trigger matches Trigger::Immediate) ==> {
                &&& final(task).paused
                &&& final(task).snapshot == old(task).snapshot
                &&& final(task).cron_cursor == old(task).cron_cursor
            })
        },
        due_spec(*old(task), *ctx) && outcome == ExecOutcome::RejectedRetryable ==> {
            &&& final(task).paused == old(task).paused
            &&& final(task).pause_reason == old(task).pause_reason
            &&& final(task).cron_cursor == old(task).cron_cursor
            &&& final(task).snapshot == old(task).snapshot
            &&& final(task).exec_count == old(task).exec_count
            &&& final(task).balance == old(task).balance
            &&& final(task).last_exec_at == old(task).last_exec_at
            &&& final(task).backoff == if old(task).backoff < BACKOFF_LIMIT {
                (old(task).backoff + 1) as u32
            } else {
                old(task).backoff
            }
            &&& final(task).retry_at as int == if ctx.now + backoff_delay(final(task).backoff)
                <= u64::MAX {
                ctx.now + backoff_delay(final(task).backoff)
            } else {
                u64::MAX as int
            }
            &&& (forall|c2: PollContext| trigger_ready(*final(task), c2)
                == trigger_ready(*old(task), c2))
        },
        due_spec(*old(task), *ctx) ==> (outcome matches ExecOutcome::RejectedFatal(reason) ==> {
            &&& final(task).paused
            &&& final(task).pause_reason == Some(reason)
            &&& final(task).cron_cursor == old(task).cron_cursor
            &&& final(task).snapshot == old(task).snapshot
            &&& final(task).exec_count == old(task).exec_count
            &&& final(task).balance == old(task).balance
            &&& final(task).last_exec_at == old(task).last_exec_at
            &&& final(task).backoff == old(task).backoff
            &&& final(task).retry_at == old(task).retry_at
        }),
{
    if !is_eligible(task, ctx) {
        return Err(SchedulerError::StaleTrigger);
    }
    match outcome {
        ExecOutcome::Committed | ExecOutcome::AlreadyCommitted => {
            let trig = task.trigger;
            match trig {
                Trigger::Cron { schedule, skippable } => {
                    let c2 = advance_cron(&schedule, task.cron_cursor, skippable, ctx.now);
                    task.cron_cursor = c2;
                },
                Trigger::Account { .. } => {
                    task.snapshot = Some(ctx.observed);
                },
                Trigger::Immediate => {
                    task.paused = true;
                },
            }
            task.exec_count = task.exec_count + 1;
            task.last_exec_at = Some(ctx.now);
            if task.balance >= EXEC_FEE {
                task.balance = task.balance - EXEC_FEE;
            } else {
                task.balance = 0;
            }
            task.backoff = 0;
            task.retry_at = ctx.now;
            Ok(())
        },
        ExecOutcome::RejectedRetryable => {
            if task.backoff < BACKOFF_LIMIT {
                task.backoff = task.backoff + 1;
            }
            let delay = 1u64 << task.backoff;
            if delay <= u64::MAX - ctx.now {
                task.retry_at = ctx.now + delay;
            } else {
                task.retry_at = u64::MAX;
            }
            Ok(())
        },
        ExecOutcome::RejectedFatal(reason) => {
            task.paused = true;
            task.pause_reason = Some(reason);
            Ok(())
        },
    }
}

} // verus!
