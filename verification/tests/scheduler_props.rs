use crank_scheduler::executor::{ApplyOutcome, ExecutorState};
use crank_scheduler::resource::ResourceHandle;
use crank_scheduler::scheduler::{
    assemble, complete, is_eligible, outcome_error, ExecOutcome, PollContext,
};
use crank_scheduler::task::ScheduledTask;
use crank_scheduler::triggers::{CronSchedule, Trigger};
use crank_scheduler::{FatalReason, SchedulerError, EXEC_FEE};

fn h(id: u64) -> ResourceHandle {
    ResourceHandle { id }
}

fn cron_task(skippable: bool, created_at: u64) -> ScheduledTask {
    ScheduledTask::new(
        "cron-task".to_string(),
        1,
        h(900),
        10 * EXEC_FEE,
        Trigger::Cron { schedule: CronSchedule { start_at: 0, period: 10 }, skippable },
        Vec::new(),
        created_at,
    )
    .unwrap()
}

fn ctx(now: u64) -> PollContext {
    PollContext { now, epoch: 100, observed: 0 }
}

/// Runs poll cycles at one instant until the task stops being due, and
/// returns the ticks consumed (read off the cursor before each commit).
fn run_until_idle(task: &mut ScheduledTask, exec: &mut ExecutorState, at: u64) -> Vec<u64> {
    let c = ctx(at);
    let mut fired = Vec::new();
    while is_eligible(task, &c) {
        let batch = assemble(task, &c).unwrap();
        exec.submit(batch.task_key, batch.seq);
        fired.push(task.cron_cursor);
        complete(task, &c, ExecOutcome::Committed).unwrap();
    }
    fired
}

#[test]
fn non_skippable_cron_fires_once_per_missed_tick() {
    // Created at 5, so the pending tick is 10; ticks 10, 20, 30 are all
    // missed by the time the scheduler polls at 35.
    let mut task = cron_task(false, 5);
    assert_eq!(task.cron_cursor, 10);
    let mut exec = ExecutorState::new();
    let fired = run_until_idle(&mut task, &mut exec, 35);
    assert_eq!(fired, vec![10, 20, 30], "each missed tick fires, in order");
    assert_eq!(task.exec_count, 3);
    assert_eq!(task.cron_cursor, 40);
    assert_eq!(exec.ledger.len(), 3);
}

#[test]
fn skippable_cron_collapses_to_the_latest_tick() {
    let mut task = cron_task(true, 5);
    assert_eq!(task.cron_cursor, 10);
    let mut exec = ExecutorState::new();
    let fired = run_until_idle(&mut task, &mut exec, 35);
    assert_eq!(fired.len(), 1, "exactly one execution despite three missed ticks");
    assert_eq!(task.exec_count, 1);
    // The consumed tick was the most recent missed one: the cursor sits
    // one period past tick 30.
    assert_eq!(task.cron_cursor, 40);
    assert_eq!(exec.ledger.len(), 1);
}

#[test]
fn fatal_outcome_pauses_until_resumed() {
    let mut task = ScheduledTask::new(
        "one-shot".to_string(),
        2,
        h(901),
        10 * EXEC_FEE,
        Trigger::Immediate,
        Vec::new(),
        0,
    )
    .unwrap();
    let c = ctx(50);
    assert!(is_eligible(&task, &c));
    assemble(&task, &c).unwrap();
    complete(&mut task, &c, ExecOutcome::RejectedFatal(FatalReason::AuthorityRevoked)).unwrap();
    assert!(task.paused);
    assert_eq!(task.pause_reason, Some(FatalReason::AuthorityRevoked));
    // Never polled again: not eligible in any later context either.
    assert!(!is_eligible(&task, &ctx(50)));
    assert!(!is_eligible(&task, &ctx(1_000_000)));
    assert_eq!(assemble(&task, &ctx(60)), Err(SchedulerError::StaleTrigger));
    // An explicit resume re-arms it.
    task.resume();
    assert!(!task.paused);
    assert_eq!(task.pause_reason, None);
    assert!(is_eligible(&task, &ctx(60)));
}

#[test]
fn retryable_outcome_keeps_the_task_live() {
    let mut task = cron_task(false, 5);
    let c = ctx(35);
    assert!(is_eligible(&task, &c));
    complete(&mut task, &c, ExecOutcome::RejectedRetryable).unwrap();
    assert!(!task.paused);
    assert_eq!(task.exec_count, 0);
    assert_eq!(task.cron_cursor, 10, "the missed tick is not consumed");
    // Backed off: not due at the same instant, due again once the delay
    // has elapsed.
    assert_eq!(task.backoff, 1);
    assert_eq!(task.retry_at, 35 + 2);
    assert!(!is_eligible(&task, &ctx(35)));
    assert!(is_eligible(&task, &ctx(37)));
}

#[test]
fn backoff_grows_exponentially() {
    let mut task = cron_task(false, 5);
    complete(&mut task, &ctx(35), ExecOutcome::RejectedRetryable).unwrap();
    assert_eq!(task.retry_at, 35 + 2);
    complete(&mut task, &ctx(37), ExecOutcome::RejectedRetryable).unwrap();
    assert_eq!(task.retry_at, 37 + 4);
    complete(&mut task, &ctx(41), ExecOutcome::RejectedRetryable).unwrap();
    assert_eq!(task.retry_at, 41 + 8);
}

#[test]
fn stale_trigger_when_no_longer_due() {
    let mut task = cron_task(false, 5);
    let early = ctx(3); // before the first tick
    assert!(!is_eligible(&task, &early));
    assert_eq!(assemble(&task, &early), Err(SchedulerError::StaleTrigger));
    assert_eq!(
        complete(&mut task, &early, ExecOutcome::Committed),
        Err(SchedulerError::StaleTrigger)
    );
    assert_eq!(task.exec_count, 0);
}

#[test]
fn exhausted_balance_is_fatal_before_submission() {
    let mut task = cron_task(false, 5);
    task.balance = EXEC_FEE - 1;
    let c = ctx(35);
    assert!(is_eligible(&task, &c));
    assert_eq!(
        assemble(&task, &c),
        Err(SchedulerError::Fatal(FatalReason::BalanceExhausted))
    );
}

#[test]
fn committed_execution_updates_bookkeeping() {
    let mut task = cron_task(false, 5);
    let c = ctx(35);
    let batch = assemble(&task, &c).unwrap();
    assert_eq!(batch.task_key, 1);
    assert_eq!(batch.seq, 0);
    complete(&mut task, &c, ExecOutcome::Committed).unwrap();
    assert_eq!(task.exec_count, 1);
    assert_eq!(task.last_exec_at, Some(35));
    assert_eq!(task.balance, 9 * EXEC_FEE);
    assert_eq!(task.backoff, 0);
}

#[test]
fn immediate_task_self_pauses_after_firing() {
    let mut task = ScheduledTask::new(
        "one-shot-b".to_string(),
        3,
        h(902),
        10 * EXEC_FEE,
        Trigger::Immediate,
        Vec::new(),
        0,
    )
    .unwrap();
    let c = ctx(7);
    assert!(is_eligible(&task, &c));
    complete(&mut task, &c, ExecOutcome::Committed).unwrap();
    assert!(task.paused, "an immediate trigger fires exactly once");
    assert_eq!(task.pause_reason, None, "self-pause is no failure");
    assert!(!is_eligible(&task, &ctx(8)));
    task.resume();
    assert!(is_eligible(&task, &ctx(9)), "an explicit re-arm makes it fire again");
}

#[test]
fn account_trigger_fires_on_changed_value() {
    let mut task = ScheduledTask::new(
        "watcher".to_string(),
        4,
        h(903),
        10 * EXEC_FEE,
        Trigger::Account { address: h(77), offset: 16 },
        Vec::new(),
        0,
    )
    .unwrap();
    let c1 = PollContext { now: 10, epoch: 0, observed: 42 };
    assert!(is_eligible(&task, &c1), "no snapshot yet: the first observation triggers");
    complete(&mut task, &c1, ExecOutcome::Committed).unwrap();
    assert_eq!(task.snapshot, Some(42));
    let unchanged = PollContext { now: 20, epoch: 0, observed: 42 };
    assert!(!is_eligible(&task, &unchanged));
    let changed = PollContext { now: 30, epoch: 0, observed: 43 };
    assert!(is_eligible(&task, &changed));
}

#[test]
fn cron_with_zero_period_is_malformed() {
    let r = ScheduledTask::new(
        "broken".to_string(),
        5,
        h(904),
        EXEC_FEE,
        Trigger::Cron { schedule: CronSchedule { start_at: 0, period: 0 }, skippable: false },
        Vec::new(),
        0,
    );
    assert_eq!(r.err(), Some(SchedulerError::Fatal(FatalReason::MalformedOperation)));
}

#[test]
fn outcomes_classify_into_the_error_taxonomy() {
    assert_eq!(outcome_error(ExecOutcome::Committed), None);
    assert_eq!(outcome_error(ExecOutcome::AlreadyCommitted), None);
    assert_eq!(
        outcome_error(ExecOutcome::RejectedRetryable),
        Some(SchedulerError::Retryable)
    );
    assert_eq!(
        outcome_error(ExecOutcome::RejectedFatal(FatalReason::MalformedOperation)),
        Some(SchedulerError::Fatal(FatalReason::MalformedOperation))
    );
}

#[test]
fn post_crash_resubmission_is_acknowledged_not_duplicated() {
    let mut task = cron_task(false, 5);
    let mut exec = ExecutorState::new();
    let c = ctx(35);
    let batch = assemble(&task, &c).unwrap();
    assert_eq!(exec.submit(batch.task_key, batch.seq), ApplyOutcome::Committed);
    // Crash before bookkeeping: on restart the same batch is assembled
    // (the sequence number did not advance) and resubmitted.
    let again = assemble(&task, &c).unwrap();
    assert_eq!(again.seq, batch.seq);
    assert_eq!(exec.submit(again.task_key, again.seq), ApplyOutcome::AlreadyCommitted);
    assert_eq!(exec.ledger.len(), 1, "no duplicated resource effects");
    // The acknowledgement still advances the bookkeeping exactly once.
    complete(&mut task, &c, ExecOutcome::AlreadyCommitted).unwrap();
    assert_eq!(task.exec_count, 1);
}
