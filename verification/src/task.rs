//! The schedulable unit: an ordered list of operations, a funding balance,
//! a trigger, a bound handle set with its backing lookup tables, and
//! execution bookkeeping.

use vstd::prelude::*;

use crate::lookup::{fresh_additions, in_tables, lemma_fresh_additions_fresh, LookupTable};
use crate::resource::{absorb, distinct_handles, ResourceHandle, ResourceSet};
use crate::triggers::Trigger;
use crate::{FatalReason, SchedulerError, BACKOFF_LIMIT, TABLE_CAPACITY};

verus! {

/// One operation of a batch: an opaque operation code plus the handles it
/// touches.
#[derive(PartialEq, Eq, Debug)]
pub struct Operation {
    pub code: u64,
    pub accounts: Vec<ResourceHandle>,
}

/// Two operation lists carry the same codes and the same handles.
pub open spec fn ops_equiv(a: Seq<Operation>, b: Seq<Operation>) -> bool {
    &&& a.len() == b.len()
    &&& forall|i: int| 0 <= i < a.len()
        ==> #[trigger] a[i].code == b[i].code && a[i].accounts@ == b[i].accounts@
}

/// A plain copy of an operation list.
pub fn copy_operations(ops: &Vec<Operation>) -> (r: Vec<Operation>)
    ensures
        ops_equiv(r@, ops@),
{
    let mut r: Vec<Operation> = Vec::new();
    let mut i: usize = 0;
    while i < ops.len()
        invariant
            i <= ops@.len(),
            r@.len() == i,
            forall|j: int| 0 <= j < i
                ==> #[trigger] r@[j].code == ops@[j].code && r@[j].accounts@ == ops@[j].accounts@,
        decreases ops@.len() - i,
    {
        let accounts = crate::resource::copy_handles(&ops[i].accounts);
        r.push(Operation { code: ops[i].code, accounts });
        i = i + 1;
    }
    r
}

/// The schedulable unit.
pub struct ScheduledTask {
    pub id: String,
    /// Numeric key identifying the task in executor commit records.
    pub task_key: u64,
    pub authority: ResourceHandle,
    pub operations: Vec<Operation>,
    pub trigger: Trigger,
    pub balance: u64,
    /// The handles that must accompany the task's batches.
    pub resources: ResourceSet,
    /// Backing tables compacting `resources` when it outgrows the inline
    /// budget.
    pub lookup_tables: Vec<LookupTable>,
    pub paused: bool,
    /// Why the scheduler paused the task, if it did; a pause by the
    /// authority leaves no reason.
    pub pause_reason: Option<FatalReason>,
    pub exec_count: u64,
    pub last_exec_at: Option<u64>,
    /// For a cron trigger: the next tick to consume.
    pub cron_cursor: u64,
    /// For an account trigger: the value seen at the prior successful
    /// execution.
    pub snapshot: Option<u64>,
    /// Consecutive retryable failures since the last success.
    pub backoff: u32,
    /// No poll before this instant counts the task as due.
    pub retry_at: u64,
}

impl ScheduledTask {
    pub open spec fn wf(&self) -> bool {
        &&& self.resources.wf()
        &&& forall|j: int| 0 <= j < self.lookup_tables@.len()
            ==> (#[trigger] self.lookup_tables@[j]).wf()
        &&& (self.trigger matches Trigger::Cron { schedule, .. }
            ==> schedule.wf() && schedule.is_tick(self.cron_cursor as int))
        &&& self.backoff <= BACKOFF_LIMIT
    }

    /// Whether creating a task with `trig` at `now` stays within machine
    /// bounds (the first cron tick must fit in a timestamp).
    pub open spec fn creation_fits(trig: Trigger, now: u64) -> bool {
        match trig {
            Trigger::Cron { schedule, .. } => schedule.period >= 1
                ==> now <= u64::MAX - schedule.period,
            _ => true,
        }
    }

    /// Creates a task funded by its authority. A cron trigger with a zero
    /// period is malformed and rejected; otherwise the task starts
    /// unpaused with its cron cursor on the first tick at or after `now`.
    pub fn new(
        id: String,
        task_key: u64,
        authority: ResourceHandle,
        balance: u64,
        trig: Trigger,
        operations: Vec<Operation>,
        now: u64,
    ) -> (r: Result<ScheduledTask, SchedulerError>)
        requires
            Self::creation_fits(trig, now),
        ensures
            (r matches Err(_)) <==> (trig matches Trigger::Cron { schedule, .. }
                && schedule.period == 0),
            r matches Err(e) ==> e == SchedulerError::Fatal(FatalReason::MalformedOperation),
            r matches Ok(t) ==> {
                &&& t.id == id
                &&& t.task_key == task_key
                &&& t.authority == authority
                &&& t.balance == balance
                &&& t.trigger == trig
                &&& t.operations == operations
                &&& t.resources@ == Seq::<ResourceHandle>::empty()
                &&& t.lookup_tables@.len() == 0
                &&& !t.paused
                &&& t.pause_reason == Option::<FatalReason>::None
                &&& t.exec_count == 0
                &&& t.last_exec_at == Option::<u64>::None
                &&& t.snapshot == Option::<u64>::None
                &&& t.backoff == 0
                &&& t.retry_at == 0
                &&& (trig matches Trigger::Cron { schedule, .. } ==> {
                    &&& schedule.is_tick(t.cron_cursor as int)
                    &&& t.cron_cursor >= now
                    &&& forall|u: int| schedule.is_tick(u) && u >= now ==> u >= t.cron_cursor
                })
                &&& t.wf()
            },
    {
        let cron_cursor: u64 = match trig {
            Trigger::Cron { schedule, skippable: _ } => {
                if schedule.period == 0 {
                    return Err(SchedulerError::Fatal(FatalReason::MalformedOperation));
                }
                schedule.next_tick_from(now)
            },
            _ => 0,
        };
        Ok(ScheduledTask {
            id,
            task_key,
            authority,
            operations,
            trigger: trig,
            balance,
            resources: ResourceSet::new(),
            lookup_tables: Vec::new(),
            paused: false,
            pause_reason: None,
            exec_count: 0,
            last_exec_at: None,
            cron_cursor,
            snapshot: None,
            backoff: 0,
            retry_at: 0,
        })
    }

    /// An explicit pause by the authority.
    pub fn pause(&mut self)
        ensures
            *final(self) == (ScheduledTask { paused: true, ..*old(self) }),
    {
        self.paused = true;
    }

    /// An explicit resume by the authority: clears the pause, the recorded
    /// reason and the retry backoff, and re-arms the task.
    pub fn resume(&mut self)
        ensures
            *final(self) == (ScheduledTask {
                paused: false,
                pause_reason: None,
                backoff: 0,
                retry_at: 0,
                ..*old(self)
            }),
            old(self).wf() ==> final(self).wf(),
    {
        self.paused = false;
        self.pause_reason = None;
        self.backoff = 0;
        self.retry_at = 0;
    }

    /// Allocates an additional (empty) backing table created at `epoch`.
    pub fn add_table(&mut self, table_id: u64, epoch: u64)
        ensures
            final(self).lookup_tables@.len() == old(self).lookup_tables@.len() + 1,
            forall|j: int| 0 <= j < old(self).lookup_tables@.len()
                ==> final(self).lookup_tables@[j] == old(self).lookup_tables@[j],
            final(self).lookup_tables@.last().id == table_id,
            final(self).lookup_tables@.last().members@ == Seq::<ResourceHandle>::empty(),
            final(self).lookup_tables@.last().last_extended_epoch == epoch,
            *final(self) == (ScheduledTask { lookup_tables: final(self).lookup_tables, ..*old(self) }),
            old(self).wf() ==> final(self).wf(),
    {
        self.lookup_tables.push(LookupTable::new(table_id, epoch));
    }

    /// Appends the genuinely new handles of `hs` to the task's handle set
    /// and, preserving order, to its most recent backing table, extending
    /// it at `epoch`. Fails with `CapacityExceeded`, changing nothing,
    /// when that table's member cap cannot take them. With no table bound
    /// only the handle set grows; compaction then needs `add_table`.
    pub fn bind(&mut self, hs: &Vec<ResourceHandle>, epoch: u64) -> (r: Result<(), SchedulerError>)
        requires
            old(self).wf(),
            old(self).resources@.len() + hs@.len() <= usize::MAX,
        ensures
            final(self).wf(),
            final(self).id == old(self).id,
            final(self).task_key == old(self).task_key,
            final(self).authority == old(self).authority,
            final(self).operations == old(self).operations,
            final(self).trigger == old(self).trigger,
            final(self).balance == old(self).balance,
            final(self).paused == old(self).paused,
            final(self).pause_reason == old(self).pause_reason,
            final(self).exec_count == old(self).exec_count,
            final(self).last_exec_at == old(self).last_exec_at,
            final(self).cron_cursor == old(self).cron_cursor,
            final(self).snapshot == old(self).snapshot,
            final(self).backoff == old(self).backoff,
            final(self).retry_at == old(self).retry_at,
            old(self).lookup_tables@.len() == 0 ==> {
                &&& r == Ok::<(), SchedulerError>(())
                &&& final(self).resources@ == absorb(old(self).resources@, hs@)
                &&& final(self).lookup_tables@ == old(self).lookup_tables@
            },
            old(self).lookup_tables@.len() > 0 ==> {
                let adds = fresh_additions(old(self).lookup_tables@, Seq::empty(), hs@);
                let n = old(self).lookup_tables@.len() as int;
                let last = old(self).lookup_tables@[n - 1];
                if last.members@.len() + adds.len() > TABLE_CAPACITY {
                    r == Err::<(), SchedulerError>(SchedulerError::CapacityExceeded)
                        && *final(self) == *old(self)
                } else {
                    &&& r == Ok::<(), SchedulerError>(())
                    &&& final(self).resources@ == absorb(old(self).resources@, hs@)
                    &&& final(self).lookup_tables@.len() == n
                    &&& forall|j: int| 0 <= j < n - 1
                        ==> final(self).lookup_tables@[j] == old(self).lookup_tables@[j]
                    &&& final(self).lookup_tables@[n - 1].id == last.id
                    &&& final(self).lookup_tables@[n - 1].members@ == last.members@ + adds
                    &&& final(self).lookup_tables@[n - 1].last_extended_epoch
                        == if adds.len() > 0 { epoch } else { last.last_extended_epoch }
                }
            },
    {
        let ghost tables0 = self.lookup_tables@;

        // Collect, in order, the handles in no bound table and not yet
        // collected.
        let mut adds = ResourceSet::new();
        let mut i: usize = 0;
        proof {
            assert(hs@.subrange(0, hs@.len() as int) =~= hs@);
        }
        while i < hs.len()
            invariant
                i <= hs@.len(),
                self == old(self),
                tables0 == self.lookup_tables@,
                fresh_additions(tables0, Seq::empty(), hs@)
                    == adds@ + fresh_additions(tables0, adds@, hs@.subrange(i as int, hs@.len() as int)),
                adds.wf(),
            decreases hs@.len() - i,
        {
            let h = hs[i];
            let ghost rem = hs@.subrange(i as int, hs@.len() as int);
            proof {
                assert(rem[0] == hs@[i as int]);
                assert(rem.drop_first() =~= hs@.subrange(i + 1, hs@.len() as int));
            }
            let in_table = crate::lookup::any_table_contains(&self.lookup_tables, h);
            if !in_table && !adds.contains_handle(h) {
                let ghost before = adds@;
                adds.insert(h);
                proof {
                    assert(before + (seq![h] + fresh_additions(tables0, before.push(h), rem.drop_first()))
                        =~= before.push(h) + fresh_additions(tables0, before.push(h), rem.drop_first()));
                }
            }
            i = i + 1;
        }
        proof {
            assert(hs@.subrange(hs@.len() as int, hs@.len() as int)
                =~= Seq::<ResourceHandle>::empty());
            assert(adds@ + Seq::<ResourceHandle>::empty() =~= adds@);
            assert(adds@ == fresh_additions(tables0, Seq::empty(), hs@));
        }

        if self.lookup_tables.len() == 0 {
            self.resources.insert_all(hs);
            return Ok(());
        }

        let adds_vec = adds.to_vec();
        let last_ref_len = self.lookup_tables[self.lookup_tables.len() - 1].members.len();
        if adds_vec.len() > TABLE_CAPACITY || last_ref_len > TABLE_CAPACITY - adds_vec.len() {
            return Err(SchedulerError::CapacityExceeded);
        }

        proof {
            lemma_fresh_additions_fresh(tables0, Seq::empty(), hs@);
        }
        let ghost n = tables0.len() as int;
        let mut last = self.lookup_tables.pop().unwrap();
        let ghost pre_members = last.members@;
        let mut k: usize = 0;
        while k < adds_vec.len()
            invariant
                k <= adds_vec@.len(),
                tables0.len() > 0,
                self.lookup_tables@ == tables0.drop_last(),
                last.id == tables0.last().id,
                last.last_extended_epoch == tables0.last().last_extended_epoch,
                pre_members == tables0.last().members@,
                last.members@ == pre_members + adds_vec@.subrange(0, k as int),
                last.members.wf(),
                distinct_handles(adds_vec@),
                forall|x: ResourceHandle| #[trigger] adds_vec@.contains(x) ==> !in_tables(tables0, x),
            decreases adds_vec@.len() - k,
        {
            let h = adds_vec[k];
            proof {
                assert(adds_vec@.contains(h)) by {
                    assert(adds_vec@[k as int] == h);
                }
                assert(!pre_members.contains(h)) by {
                    if pre_members.contains(h) {
                        assert(in_tables(tables0, h)) by {
                            assert(tables0[tables0.len() - 1].members@.contains(h));
                        }
                    }
                }
                assert(!adds_vec@.subrange(0, k as int).contains(h)) by {
                    if adds_vec@.subrange(0, k as int).contains(h) {
                        let j = choose|j: int| 0 <= j < k && adds_vec@.subrange(0, k as int)[j] == h;
                        assert(adds_vec@[j] == h);
                        assert(adds_vec@[j] == adds_vec@[k as int]);
                    }
                }
                crate::lookup::lemma_concat_contains(pre_members, adds_vec@.subrange(0, k as int), h);
            }
            last.members.insert(h);
            proof {
                assert(last.members@
                    =~= pre_members + adds_vec@.subrange(0, k + 1));
            }
            k = k + 1;
        }
        proof {
            assert(adds_vec@.subrange(0, adds_vec@.len() as int) =~= adds_vec@);
        }
        if adds_vec.len() > 0 {
            last.last_extended_epoch = epoch;
        }
        self.lookup_tables.push(last);
        proof {
            assert forall|j: int| 0 <= j < n - 1
                implies self.lookup_tables@[j] == tables0[j] by {
                assert(self.lookup_tables@[j] == tables0.drop_last()[j]);
            }
        }
        self.resources.insert_all(hs);
        Ok(())
    }
}

} // verus!
