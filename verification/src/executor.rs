//! A model of the external executor's observable state: an append-only
//! ledger of commit records keyed by task and execution sequence number.
//! Commits are all-or-nothing and duplicate submissions are rejected, which
//! makes at-least-once resubmission after a crash safe.

use vstd::prelude::*;

verus! {

/// One committed batch, as the executor's history exposes it.
#[derive(Clone, Copy, PartialEq, Eq, Structural, Debug)]
pub struct CommitRecord {
    pub task_key: u64,
    pub seq: u64,
}

/// The ledger already holds a commit under the given key and sequence
/// number.
pub open spec fn has_commit(ledger: Seq<CommitRecord>, task_key: u64, seq: u64) -> bool {
    exists|i: int| 0 <= i < ledger.len()
        && (#[trigger] ledger[i]).task_key == task_key && ledger[i].seq == seq
}

/// The ledger after one submission: unchanged for a duplicate, extended by
/// one record otherwise.
pub open spec fn apply_batch(ledger: Seq<CommitRecord>, task_key: u64, seq: u64) -> Seq<CommitRecord> {
    if has_commit(ledger, task_key, seq) {
        ledger
    } else {
        ledger.push(CommitRecord { task_key, seq })
    }
}

/// What one submission reported.
#[derive(Clone, Copy, PartialEq, Eq, Structural, Debug)]
pub enum ApplyOutcome {
    /// The batch was committed now.
    Committed,
    /// The very same batch had already been committed; nothing changed.
    AlreadyCommitted,
}

/// The executor's observable state.
pub struct ExecutorState {
    pub ledger: Vec<CommitRecord>,
}

impl ExecutorState {
    /// An executor with an empty history.
    pub fn new() -> (r: ExecutorState)
        ensures
            r.ledger@ == Seq::<CommitRecord>::empty(),
    {
        ExecutorState { ledger: Vec::new() }
    }

    /// Whether a commit for `(task_key, seq)` is already on the ledger —
    /// the ack half of the commit-then-ack handshake.
    pub fn contains_commit(&self, task_key: u64, seq: u64) -> (r: bool)
        ensures
            r == has_commit(self.ledger@, task_key, seq),
    {
        let mut i: usize = 0;
        while i < self.ledger.len()
            invariant
                i <= self.ledger@.len(),
                forall|j: int| 0 <= j < i
                    ==> !((#[trigger] self.ledger@[j]).task_key == task_key
                        && self.ledger@[j].seq == seq),
            decreases self.ledger@.len() - i,
        {
            let rec = self.ledger[i];
            if rec.task_key == task_key && rec.seq == seq {
                assert(self.ledger@[i as int].task_key == task_key
                    && self.ledger@[i as int].seq == seq);
                return true;
            }
            i = i + 1;
        }
        false
    }

    /// The ordered commit records of one task, for the scheduler or an
    /// operator to audit its latest executions.
    pub fn history_for(&self, task_key: u64) -> (r: Vec<CommitRecord>)
        ensures
            r@ == self.ledger@.filter(|rec: CommitRecord| rec.task_key == task_key),
    {
        let mut r: Vec<CommitRecord> = Vec::new();
        let mut i: usize = 0;
        proof {
            reveal(Seq::filter);
            assert(self.ledger@.subrange(0, 0) =~= Seq::<CommitRecord>::empty());
        }
        while i < self.ledger.len()
            invariant
                i <= self.ledger@.len(),
                r@ == self.ledger@.subrange(0, i as int).filter(
                    |rec: CommitRecord| rec.task_key == task_key,
                ),
            decreases self.ledger@.len() - i,
        {
            let rec = self.ledger[i];
            if rec.task_key == task_key {
                r.push(rec);
            }
            proof {
                reveal(Seq::filter);
                let s2 = self.ledger@.subrange(0, i + 1);
                assert(s2.drop_last() =~= self.ledger@.subrange(0, i as int));
                assert(s2.last() == self.ledger@[i as int]);
            }
            i = i + 1;
        }
        proof {
            assert(self.ledger@.subrange(0, self.ledger@.len() as int) =~= self.ledger@);
        }
        r
    }

    /// Atomically applies one batch: a duplicate of an earlier commit
    /// leaves the observable state untouched.
    pub fn submit(&mut self, task_key: u64, seq: u64) -> (r: ApplyOutcome)
        ensures
            final(self).ledger@ == apply_batch(old(self).ledger@, task_key, seq),
            (r == ApplyOutcome::AlreadyCommitted) == has_commit(old(self).ledger@, task_key, seq),
    {
        if self.contains_commit(task_key, seq) {
            ApplyOutcome::AlreadyCommitted
        } else {
            self.ledger.push(CommitRecord { task_key, seq });
            ApplyOutcome::Committed
        }
    }
}

/// Law: submission is idempotent. Applying the same batch a second time —
/// the post-crash resubmission of an already committed batch — leaves the
/// executor's observable state exactly as the first application did.
pub proof fn lemma_submit_idempotent(ledger: Seq<CommitRecord>, task_key: u64, seq: u64)
    ensures
        apply_batch(apply_batch(ledger, task_key, seq), task_key, seq)
            == apply_batch(ledger, task_key, seq),
{
    let l1 = apply_batch(ledger, task_key, seq);
    if !has_commit(ledger, task_key, seq) {
        assert(l1[ledger.len() as int].task_key == task_key
            && l1[ledger.len() as int].seq == seq);
        assert(has_commit(l1, task_key, seq));
    }
}

} // verus!
