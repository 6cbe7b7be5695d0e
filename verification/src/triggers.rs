//! Trigger conditions gating whether a scheduled task may execute: periodic
//! cron schedules with a skip policy for missed firings, account-state
//! change watches, and one-shot immediate triggers.

use vstd::prelude::*;

use vstd::arithmetic::div_mod::{
    lemma_fundamental_div_mod, lemma_mod_add_multiples_vanish, lemma_mod_bound, lemma_small_mod,
};

use crate::resource::ResourceHandle;

verus! {

/// A periodic schedule: ticks at `start_at`, `start_at + period`,
/// `start_at + 2 * period`, and so on.
#[derive(Clone, Copy, PartialEq, Eq, Structural, Debug)]
pub struct CronSchedule {
    pub start_at: u64,
    pub period: u64,
}

impl CronSchedule {
    /// A schedule is well formed when its period is positive.
    pub open spec fn wf(&self) -> bool {
        self.period >= 1
    }

    /// `t` lies exactly on a schedule tick.
    pub open spec fn is_tick(&self, t: int) -> bool {
        t >= self.start_at && (t - self.start_at) % (self.period as int) == 0
    }

    /// The most recent tick at or before `now` (meaningful for
    /// `now >= start_at`).
    pub open spec fn latest_tick_no_later(&self, now: int) -> int {
        now - ((now - self.start_at) % (self.period as int))
    }

    /// The defining properties of `latest_tick_no_later`: it is a tick, it
    /// does not exceed `now`, the following tick does, and no tick at or
    /// before `now` lies beyond it.
    pub proof fn lemma_latest_tick(self, now: int)
        requires
            self.wf(),
            now >= self.start_at,
        ensures
            self.is_tick(self.latest_tick_no_later(now)),
            self.latest_tick_no_later(now) <= now,
            self.latest_tick_no_later(now) + self.period > now,
            forall|u: int| self.is_tick(u) && u <= now ==> u <= self.latest_tick_no_later(now),
    {
        let p = self.period as int;
        let s = self.start_at as int;
        let d = now - s;
        let l = self.latest_tick_no_later(now);
        lemma_fundamental_div_mod(d, p);
        lemma_mod_bound(d, p);
        assert(l - s == p * (d / p));
        assert((l - s) % p == 0) by {
            assert(p * (d / p) == (d / p) * p) by (nonlinear_arith);
            vstd::arithmetic::div_mod::lemma_mod_multiples_basic(d / p, p);
        }
        assert(l >= s);
        assert forall|u: int| self.is_tick(u) && u <= now implies u <= l by {
            let k = (u - s) / p;
            lemma_fundamental_div_mod(u - s, p);
            assert(u - s == p * k);
            if u > l {
                assert(p * k > p * (d / p));
                assert(k > d / p) by (nonlinear_arith)
                    requires p > 0 && p * k > p * (d / p);
                assert(p * k >= p * (d / p) + p) by (nonlinear_arith)
                    requires p > 0 && k >= (d / p) + 1;
                assert(false);
            }
        }
    }

    /// Consecutive ticks are a full period apart.
    pub proof fn lemma_tick_spacing(self, a: int, b: int)
        requires
            self.wf(),
            self.is_tick(a),
            self.is_tick(b),
            b > a,
        ensures
            b >= a + self.period,
    {
        let p = self.period as int;
        let s = self.start_at as int;
        lemma_fundamental_div_mod(a - s, p);
        lemma_fundamental_div_mod(b - s, p);
        let ka = (a - s) / p;
        let kb = (b - s) / p;
        assert(a - s == p * ka);
        assert(b - s == p * kb);
        assert(kb > ka) by (nonlinear_arith)
            requires p > 0 && p * kb > p * ka;
        assert(p * kb >= p * ka + p) by (nonlinear_arith)
            requires p > 0 && kb >= ka + 1;
    }

    /// One period later than a tick is again a tick.
    pub proof fn lemma_tick_step(self, t: int)
        requires
            self.wf(),
            self.is_tick(t),
        ensures
            self.is_tick(t + self.period),
    {
        let p = self.period as int;
        let s = self.start_at as int;
        lemma_mod_add_multiples_vanish(t - s, p);
    }

    /// The most recent tick at or before `now`.
    pub fn latest_tick(&self, now: u64) -> (r: u64)
        requires
            self.wf(),
            now >= self.start_at,
        ensures
            r == self.latest_tick_no_later(now as int),
    {
        proof {
            let p = self.period as int;
            let d = (now - self.start_at) as int;
            lemma_mod_bound(d, p);
            lemma_fundamental_div_mod(d, p);
            vstd::arithmetic::div_mod::lemma_div_pos_is_pos(d, p);
            assert(d % p <= d) by {
                assert(p * (d / p) >= 0) by (nonlinear_arith)
                    requires
                        p > 0,
                        d / p >= 0,
                {
                }
            }
        }
        let offset = (now - self.start_at) % self.period;
        now - offset
    }

    /// The first tick at or after `now`.
    pub fn next_tick_from(&self, now: u64) -> (r: u64)
        requires
            self.wf(),
            now <= u64::MAX - self.period,
        ensures
            self.is_tick(r as int),
            r >= now,
            forall|u: int| self.is_tick(u) && u >= now ==> u >= r,
    {
        if now <= self.start_at {
            proof {
                lemma_small_mod(0, self.period as nat);
            }
            return self.start_at;
        }
        let l = self.latest_tick(now);
        proof {
            self.lemma_latest_tick(now as int);
        }
        if l == now {
            now
        } else {
            proof {
                self.lemma_tick_step(l as int);
                assert forall|u: int| self.is_tick(u) && u >= now implies u >= l + self.period by {
                    if u < l + self.period {
                        assert(u > l);
                        self.lemma_tick_spacing(l as int, u);
                    }
                }
            }
            l + self.period
        }
    }
}

/// The condition deciding whether a scheduled task is eligible to run.
#[derive(Clone, Copy, PartialEq, Eq, Structural, Debug)]
pub enum Trigger {
    /// Periodic: eligible once per schedule tick. With `skippable` set,
    /// only the most recent missed tick matters; otherwise every missed
    /// tick must be executed in order before the task catches up.
    Cron { schedule: CronSchedule, skippable: bool },
    /// Eligible when the observed value at `(address, offset)` differs
    /// from the snapshot recorded at the prior successful execution.
    Account { address: ResourceHandle, offset: u64 },
    /// Eligible exactly once; the task self-pauses after it fires unless
    /// its authority re-arms it.
    Immediate,
}

/// The tick a due cron trigger consumes when it fires at `now` with the
/// pending tick `cursor`: the oldest missed tick, or with `skippable` the
/// most recent one.
pub open spec fn fire_tick(s: CronSchedule, cursor: int, skippable: bool, now: int) -> int {
    if skippable {
        s.latest_tick_no_later(now)
    } else {
        cursor
    }
}

/// The pending tick after a fire: one period past the consumed tick.
pub open spec fn cursor_after_fire(s: CronSchedule, cursor: int, skippable: bool, now: int) -> int {
    fire_tick(s, cursor, skippable, now) + s.period
}

/// Advances a due cron trigger's pending tick after a committed execution.
pub fn advance_cron(s: &CronSchedule, cursor: u64, skippable: bool, now: u64) -> (c2: u64)
    requires
        s.wf(),
        s.is_tick(cursor as int),
        cursor <= now,
        now <= u64::MAX - s.period,
    ensures
        c2 == cursor_after_fire(*s, cursor as int, skippable, now as int),
        s.is_tick(fire_tick(*s, cursor as int, skippable, now as int)),
        s.is_tick(c2 as int),
{
    if skippable {
        let l = s.latest_tick(now);
        proof {
            s.lemma_latest_tick(now as int);
            s.lemma_tick_step(l as int);
        }
        l + s.period
    } else {
        proof {
            s.lemma_tick_step(cursor as int);
        }
        cursor + s.period
    }
}

/// Law: with `skippable == false`, missed ticks are never collapsed. From
/// a pending tick `t1` with `t1`, `t1 + period` and `t1 + 2 * period` all
/// due at `now`, three consecutive fires consume exactly those three ticks
/// in ascending order, each fire leaving the trigger due for the next.
pub proof fn lemma_cron_catch_up(s: CronSchedule, t1: int, now: int)
    requires
        s.wf(),
        s.is_tick(t1),
        t1 + 2 * s.period <= now,
    ensures
        fire_tick(s, t1, false, now) == t1,
        cursor_after_fire(s, t1, false, now) == t1 + s.period,
        t1 + s.period <= now,
        fire_tick(s, t1 + s.period, false, now) == t1 + s.period,
        cursor_after_fire(s, t1 + s.period, false, now) == t1 + 2 * s.period,
        t1 + 2 * s.period <= now,
        fire_tick(s, t1 + 2 * s.period, false, now) == t1 + 2 * s.period,
        cursor_after_fire(s, t1 + 2 * s.period, false, now) == t1 + 3 * s.period,
        t1 < t1 + s.period < t1 + 2 * s.period,
        s.is_tick(t1 + s.period),
        s.is_tick(t1 + 2 * s.period),
{
    s.lemma_tick_step(t1);
    s.lemma_tick_step(t1 + s.period);
}

/// Law: with `skippable == true`, a single fire consumes the most recent
/// missed tick and moves the pending tick past `now`, so exactly one
/// execution occurs however many ticks were missed. When the pending tick
/// `t1` has been missed together with the two following ticks and no more,
/// the consumed tick is exactly the third, `t1 + 2 * period`.
pub proof fn lemma_cron_skip(s: CronSchedule, t1: int, now: int)
    requires
        s.wf(),
        s.is_tick(t1),
        t1 <= now,
    ensures
        s.is_tick(fire_tick(s, t1, true, now)),
        fire_tick(s, t1, true, now) <= now,
        forall|u: int| s.is_tick(u) && u <= now ==> u <= fire_tick(s, t1, true, now),
        cursor_after_fire(s, t1, true, now) > now,
        t1 + 2 * s.period <= now < t1 + 3 * s.period
            ==> fire_tick(s, t1, true, now) == t1 + 2 * s.period,
{
    s.lemma_latest_tick(now);
    let l = s.latest_tick_no_later(now);
    if t1 + 2 * s.period <= now < t1 + 3 * s.period {
        s.lemma_tick_step(t1);
        s.lemma_tick_step(t1 + s.period);
        assert(l >= t1 + 2 * s.period);
        if l > t1 + 2 * s.period {
            s.lemma_tick_spacing(t1 + 2 * s.period, l);
        }
    }
}

} // verus!
