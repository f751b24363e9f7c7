//! Time accounting: elapsed work seconds are reconstructed from the time
//! logs alone, with an open log accruing against the injected "now".

use vstd::prelude::*;
use crate::model::{valid_instant, TaskError, TaskRecord, TaskTimeLog, MAX_INSTANT, SESSION_COUNT};
use crate::store::Store;

verus! {

/// Seconds one log contributes at instant `now`: a closed interval counts in
/// full, an open one up to `now`.
pub open spec fn log_seconds(l: TaskTimeLog, now: i64) -> int {
    match l.ended_at {
        Option::Some(e) => e - l.started_at,
        Option::None => now - l.started_at,
    }
}

/// Total work seconds the logs hold at instant `now`.
pub open spec fn worked_seconds(ls: Seq<TaskTimeLog>, now: i64) -> int
    decreases ls.len(),
{
    if ls.len() == 0 {
        0
    } else {
        worked_seconds(ls.drop_last(), now) + log_seconds(ls.last(), now)
    }
}

/// Signed seconds left of the task's estimate at instant `now`; negative when
/// more was worked than estimated.
pub open spec fn remaining_seconds(rec: TaskRecord, now: i64) -> int {
    rec.task.estimated_seconds - worked_seconds(rec.logs@, now)
}

/// One step of the running total over a log prefix.
proof fn lemma_worked_prefix_step(ls: Seq<TaskTimeLog>, now: i64, i: int)
    requires
        0 <= i < ls.len(),
    ensures
        worked_seconds(ls.take(i + 1), now) == worked_seconds(ls.take(i), now) + log_seconds(
            ls[i],
            now,
        ),
{
    assert(ls.take(i + 1).drop_last() =~= ls.take(i));
    assert(ls.take(i + 1).last() == ls[i]);
}

impl Store {
    /// The task's time logs, oldest first. Fails only when the task does not
    /// exist.
    pub fn get_task_time_logs(&self, task_id: i64) -> (r: Result<Vec<TaskTimeLog>, TaskError>)
        requires
            self.wf(),
        ensures
            match r {
                Result::Ok(v) => exists|j: int|
                    0 <= j < self.recs().len() && #[trigger] self.recs()[j].task.id == task_id
                        && v@ == self.recs()[j].logs@,
                Result::Err(e) => e == TaskError::TaskNotFound && !self.contains_task(task_id),
            },
    {
        let idx = match self.find_index(task_id) {
            Option::Some(j) => j,
            Option::None => {
                return Result::Err(TaskError::TaskNotFound);
            },
        };
        let rec = &self.records[idx];
        let mut out: Vec<TaskTimeLog> = Vec::new();
        let n = rec.logs.len();
        let mut i: usize = 0;
        while i < n
            invariant
                i <= n,
                n == rec.logs@.len(),
                out@ == rec.logs@.take(i as int),
            decreases n - i,
        {
            out.push(rec.logs[i]);
            proof {
                assert(out@ =~= rec.logs@.take(i + 1));
            }
            i += 1;
        }
        proof {
            assert(rec.logs@.take(n as int) =~= rec.logs@);
        }
        Result::Ok(out)
    }

    /// Remaining seconds of the task's estimate at instant `now`:
    /// the estimate minus the sum over every time log of `(ended-at or now) -
    /// started-at`. Fails only when the task does not exist.
    pub fn get_task_remaining_time(&self, task_id: i64, now: i64) -> (r: Result<i64, TaskError>)
        requires
            self.wf(),
            valid_instant(now),
        ensures
            match r {
                Result::Ok(v) => exists|j: int|
                    0 <= j < self.recs().len() && #[trigger] self.recs()[j].task.id == task_id
                        && v == remaining_seconds(self.recs()[j], now),
                Result::Err(e) => e == TaskError::TaskNotFound && !self.contains_task(task_id),
            },
    {
        let idx = match self.find_index(task_id) {
            Option::Some(j) => j,
            Option::None => {
                return Result::Err(TaskError::TaskNotFound);
            },
        };
        let rec = &self.records[idx];
        proof {
            assert(rec.wf(self.clock));
            assert(rec.logs@.len() <= SESSION_COUNT);
        }
        let mut total: i64 = 0;
        let mut i: usize = 0;
        let n = rec.logs.len();
        while i < n
            invariant
                rec.wf(self.clock),
                valid_instant(now),
                n == rec.logs@.len(),
                n <= SESSION_COUNT,
                i <= n,
                total == worked_seconds(rec.logs@.take(i as int), now),
                -(i as int) * (MAX_INSTANT as int) <= total <= (i as int) * (MAX_INSTANT as int),
            decreases n - i,
        {
            proof {
                assert(rec.log_at_wf(i as int, self.clock));
                lemma_worked_prefix_step(rec.logs@, now, i as int);
            }
            let l = rec.logs[i];
            let contribution = match l.ended_at {
                Option::Some(e) => e - l.started_at,
                Option::None => now - l.started_at,
            };
            total = total + contribution;
            i += 1;
        }
        proof {
            assert(rec.logs@.take(n as int) =~= rec.logs@);
        }
        Result::Ok(rec.task.estimated_seconds - total)
    }
}

} // verus!
