//! The task lifecycle controller: start, pause, resume, complete and delete.
//! Each operation checks its guards first and leaves the store untouched on
//! failure; a successful one applies its whole transition at once.

use vstd::prelude::*;
use crate::model::{
    completed_rec, has_open_log, is_active_status, is_running_status, paused_rec, valid_instant,
    Status, TaskError, TaskRecord, SESSION_COUNT,
};
use crate::sessions::{begun_target_rec, target_opens_work};
use crate::store::{
    lemma_single_active_preserved, lemma_store_evolve_wf, lemma_task_id_unique, rec_evolved,
    rec_log_ids_below, rec_session_ids_below, Store,
};

verus! {

/// Pointwise shape of the records after `start_task(task_id, force)`
/// succeeds: the target resolves and starts its next session (with its first
/// activation stamped), any other running task is forcibly paused, the rest
/// is untouched.
pub open spec fn started_store_rec(
    o: TaskRecord,
    n: TaskRecord,
    task_id: i64,
    now: i64,
    first_sid: i64,
    log_id: i64,
) -> bool {
    if o.task.id == task_id {
        begun_target_rec(o, n, now, first_sid, log_id, true)
    } else if is_active_status(o.task.status) {
        paused_rec(o, n, now)
    } else {
        n == o
    }
}

/// Pointwise shape of the records after `resume_task(task_id)` succeeds: the
/// target resolves and starts its next session without restamping, the rest
/// is untouched.
pub open spec fn resumed_store_rec(
    o: TaskRecord,
    n: TaskRecord,
    task_id: i64,
    now: i64,
    first_sid: i64,
    log_id: i64,
) -> bool {
    if o.task.id == task_id {
        begun_target_rec(o, n, now, first_sid, log_id, false)
    } else {
        n == o
    }
}

/// Pointwise shape of the records after `pause_task(task_id)` succeeds.
pub open spec fn paused_store_rec(o: TaskRecord, n: TaskRecord, task_id: i64, now: i64) -> bool {
    if o.task.id == task_id {
        paused_rec(o, n, now)
    } else {
        n == o
    }
}

/// Pointwise shape of the records after `complete_task(task_id)` succeeds.
pub open spec fn completed_store_rec(o: TaskRecord, n: TaskRecord, task_id: i64, now: i64)
    -> bool {
    if o.task.id == task_id {
        completed_rec(o, n, now)
    } else {
        n == o
    }
}

impl Store {
    /// Result `pause_task` owes for this store: the task must exist and must
    /// be running a session.
    pub open spec fn pause_outcome(&self, task_id: i64) -> Result<(), TaskError> {
        if !self.contains_task(task_id) {
            Result::Err(TaskError::TaskNotFound)
        } else if !self.task_has_active(task_id) {
            Result::Err(TaskError::NoActiveSessionToPause)
        } else {
            Result::Ok(())
        }
    }

    /// Result `complete_task` owes for this store: the task merely has to
    /// exist.
    pub open spec fn complete_outcome(&self, task_id: i64) -> Result<(), TaskError> {
        if !self.contains_task(task_id) {
            Result::Err(TaskError::TaskNotFound)
        } else {
            Result::Ok(())
        }
    }

    /// Manually interrupt the task's running session: close its open time
    /// log first (a manual pause always wins over a later automatic closure),
    /// drop the active-session row, and mark the task paused.
    pub fn pause_task(&mut self, task_id: i64, now: i64) -> (r: Result<(), TaskError>)
        requires
            old(self).wf(),
            valid_instant(now),
            now >= old(self).clock,
        ensures
            final(self).wf(),
            r == old(self).pause_outcome(task_id),
            r is Err ==> *final(self) == *old(self),
            r is Ok ==> {
                &&& final(self).recs().len() == old(self).recs().len()
                &&& forall|j: int|
                    #![trigger final(self).recs()[j]]
                    #![trigger paused_store_rec(old(self).recs()[j], final(self).recs()[j], task_id, now)]
                    0 <= j < old(self).recs().len() ==> paused_store_rec(
                        old(self).recs()[j],
                        final(self).recs()[j],
                        task_id,
                        now,
                    )
                &&& final(self).next_task_id == old(self).next_task_id
                &&& final(self).next_session_id == old(self).next_session_id
                &&& final(self).next_log_id == old(self).next_log_id
                &&& final(self).clock == now
            },
    {
        let idx = match self.find_index(task_id) {
            Option::Some(j) => j,
            Option::None => {
                return Result::Err(TaskError::TaskNotFound);
            },
        };
        if self.records[idx].active.is_none() {
            proof {
                if self.task_has_active(task_id) {
                    let j = choose|j: int|
                        0 <= j < self.recs().len() && self.recs()[j].task.id == task_id
                            && self.recs()[j].active is Some;
                    lemma_task_id_unique(*self, j, idx as int);
                }
            }
            return Result::Err(TaskError::NoActiveSessionToPause);
        }
        let rec = &mut self.records[idx];
        rec.close_logs(now);
        rec.active = Option::None;
        rec.task.status = Status::Paused;
        self.clock = now;
        proof {
            let prev = *old(self);
            let cur = *self;
            assert(paused_rec(prev.recs()[idx as int], cur.recs()[idx as int], now));
            assert(prev.recs()[idx as int].wf(prev.clock));
            assert forall|i: int|
                #![trigger prev.recs()[idx as int].logs@[i]]
                0 <= i < prev.recs()[idx as int].logs@.len()
                    && prev.recs()[idx as int].logs@[i].ended_at is None
                implies prev.recs()[idx as int].logs@[i].started_at <= now by {
                assert(prev.recs()[idx as int].log_at_wf(i, prev.clock));
            }
            crate::model::lemma_closed_rec_wf(
                prev.recs()[idx as int],
                cur.recs()[idx as int],
                now,
                now,
                prev.clock,
            );
            assert forall|j: int| 0 <= j < cur.recs().len() implies #[trigger] rec_evolved(
                prev.recs()[j],
                cur.recs()[j],
                cur,
            ) by {
                if j != idx {
                    assert(cur.recs()[j] == prev.recs()[j]);
                } else {
                    assert(crate::store::rec_session_ids_below(prev.recs()[j], prev.next_session_id));
                    assert(crate::store::rec_log_ids_below(prev.recs()[j], prev.next_log_id));
                    assert forall|i: int| 0 <= i < cur.recs()[j].logs@.len()
                        implies #[trigger] cur.recs()[j].logs@[i].id < cur.next_log_id by {
                        assert(cur.recs()[j].logs@[i] == crate::model::close_log(
                            prev.recs()[j].logs@[i],
                            now,
                        ));
                        assert(prev.recs()[j].logs@[i].id < prev.next_log_id);
                    }
                }
            }
            lemma_single_active_preserved(prev, cur);
            lemma_store_evolve_wf(prev, cur);
            assert forall|j: int| 0 <= j < prev.recs().len() implies #[trigger] paused_store_rec(
                prev.recs()[j],
                cur.recs()[j],
                task_id,
                now,
            ) by {
                if j != idx && prev.recs()[j].task.id == task_id {
                    lemma_task_id_unique(prev, j, idx as int);
                }
            }
            assert(prev.task_has_active(task_id));
        }
        Result::Ok(())
    }

    /// Mark the task completed at `now`, dropping any active-session row and
    /// closing any open log. Completing an already completed task merely
    /// re-stamps it.
    pub fn complete_task(&mut self, task_id: i64, now: i64) -> (r: Result<(), TaskError>)
        requires
            old(self).wf(),
            valid_instant(now),
            now >= old(self).clock,
        ensures
            final(self).wf(),
            r == old(self).complete_outcome(task_id),
            r is Err ==> *final(self) == *old(self),
            r is Ok ==> {
                &&& final(self).recs().len() == old(self).recs().len()
                &&& forall|j: int|
                    #![trigger final(self).recs()[j]]
                    #![trigger completed_store_rec(old(self).recs()[j], final(self).recs()[j], task_id, now)]
                    0 <= j < old(self).recs().len() ==> completed_store_rec(
                        old(self).recs()[j],
                        final(self).recs()[j],
                        task_id,
                        now,
                    )
                &&& final(self).next_task_id == old(self).next_task_id
                &&& final(self).next_session_id == old(self).next_session_id
                &&& final(self).next_log_id == old(self).next_log_id
                &&& final(self).clock == now
            },
    {
        let idx = match self.find_index(task_id) {
            Option::Some(j) => j,
            Option::None => {
                return Result::Err(TaskError::TaskNotFound);
            },
        };
        let rec = &mut self.records[idx];
        rec.close_logs(now);
        rec.active = Option::None;
        rec.task.status = Status::Completed;
        rec.task.completed_at = Option::Some(now);
        self.clock = now;
        proof {
            let prev = *old(self);
            let cur = *self;
            assert(completed_rec(prev.recs()[idx as int], cur.recs()[idx as int], now));
            assert(prev.recs()[idx as int].wf(prev.clock));
            assert forall|i: int|
                #![trigger prev.recs()[idx as int].logs@[i]]
                0 <= i < prev.recs()[idx as int].logs@.len()
                    && prev.recs()[idx as int].logs@[i].ended_at is None
                implies prev.recs()[idx as int].logs@[i].started_at <= now by {
                assert(prev.recs()[idx as int].log_at_wf(i, prev.clock));
            }
            crate::model::lemma_closed_rec_wf(
                prev.recs()[idx as int],
                cur.recs()[idx as int],
                now,
                now,
                prev.clock,
            );
            assert forall|j: int| 0 <= j < cur.recs().len() implies #[trigger] rec_evolved(
                prev.recs()[j],
                cur.recs()[j],
                cur,
            ) by {
                if j != idx {
                    assert(cur.recs()[j] == prev.recs()[j]);
                } else {
                    assert(crate::store::rec_session_ids_below(prev.recs()[j], prev.next_session_id));
                    assert(crate::store::rec_log_ids_below(prev.recs()[j], prev.next_log_id));
                    assert forall|i: int| 0 <= i < cur.recs()[j].logs@.len()
                        implies #[trigger] cur.recs()[j].logs@[i].id < cur.next_log_id by {
                        assert(cur.recs()[j].logs@[i] == crate::model::close_log(
                            prev.recs()[j].logs@[i],
                            now,
                        ));
                        assert(prev.recs()[j].logs@[i].id < prev.next_log_id);
                    }
                }
            }
            lemma_single_active_preserved(prev, cur);
            lemma_store_evolve_wf(prev, cur);
            assert forall|j: int| 0 <= j < prev.recs().len()
                implies #[trigger] completed_store_rec(
                prev.recs()[j],
                cur.recs()[j],
                task_id,
                now,
            ) by {
                if j != idx && prev.recs()[j].task.id == task_id {
                    lemma_task_id_unique(prev, j, idx as int);
                }
            }
        }
        Result::Ok(())
    }

    /// Result `start_task` owes for this store: the task must exist, must not
    /// already hold an open time log, and no other task may be running unless
    /// `force` is given.
    pub open spec fn start_outcome(&self, task_id: i64, force: bool) -> Result<(), TaskError> {
        if !self.contains_task(task_id) {
            Result::Err(TaskError::TaskNotFound)
        } else if self.task_has_open_log(task_id) {
            Result::Err(TaskError::TaskAlreadyActive)
        } else if self.another_running(task_id) && !force {
            Result::Err(TaskError::OnlyOneTaskAtATime)
        } else {
            Result::Ok(())
        }
    }

    /// Result `resume_task` owes for this store: the task must exist, be
    /// paused, and nothing else may be running.
    pub open spec fn resume_outcome(&self, task_id: i64) -> Result<(), TaskError> {
        if !self.contains_task(task_id) {
            Result::Err(TaskError::TaskNotFound)
        } else if !self.task_is_paused(task_id) {
            Result::Err(TaskError::TaskNotPaused)
        } else if self.another_running(task_id) {
            Result::Err(TaskError::OnlyOneTaskAtATime)
        } else if self.task_has_active(task_id) {
            Result::Err(TaskError::TaskAlreadyHasActiveSession)
        } else {
            Result::Ok(())
        }
    }

    /// Start the task at `now`: when another task is running and `force` is
    /// given, every such task is forcibly paused first; then the task's next
    /// session is resolved and started (generating the template on first
    /// need, stamping the task's first activation, opening a time log for a
    /// work session), or the task is completed when its cycle is consumed.
    pub fn start_task(&mut self, task_id: i64, force: bool, now: i64) -> (r: Result<
        (),
        TaskError,
    >)
        requires
            old(self).wf(),
            old(self).has_id_room(),
            valid_instant(now),
            now >= old(self).clock,
        ensures
            final(self).wf(),
            r == old(self).start_outcome(task_id, force),
            r is Err ==> *final(self) == *old(self),
            r is Ok ==> {
                &&& final(self).recs().len() == old(self).recs().len()
                &&& forall|j: int|
                    #![trigger final(self).recs()[j]]
                    #![trigger started_store_rec(old(self).recs()[j], final(self).recs()[j], task_id, now, old(self).next_session_id, old(self).next_log_id)]
                    0 <= j < old(self).recs().len() ==> started_store_rec(
                        old(self).recs()[j],
                        final(self).recs()[j],
                        task_id,
                        now,
                        old(self).next_session_id,
                        old(self).next_log_id,
                    )
                &&& final(self).next_task_id == old(self).next_task_id
                &&& exists|j0: int|
                    0 <= j0 < old(self).recs().len() && #[trigger] old(self).recs()[j0].task.id
                        == task_id && final(self).next_session_id == old(self).next_session_id + (
                    if old(self).recs()[j0].sessions@.len() == 0 {
                        SESSION_COUNT as int
                    } else {
                        0int
                    }) && final(self).next_log_id == old(self).next_log_id + (
                    if target_opens_work(
                        old(self).recs()[j0],
                        old(self).next_session_id,
                        now,
                    ) {
                        1int
                    } else {
                        0int
                    })
                &&& final(self).clock == now
            },
    {
        let ghost prev = *old(self);
        let idx = match self.find_index(task_id) {
            Option::Some(j) => j,
            Option::None => {
                return Result::Err(TaskError::TaskNotFound);
            },
        };
        if self.records[idx].has_open_log_row() {
            return Result::Err(TaskError::TaskAlreadyActive);
        }
        proof {
            if prev.task_has_open_log(task_id) {
                let j = choose|j: int|
                    0 <= j < prev.recs().len() && prev.recs()[j].task.id == task_id
                        && has_open_log(prev.recs()[j].logs@);
                lemma_task_id_unique(prev, j, idx as int);
            }
        }
        let others = self.any_other_running(task_id);
        if others && !force {
            return Result::Err(TaskError::OnlyOneTaskAtATime);
        }
        if others {
            let len = self.records.len();
            let mut j: usize = 0;
            while j < len
                invariant
                    prev.wf(),
                    valid_instant(now),
                    now >= prev.clock,
                    j <= len,
                    idx < len,
                    len == prev.recs().len(),
                    self.recs().len() == len,
                    self.next_task_id == prev.next_task_id,
                    self.next_session_id == prev.next_session_id,
                    self.next_log_id == prev.next_log_id,
                    self.clock == prev.clock,
                    forall|k: int|
                        0 <= k < j && k != idx && is_active_status(prev.recs()[k].task.status)
                            ==> paused_rec(prev.recs()[k], #[trigger] self.recs()[k], now),
                    forall|k: int|
                        0 <= k < j && !(k != idx && is_active_status(prev.recs()[k].task.status))
                            ==> #[trigger] self.recs()[k] == prev.recs()[k],
                    forall|k: int| j <= k < len ==> #[trigger] self.recs()[k] == prev.recs()[k],
                decreases len - j,
            {
                if j != idx && is_running_status(self.records[j].task.status) {
                    let rec = &mut self.records[j];
                    rec.close_logs(now);
                    rec.active = Option::None;
                    rec.task.status = Status::Paused;
                }
                j += 1;
            }
        }
        let ghost mid = *self;
        proof {
            assert(mid.recs()[idx as int] == prev.recs()[idx as int]);
            assert(prev.recs()[idx as int].wf(prev.clock));
            assert(rec_log_ids_below(prev.recs()[idx as int], prev.next_log_id));
            assert(rec_session_ids_below(prev.recs()[idx as int], prev.next_session_id));
        }
        self.activate_target(idx, now, true, Ghost(prev.clock));
        self.clock = now;
        proof {
            let cur = *self;
            let o_target = prev.recs()[idx as int];
            assert(begun_target_rec(
                o_target,
                cur.recs()[idx as int],
                now,
                prev.next_session_id,
                prev.next_log_id,
                true,
            ));
            assert forall|j: int| 0 <= j < prev.recs().len() implies #[trigger] started_store_rec(
                prev.recs()[j],
                cur.recs()[j],
                task_id,
                now,
                prev.next_session_id,
                prev.next_log_id,
            ) by {
                if j != idx {
                    assert(cur.recs()[j] == mid.recs()[j]);
                    if prev.recs()[j].task.id == task_id {
                        lemma_task_id_unique(prev, j, idx as int);
                    }
                    if is_active_status(prev.recs()[j].task.status) {
                        assert(prev.another_running(task_id));
                        assert(paused_rec(prev.recs()[j], mid.recs()[j], now));
                    } else {
                        assert(mid.recs()[j] == prev.recs()[j]);
                    }
                }
            }
            assert forall|j: int| 0 <= j < cur.recs().len() implies #[trigger] rec_evolved(
                prev.recs()[j],
                cur.recs()[j],
                cur,
            ) by {
                if j == idx {
                } else if is_active_status(prev.recs()[j].task.status) {
                    assert(paused_rec(prev.recs()[j], cur.recs()[j], now));
                    assert(prev.recs()[j].wf(prev.clock));
                    assert forall|i: int|
                        #![trigger prev.recs()[j].logs@[i]]
                        0 <= i < prev.recs()[j].logs@.len() && prev.recs()[j].logs@[i].ended_at
                            is None implies prev.recs()[j].logs@[i].started_at <= now by {
                        assert(prev.recs()[j].log_at_wf(i, prev.clock));
                    }
                    crate::model::lemma_closed_rec_wf(
                        prev.recs()[j],
                        cur.recs()[j],
                        now,
                        now,
                        prev.clock,
                    );
                    assert(rec_log_ids_below(prev.recs()[j], prev.next_log_id));
                    assert forall|i: int| 0 <= i < cur.recs()[j].logs@.len()
                        implies #[trigger] cur.recs()[j].logs@[i].id < cur.next_log_id by {
                        assert(cur.recs()[j].logs@[i] == crate::model::close_log(
                            prev.recs()[j].logs@[i],
                            now,
                        ));
                        assert(prev.recs()[j].logs@[i].id < prev.next_log_id);
                    }
                    assert(rec_session_ids_below(prev.recs()[j], prev.next_session_id));
                } else {
                    assert(cur.recs()[j] == prev.recs()[j]);
                }
            }
            assert forall|j: int, k: int|
                #![trigger cur.recs()[j].task.status, cur.recs()[k].task.status]
                0 <= j < k < cur.recs().len() implies !(is_active_status(
                cur.recs()[j].task.status,
            ) && is_active_status(cur.recs()[k].task.status)) by {
                if is_active_status(cur.recs()[j].task.status) && is_active_status(
                    cur.recs()[k].task.status,
                ) {
                    if j != idx {
                        assert(!is_active_status(cur.recs()[j].task.status));
                    }
                    if k != idx {
                        assert(!is_active_status(cur.recs()[k].task.status));
                    }
                }
            }
            lemma_store_evolve_wf(prev, cur);
            if prev.task_has_open_log(task_id) {
                let j = choose|j: int|
                    0 <= j < prev.recs().len() && prev.recs()[j].task.id == task_id
                        && has_open_log(prev.recs()[j].logs@);
                lemma_task_id_unique(prev, j, idx as int);
            }
        }
        Result::Ok(())
    }

    /// Resume a paused task at `now`: its next session is resolved and
    /// started exactly as in `start_task`, except that the task's first
    /// activation stamp is left as it is.
    pub fn resume_task(&mut self, task_id: i64, now: i64) -> (r: Result<(), TaskError>)
        requires
            old(self).wf(),
            old(self).has_id_room(),
            valid_instant(now),
            now >= old(self).clock,
        ensures
            final(self).wf(),
            r == old(self).resume_outcome(task_id),
            r is Err ==> *final(self) == *old(self),
            r is Ok ==> {
                &&& final(self).recs().len() == old(self).recs().len()
                &&& forall|j: int|
                    #![trigger final(self).recs()[j]]
                    #![trigger resumed_store_rec(old(self).recs()[j], final(self).recs()[j], task_id, now, old(self).next_session_id, old(self).next_log_id)]
                    0 <= j < old(self).recs().len() ==> resumed_store_rec(
                        old(self).recs()[j],
                        final(self).recs()[j],
                        task_id,
                        now,
                        old(self).next_session_id,
                        old(self).next_log_id,
                    )
                &&& final(self).next_task_id == old(self).next_task_id
                &&& exists|j0: int|
                    0 <= j0 < old(self).recs().len() && #[trigger] old(self).recs()[j0].task.id
                        == task_id && final(self).next_session_id == old(self).next_session_id + (
                    if old(self).recs()[j0].sessions@.len() == 0 {
                        SESSION_COUNT as int
                    } else {
                        0int
                    }) && final(self).next_log_id == old(self).next_log_id + (
                    if target_opens_work(
                        old(self).recs()[j0],
                        old(self).next_session_id,
                        now,
                    ) {
                        1int
                    } else {
                        0int
                    })
                &&& final(self).clock == now
            },
    {
        let ghost prev = *old(self);
        let idx = match self.find_index(task_id) {
            Option::Some(j) => j,
            Option::None => {
                return Result::Err(TaskError::TaskNotFound);
            },
        };
        if !matches!(self.records[idx].task.status, Status::Paused) {
            proof {
                if prev.task_is_paused(task_id) {
                    let j = choose|j: int|
                        0 <= j < prev.recs().len() && prev.recs()[j].task.id == task_id
                            && prev.recs()[j].task.status == Status::Paused;
                    lemma_task_id_unique(prev, j, idx as int);
                }
            }
            return Result::Err(TaskError::TaskNotPaused);
        }
        if self.any_other_running(task_id) {
            return Result::Err(TaskError::OnlyOneTaskAtATime);
        }
        if self.records[idx].active.is_some() {
            return Result::Err(TaskError::TaskAlreadyHasActiveSession);
        }
        proof {
            if prev.task_has_active(task_id) {
                let j = choose|j: int|
                    0 <= j < prev.recs().len() && prev.recs()[j].task.id == task_id
                        && prev.recs()[j].active is Some;
                lemma_task_id_unique(prev, j, idx as int);
            }
            assert(prev.recs()[idx as int].wf(prev.clock));
            assert(!has_open_log(prev.recs()[idx as int].logs@));
            assert(rec_log_ids_below(prev.recs()[idx as int], prev.next_log_id));
            assert(rec_session_ids_below(prev.recs()[idx as int], prev.next_session_id));
        }
        self.activate_target(idx, now, false, Ghost(prev.clock));
        self.clock = now;
        proof {
            let cur = *self;
            assert forall|j: int| 0 <= j < prev.recs().len() implies #[trigger] resumed_store_rec(
                prev.recs()[j],
                cur.recs()[j],
                task_id,
                now,
                prev.next_session_id,
                prev.next_log_id,
            ) by {
                if j != idx {
                    assert(cur.recs()[j] == prev.recs()[j]);
                    if prev.recs()[j].task.id == task_id {
                        lemma_task_id_unique(prev, j, idx as int);
                    }
                }
            }
            assert forall|j: int| 0 <= j < cur.recs().len() implies #[trigger] rec_evolved(
                prev.recs()[j],
                cur.recs()[j],
                cur,
            ) by {
                if j != idx {
                    assert(cur.recs()[j] == prev.recs()[j]);
                }
            }
            assert forall|j: int, k: int|
                #![trigger cur.recs()[j].task.status, cur.recs()[k].task.status]
                0 <= j < k < cur.recs().len() implies !(is_active_status(
                cur.recs()[j].task.status,
            ) && is_active_status(cur.recs()[k].task.status)) by {
                if is_active_status(cur.recs()[j].task.status) && is_active_status(
                    cur.recs()[k].task.status,
                ) {
                    if j != idx {
                        assert(cur.recs()[j] == prev.recs()[j]);
                        assert(prev.recs()[j].task.id != task_id) by {
                            if prev.recs()[j].task.id == task_id {
                                lemma_task_id_unique(prev, j, idx as int);
                            }
                        }
                        assert(!prev.another_running(task_id));
                        assert(!is_active_status(cur.recs()[j].task.status));
                    }
                    if k != idx {
                        assert(cur.recs()[k] == prev.recs()[k]);
                        assert(prev.recs()[k].task.id != task_id) by {
                            if prev.recs()[k].task.id == task_id {
                                lemma_task_id_unique(prev, k, idx as int);
                            }
                        }
                        assert(!is_active_status(cur.recs()[k].task.status));
                    }
                }
            }
            lemma_store_evolve_wf(prev, cur);
        }
        Result::Ok(())
    }

    /// Remove the task and, with it, all its sessions, time logs and any
    /// active-session row.
    pub fn delete_task(&mut self, task_id: i64) -> (r: Result<(), TaskError>)
        requires
            old(self).wf(),
        ensures
            final(self).wf(),
            r == (if old(self).contains_task(task_id) {
                Result::<(), TaskError>::Ok(())
            } else {
                Result::<(), TaskError>::Err(TaskError::TaskNotFound)
            }),
            r is Err ==> *final(self) == *old(self),
            r is Ok ==> {
                &&& final(self).next_task_id == old(self).next_task_id
                &&& final(self).next_session_id == old(self).next_session_id
                &&& final(self).next_log_id == old(self).next_log_id
                &&& final(self).clock == old(self).clock
                &&& exists|j: int|
                    0 <= j < old(self).recs().len() && #[trigger] old(self).recs()[j].task.id
                        == task_id && final(self).recs() == old(self).recs().remove(j)
            },
    {
        let idx = match self.find_index(task_id) {
            Option::Some(j) => j,
            Option::None => {
                return Result::Err(TaskError::TaskNotFound);
            },
        };
        self.records.remove(idx);
        proof {
            let prev = *old(self);
            let cur = *self;
            assert(cur.recs() =~= prev.recs().remove(idx as int));
            assert forall|j: int| 0 <= j < cur.recs().len() implies {
                &&& #[trigger] cur.recs()[j].wf(cur.clock)
                &&& cur.recs()[j] == (if j < idx {
                    prev.recs()[j]
                } else {
                    prev.recs()[j + 1]
                })
            } by {
                if j < idx {
                    assert(prev.recs()[j].wf(prev.clock));
                } else {
                    assert(prev.recs()[j + 1].wf(prev.clock));
                }
            }
        }
        Result::Ok(())
    }
}

} // verus!
