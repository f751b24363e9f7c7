//! The session advancement engine: polled with an injected "now", it detects
//! running sessions whose duration has elapsed and moves each affected task
//! to its next session or to completion. Safe to poll at arbitrary intervals;
//! a poll that finds nothing due changes no record.

use vstd::prelude::*;
use crate::model::{
    close_open_logs, has_open_log, is_active_status, kind_status, valid_instant, ActiveSession,
    SessionKind, Status, Task, TaskRecord, TaskTimeLog, WORK_SECONDS,
};
use crate::sessions::{begun_target_rec, target_opens_work};
use crate::store::{
    lemma_single_active_preserved, lemma_store_evolve_wf, rec_evolved, rec_log_ids_below,
    rec_session_ids_below, Store,
};

verus! {

/// The record's running session has elapsed at `now`.
pub open spec fn due(rec: TaskRecord, now: i64) -> bool {
    match rec.active {
        Option::Some(a) => now - a.started_at >= rec.sessions@[rec.next_session - 1].duration_seconds,
        Option::None => false,
    }
}

/// Instant the record's running session nominally ends: its start plus its
/// duration, independent of when the poll happens to run.
pub open spec fn nominal_end(rec: TaskRecord) -> int {
    rec.active->Some_0.started_at + rec.sessions@[rec.next_session - 1].duration_seconds
}

/// Advancing this record at `now` starts a work session (and so opens a log).
pub open spec fn advance_opens_work(rec: TaskRecord, now: i64) -> bool {
    due(rec, now) && rec.next_session < rec.sessions@.len()
        && rec.sessions@[rec.next_session as int].kind == SessionKind::Work
}

/// The record transform of one automatic advancement at `now`: the elapsed
/// work session's open log (if a manual pause has not closed it already) is
/// closed at the session's nominal end; then the next session starts at `now`
/// (opening a log under `log_id` if it is work, stamping the task's first
/// activation), or the task is completed when the cycle is consumed.
pub open spec fn advanced_rec_rel(o: TaskRecord, n: TaskRecord, now: i64, log_id: int) -> bool {
    let k = o.next_session as int;
    let elapsed_kind = o.sessions@[k - 1].kind;
    let closed = if elapsed_kind == SessionKind::Work && has_open_log(o.logs@) {
        close_open_logs(o.logs@, nominal_end(o) as i64)
    } else {
        o.logs@
    };
    if k < o.sessions@.len() {
        let s = o.sessions@[k];
        &&& n.sessions@ == o.sessions@
        &&& n.next_session == k + 1
        &&& n.active == Option::Some(
            ActiveSession { task_id: o.task.id, pomodoro_id: s.id, started_at: now },
        )
        &&& n.task == (Task {
            status: kind_status(s.kind),
            started_at: if o.task.started_at is None {
                Option::Some(now)
            } else {
                o.task.started_at
            },
            ..o.task
        })
        &&& n.logs@ == (if s.kind == SessionKind::Work {
            closed.push(
                TaskTimeLog {
                    id: log_id as i64,
                    task_id: o.task.id,
                    started_at: now,
                    ended_at: Option::None,
                },
            )
        } else {
            closed
        })
    } else {
        &&& n.sessions@ == o.sessions@
        &&& n.next_session == k
        &&& n.active is None
        &&& n.task == (Task {
            status: Status::Completed,
            completed_at: Option::Some(now),
            ..o.task
        })
        &&& n.logs@ == closed
    }
}

/// Pointwise shape of the records after one poll: due records advance, the
/// rest are untouched.
pub open spec fn advanced_store_rec(o: TaskRecord, n: TaskRecord, now: i64, log_id: int) -> bool {
    if due(o, now) {
        advanced_rec_rel(o, n, now, log_id)
    } else {
        n == o
    }
}

/// How many records of `recs` advance into a work session at `now` (each of
/// them consumes one fresh log id).
pub open spec fn due_work_count(recs: Seq<TaskRecord>, now: i64) -> int
    decreases recs.len(),
{
    if recs.len() == 0 {
        0
    } else {
        due_work_count(recs.drop_last(), now) + (if advance_opens_work(recs.last(), now) {
            1int
        } else {
            0int
        })
    }
}

/// The task ids of the records that are due at `now`, in record order.
pub open spec fn due_ids(recs: Seq<TaskRecord>, now: i64) -> Seq<i64>
    decreases recs.len(),
{
    if recs.len() == 0 {
        Seq::empty()
    } else {
        due_ids(recs.drop_last(), now) + (if due(recs.last(), now) {
            seq![recs.last().task.id]
        } else {
            Seq::<i64>::empty()
        })
    }
}

/// One step of the prefix counters used while scanning the records.
proof fn lemma_prefix_step(recs: Seq<TaskRecord>, now: i64, j: int)
    requires
        0 <= j < recs.len(),
    ensures
        due_work_count(recs.take(j + 1), now) == due_work_count(recs.take(j), now) + (
        if advance_opens_work(recs[j], now) {
            1int
        } else {
            0int
        }),
        due_ids(recs.take(j + 1), now) == due_ids(recs.take(j), now) + (if due(recs[j], now) {
            seq![recs[j].task.id]
        } else {
            Seq::<i64>::empty()
        }),
{
    assert(recs.take(j + 1).drop_last() =~= recs.take(j));
    assert(recs.take(j + 1).last() == recs[j]);
}

/// The number of fresh log ids a poll consumes is at most the number of
/// records scanned.
proof fn lemma_due_work_count_bound(recs: Seq<TaskRecord>, now: i64)
    ensures
        0 <= due_work_count(recs, now) <= recs.len(),
    decreases recs.len(),
{
    if recs.len() > 0 {
        lemma_due_work_count_bound(recs.drop_last(), now);
    }
}

/// Task ids strictly increase along the records, so the record at position
/// `j` carries an id of at least `j + 1`.
proof fn lemma_task_id_floor(s: Store, j: int)
    requires
        s.wf(),
        0 <= j < s.recs().len(),
    ensures
        s.recs()[j].task.id >= j + 1,
    decreases j,
{
    assert(s.recs()[j].wf(s.clock));
    if j > 0 {
        lemma_task_id_floor(s, j - 1);
        assert(s.recs()[j - 1].task.id < s.recs()[j].task.id);
    }
}

/// A well-formed store holds fewer records than its task-id counter.
pub proof fn lemma_record_count_bound(s: Store)
    requires
        s.wf(),
    ensures
        s.recs().len() < s.next_task_id,
{
    if s.recs().len() > 0 {
        let last = s.recs().len() - 1;
        lemma_task_id_floor(s, last);
        assert(s.recs()[last].task.id < s.next_task_id);
    }
}

/// Everything one poll of the advancement engine at `now` does to the store:
/// due records advance pointwise, `ids` collects the due task ids in record
/// order, the log-id counter moves by the number of work sessions opened, and
/// the clock moves to `now`.
pub open spec fn poll_rel(prev: Store, cur: Store, ids: Seq<i64>, now: i64) -> bool {
    &&& cur.recs().len() == prev.recs().len()
    &&& forall|j: int|
        #![trigger cur.recs()[j]]
        #![trigger advanced_store_rec(prev.recs()[j], cur.recs()[j], now, prev.next_log_id + due_work_count(prev.recs().take(j), now))]
        0 <= j < prev.recs().len() ==> advanced_store_rec(
            prev.recs()[j],
            cur.recs()[j],
            now,
            prev.next_log_id + due_work_count(prev.recs().take(j), now),
        )
    &&& ids == due_ids(prev.recs(), now)
    &&& cur.next_task_id == prev.next_task_id
    &&& cur.next_session_id == prev.next_session_id
    &&& cur.next_log_id == prev.next_log_id + due_work_count(prev.recs(), now)
    &&& cur.clock == now
}

impl Store {
    /// One poll of the advancement engine at `now`: every task whose running
    /// session has elapsed advances to its next session (or completes), and
    /// the ids of the advanced tasks are returned in record order. A poll
    /// that finds nothing due leaves every record as it was.
    pub fn check_pomodoro_sessions(&mut self, now: i64) -> (r: Vec<i64>)
        requires
            old(self).wf(),
            old(self).has_id_room(),
            valid_instant(now),
            now >= old(self).clock,
        ensures
            final(self).wf(),
            poll_rel(*old(self), *final(self), r@, now),
    {
        let ghost prev = *old(self);
        proof {
            lemma_record_count_bound(prev);
        }
        let mut advanced: Vec<i64> = Vec::new();
        let len = self.records.len();
        let mut j: usize = 0;
        while j < len
            invariant
                prev.wf(),
                prev.has_id_room(),
                valid_instant(now),
                now >= prev.clock,
                j <= len,
                len == prev.recs().len(),
                len < prev.next_task_id,
                self.recs().len() == len,
                self.next_task_id == prev.next_task_id,
                self.next_session_id == prev.next_session_id,
                self.clock == prev.clock,
                self.next_log_id == prev.next_log_id + due_work_count(
                    prev.recs().take(j as int),
                    now,
                ),
                advanced@ == due_ids(prev.recs().take(j as int), now),
                forall|k: int| j <= k < len ==> #[trigger] self.recs()[k] == prev.recs()[k],
                forall|k: int|
                    0 <= k < j ==> #[trigger] advanced_store_rec(
                        prev.recs()[k],
                        self.recs()[k],
                        now,
                        prev.next_log_id + due_work_count(prev.recs().take(k), now),
                    ),
                forall|k: int|
                    0 <= k < j && due(prev.recs()[k], now) ==> (#[trigger] self.recs()[k]).wf(now)
                        && rec_log_ids_below(self.recs()[k], self.next_log_id)
                        && rec_session_ids_below(self.recs()[k], self.next_session_id),
            decreases len - j,
        {
            proof {
                lemma_due_work_count_bound(prev.recs().take(j as int), now);
                assert(prev.recs().take(j as int).len() == j as int);
                lemma_prefix_step(prev.recs(), now, j as int);
                assert(self.recs()[j as int] == prev.recs()[j as int]);
                assert(prev.recs()[j as int].wf(prev.clock));
            }
            let is_due = match self.records[j].active {
                Option::Some(a) => {
                    let cursor = self.records[j].next_session;
                    let elapsed_session = self.records[j].sessions[cursor - 1];
                    now - a.started_at >= elapsed_session.duration_seconds
                },
                Option::None => false,
            };
            if is_due {
                let ghost orig = self.recs()[j as int];
                let task_id = self.records[j].task.id;
                let a = self.records[j].active.unwrap();
                let cursor = self.records[j].next_session;
                let elapsed_session = self.records[j].sessions[cursor - 1];
                proof {
                    assert(orig.session_at_wf(cursor - 1, prev.clock));
                    assert(elapsed_session.duration_seconds <= WORK_SECONDS);
                    assert(elapsed_session.duration_seconds >= 0) by {
                        assert(elapsed_session.duration_seconds
                            == crate::model::template_duration(cursor - 1));
                    }
                }
                // Close the elapsed work session's log at its nominal end,
                // unless a manual pause has closed it already.
                if matches!(elapsed_session.kind, SessionKind::Work) {
                    if self.records[j].has_open_log_row() {
                        let end_at = a.started_at + elapsed_session.duration_seconds;
                        let rec = &mut self.records[j];
                        rec.close_logs(end_at);
                    }
                }
                {
                    let rec = &mut self.records[j];
                    rec.active = Option::None;
                    rec.task.status = Status::Paused;
                }
                let ghost mid = self.recs()[j as int];
                let ghost end_at = (nominal_end(orig)) as i64;
                proof {
                    if elapsed_session.kind == SessionKind::Work && has_open_log(orig.logs@) {
                        assert(mid.logs@ == close_open_logs(orig.logs@, end_at));
                    } else {
                        assert(mid.logs@ == orig.logs@);
                        assert(mid.logs@ =~= close_open_logs(orig.logs@, end_at)) by {
                            assert forall|i: int| 0 <= i < orig.logs@.len()
                                implies orig.logs@[i] == crate::model::close_log(
                                orig.logs@[i],
                                end_at,
                            ) by {
                                if orig.logs@[i].ended_at is None {
                                    assert(has_open_log(orig.logs@));
                                }
                            }
                        }
                    }
                    assert forall|i: int|
                        #![trigger orig.logs@[i]]
                        0 <= i < orig.logs@.len() && orig.logs@[i].ended_at is None
                        implies orig.logs@[i].started_at <= end_at by {
                        assert(orig.logs@[i].started_at == a.started_at);
                    }
                    crate::model::lemma_closed_rec_wf(orig, mid, end_at, now, prev.clock);
                    assert(rec_log_ids_below(orig, prev.next_log_id));
                    assert(rec_log_ids_below(mid, self.next_log_id)) by {
                        assert forall|i: int| 0 <= i < mid.logs@.len()
                            implies #[trigger] mid.logs@[i].id < self.next_log_id by {
                            assert(mid.logs@[i] == crate::model::close_log(orig.logs@[i], end_at));
                            assert(orig.logs@[i].id < prev.next_log_id);
                        }
                    }
                    assert(rec_session_ids_below(mid, self.next_session_id)) by {
                        assert(rec_session_ids_below(orig, prev.next_session_id));
                    }
                }
                let log_id = self.next_log_id;
                self.activate_target(j, now, true, Ghost(now));
                proof {
                    let fin = self.recs()[j as int];
                    assert(begun_target_rec(mid, fin, now, self.next_session_id, log_id, true));
                    assert(crate::sessions::ensured_sessions(mid, self.next_session_id, now)
                        == orig.sessions@);
                    let k = orig.next_session as int;
                    if k < orig.sessions@.len() {
                        assert(fin.task == (Task {
                            status: kind_status(orig.sessions@[k].kind),
                            started_at: if orig.task.started_at is None {
                                Option::Some(now)
                            } else {
                                orig.task.started_at
                            },
                            ..orig.task
                        }));
                    } else {
                        assert(crate::model::completed_rec(mid, fin, now));
                        assert(fin.logs@ =~= mid.logs@) by {
                            assert(!has_open_log(mid.logs@));
                            assert forall|i: int| 0 <= i < mid.logs@.len()
                                implies mid.logs@[i] == crate::model::close_log(
                                mid.logs@[i],
                                now,
                            ) by {
                                if mid.logs@[i].ended_at is None {
                                    assert(has_open_log(mid.logs@));
                                }
                            }
                        }
                    }
                    assert(advanced_rec_rel(
                        orig,
                        fin,
                        now,
                        prev.next_log_id + due_work_count(prev.recs().take(j as int), now),
                    ));
                    assert(target_opens_work(mid, self.next_session_id, now)
                        == advance_opens_work(orig, now));
                }
                advanced.push(task_id);
            }
            j += 1;
            proof {
                assert(advanced@ =~= due_ids(prev.recs().take(j as int), now));
            }
        }
        self.clock = now;
        proof {
            let cur = *self;
            assert(prev.recs().take(len as int) =~= prev.recs());
            lemma_due_work_count_bound(prev.recs(), now);
            assert forall|j2: int| 0 <= j2 < cur.recs().len() implies #[trigger] rec_evolved(
                prev.recs()[j2],
                cur.recs()[j2],
                cur,
            ) by {
                assert(advanced_store_rec(
                    prev.recs()[j2],
                    cur.recs()[j2],
                    now,
                    prev.next_log_id + due_work_count(prev.recs().take(j2), now),
                ));
                if due(prev.recs()[j2], now) {
                    assert(cur.recs()[j2].wf(now));
                } else {
                    assert(cur.recs()[j2] == prev.recs()[j2]);
                }
            }
            assert forall|j2: int|
                0 <= j2 < cur.recs().len() && is_active_status(
                    #[trigger] cur.recs()[j2].task.status,
                ) implies is_active_status(prev.recs()[j2].task.status) by {
                assert(advanced_store_rec(
                    prev.recs()[j2],
                    cur.recs()[j2],
                    now,
                    prev.next_log_id + due_work_count(prev.recs().take(j2), now),
                ));
                if due(prev.recs()[j2], now) {
                    assert(prev.recs()[j2].wf(prev.clock));
                    assert(is_active_status(prev.recs()[j2].task.status));
                }
            }
            lemma_single_active_preserved(prev, cur);
            lemma_store_evolve_wf(prev, cur);
        }
        advanced
    }
}

} // verus!
