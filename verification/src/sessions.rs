//! Session template generation and the shared "start the next session" step
//! used by starting, resuming and automatic advancement.

use vstd::prelude::*;
use crate::model::{
    has_open_log, kind_status, lemma_rec_wf_clock_mono, template_kind_at, template_duration_at,
    template_session, template_sessions, valid_instant, ActiveSession, PomodoroSession,
    SessionKind, Status, Task, TaskError, TaskRecord, TaskTimeLog, ID_LIMIT, SESSION_COUNT,
};
use crate::store::rec_log_ids_below;

verus! {

/// Build the fixed eight-stage template for one task, with session ids
/// handed out contiguously from `first_sid`.
pub(crate) fn make_template(task_id: i64, first_sid: i64, now: i64) -> (v: Vec<PomodoroSession>)
    requires
        1 <= first_sid,
        first_sid < ID_LIMIT,
    ensures
        v@ == template_sessions(task_id, first_sid, now),
{
    let mut sessions: Vec<PomodoroSession> = Vec::new();
    let mut i: usize = 0;
    while i < SESSION_COUNT
        invariant
            i <= SESSION_COUNT,
            1 <= first_sid < ID_LIMIT,
            sessions@.len() == i,
            forall|k: int|
                0 <= k < i ==> #[trigger] sessions@[k] == template_session(
                    task_id,
                    first_sid,
                    now,
                    k,
                ),
        decreases SESSION_COUNT - i,
    {
        let s = PomodoroSession {
            id: first_sid + (i as i64),
            task_id,
            session_number: (i as i64) + 1,
            kind: template_kind_at(i),
            duration_seconds: template_duration_at(i),
            created_at: now,
        };
        sessions.push(s);
        i += 1;
    }
    assert(sessions@ =~= template_sessions(task_id, first_sid, now));
    sessions
}

/// The record after the next unconsumed session was started at `now`: the
/// cursor moves one step, the active-session row points at that session, the
/// status follows the session's kind, and a work session opens a fresh time
/// log under `log_id`. Stamps nothing else.
pub open spec fn begun_rec(o: TaskRecord, n: TaskRecord, now: i64, log_id: i64) -> bool {
    let k = o.next_session as int;
    let s = o.sessions@[k];
    &&& n.sessions@ == o.sessions@
    &&& n.next_session == k + 1
    &&& n.active == Option::Some(
        ActiveSession { task_id: o.task.id, pomodoro_id: s.id, started_at: now },
    )
    &&& n.task == (Task { status: kind_status(s.kind), ..o.task })
    &&& n.logs@ == (if s.kind == SessionKind::Work {
        o.logs@.push(
            TaskTimeLog {
                id: log_id,
                task_id: o.task.id,
                started_at: now,
                ended_at: Option::None,
            },
        )
    } else {
        o.logs@
    })
}

impl TaskRecord {
    /// Whether some time log of this record is still open.
    pub fn has_open_log_row(&self) -> (r: bool)
        ensures
            r == has_open_log(self.logs@),
    {
        let mut i: usize = 0;
        while i < self.logs.len()
            invariant
                i <= self.logs@.len(),
                forall|k: int| 0 <= k < i ==> !((#[trigger] self.logs@[k].ended_at) is None),
            decreases self.logs@.len() - i,
        {
            if self.logs[i].ended_at.is_none() {
                return true;
            }
            i += 1;
        }
        false
    }

    /// Generate the session template if this record has none yet; a second
    /// call is a no-op. Returns whether rows were generated.
    pub(crate) fn ensure_template(&mut self, now: i64, first_sid: i64) -> (generated: bool)
        requires
            1 <= first_sid,
            first_sid < ID_LIMIT,
        ensures
            generated == (old(self).sessions@.len() == 0),
            generated ==> {
                &&& final(self).sessions@ == template_sessions(old(self).task.id, first_sid, now)
                &&& final(self).task == old(self).task
                &&& final(self).logs == old(self).logs
                &&& final(self).active == old(self).active
                &&& final(self).next_session == old(self).next_session
            },
            !generated ==> *final(self) == *old(self),
    {
        if self.sessions.len() == 0 {
            self.sessions = make_template(self.task.id, first_sid, now);
            true
        } else {
            false
        }
    }

    /// Start the session the cursor points at, at instant `now`, opening a
    /// time log under `log_id` if it is a work session.
    pub(crate) fn begin_next(&mut self, now: i64, log_id: i64)
        requires
            old(self).next_session < old(self).sessions@.len(),
        ensures
            begun_rec(*old(self), *final(self), now, log_id),
    {
        let k = self.next_session;
        let len = self.sessions.len();
        assert(k < len);
        let s = self.sessions[k];
        self.active = Option::Some(
            ActiveSession { task_id: self.task.id, pomodoro_id: s.id, started_at: now },
        );
        self.next_session = k + 1;
        if s.kind == SessionKind::Work {
            self.task.status = Status::InProgress;
            self.logs.push(
                TaskTimeLog {
                    id: log_id,
                    task_id: self.task.id,
                    started_at: now,
                    ended_at: Option::None,
                },
            );
        } else {
            self.task.status = Status::Waiting;
        }
    }
}

/// The session sequence a record holds once its template is ensured at
/// instant `now` with fresh ids from `first_sid`.
pub open spec fn ensured_sessions(o: TaskRecord, first_sid: i64, now: i64)
    -> Seq<PomodoroSession> {
    if o.sessions@.len() == 0 {
        template_sessions(o.task.id, first_sid, now)
    } else {
        o.sessions@
    }
}

/// After ensuring the template, the record's cursor points at a session of
/// kind work (so starting it opens a time log).
pub open spec fn target_opens_work(o: TaskRecord, first_sid: i64, now: i64) -> bool {
    let ss = ensured_sessions(o, first_sid, now);
    let k = o.next_session as int;
    k < ss.len() && ss[k].kind == SessionKind::Work
}

/// The full record transform of "resolve and start the next session" at
/// `now`: ensure the template (ids from `first_sid`), then either begin the
/// session under the cursor (opening a log under `log_id` if it is work, and,
/// when `stamp` holds, stamping the task's first activation), or, when the
/// whole cycle is consumed, complete the task instead.
pub open spec fn begun_target_rec(
    o: TaskRecord,
    n: TaskRecord,
    now: i64,
    first_sid: i64,
    log_id: i64,
    stamp: bool,
) -> bool {
    let ss = ensured_sessions(o, first_sid, now);
    let k = o.next_session as int;
    if k < ss.len() {
        let s = ss[k];
        &&& n.sessions@ == ss
        &&& n.next_session == k + 1
        &&& n.active == Option::Some(
            ActiveSession { task_id: o.task.id, pomodoro_id: s.id, started_at: now },
        )
        &&& n.task == (Task {
            status: kind_status(s.kind),
            started_at: if stamp && o.task.started_at is None {
                Option::Some(now)
            } else {
                o.task.started_at
            },
            ..o.task
        })
        &&& n.logs@ == (if s.kind == SessionKind::Work {
            o.logs@.push(
                TaskTimeLog {
                    id: log_id,
                    task_id: o.task.id,
                    started_at: now,
                    ended_at: Option::None,
                },
            )
        } else {
            o.logs@
        })
    } else {
        crate::model::completed_rec(o, n, now)
    }
}

/// Generating the missing template keeps a record well-formed under the new
/// clock `now`.
pub proof fn lemma_template_rec_wf(o: TaskRecord, n: TaskRecord, now: i64, clock: i64, first_sid: i64)
    requires
        o.wf(clock),
        clock <= now,
        valid_instant(now),
        o.sessions@.len() == 0,
        1 <= first_sid,
        first_sid < ID_LIMIT,
        n.sessions@ == template_sessions(o.task.id, first_sid, now),
        n.task == o.task,
        n.logs == o.logs,
        n.active == o.active,
        n.next_session == o.next_session,
    ensures
        n.wf(now),
{
    lemma_rec_wf_clock_mono(o, clock, now);
    assert forall|i: int| 0 <= i < n.sessions@.len() implies #[trigger] n.session_at_wf(
        i,
        now,
    ) by {
        assert(n.sessions@[i] == template_session(o.task.id, first_sid, now, i));
        assert(n.sessions@[0] == template_session(o.task.id, first_sid, now, 0));
    }
    assert forall|i: int| 0 <= i < n.logs@.len() implies #[trigger] n.log_at_wf(i, now) by {
        assert(o.log_at_wf(i, now));
    }
    assert forall|i: int, j: int|
        #![trigger n.logs@[i].id, n.logs@[j].id]
        0 <= i < j < n.logs@.len() implies n.logs@[i].id < n.logs@[j].id by {
        assert(o.logs@[i].id < o.logs@[j].id);
    }
    assert(has_open_log(n.logs@) == has_open_log(o.logs@));
}

/// A record that had no open log and begins its next session at `now` stays
/// well-formed under the new clock `now`, provided the fresh log id is
/// positive and above every log id the record already holds, and the task's
/// start stamp is either kept or set now.
pub proof fn lemma_begun_rec_wf(
    o: TaskRecord,
    n: TaskRecord,
    m: TaskRecord,
    now: i64,
    clock: i64,
    log_id: i64,
)
    requires
        o.wf(clock),
        clock <= now,
        valid_instant(now),
        o.next_session < o.sessions@.len(),
        !has_open_log(o.logs@),
        begun_rec(o, n, now, log_id),
        1 <= log_id,
        rec_log_ids_below(o, log_id),
        m == n || m == (TaskRecord {
            task: Task { started_at: Option::Some(now), ..n.task },
            ..n
        }),
    ensures
        m.wf(now),
{
    lemma_rec_wf_clock_mono(o, clock, now);
    let k = o.next_session as int;
    let s = o.sessions@[k];
    assert(o.session_at_wf(k, now));
    assert forall|i: int| 0 <= i < m.sessions@.len() implies #[trigger] m.session_at_wf(
        i,
        now,
    ) by {
        assert(o.session_at_wf(i, now));
    }
    assert forall|i: int| 0 <= i < m.logs@.len() implies #[trigger] m.log_at_wf(i, now) by {
        if i < o.logs@.len() {
            assert(o.log_at_wf(i, now));
            assert(!(o.logs@[i].ended_at is None));
        }
    }
    assert forall|i: int, j: int|
        #![trigger m.logs@[i].id, m.logs@[j].id]
        0 <= i < j < m.logs@.len() implies m.logs@[i].id < m.logs@[j].id by {
        if j < o.logs@.len() {
            assert(o.logs@[i].id < o.logs@[j].id);
        } else {
            assert(o.logs@[i].id < log_id);
        }
    }
    if s.kind == SessionKind::Work {
        assert(has_open_log(m.logs@)) by {
            assert(m.logs@[m.logs@.len() - 1].ended_at is None);
        }
        assert forall|i: int|
            #![trigger m.logs@[i]]
            0 <= i < m.logs@.len() && m.logs@[i].ended_at is None
            implies m.logs@[i].started_at == now by {
            if i < o.logs@.len() {
                assert(!(o.logs@[i].ended_at is None));
            }
        }
    } else {
        assert(!has_open_log(m.logs@)) by {
            assert forall|i: int| 0 <= i < m.logs@.len() implies !(m.logs@[i].ended_at
                is None) by {
                assert(!(o.logs@[i].ended_at is None));
            }
        }
    }
}

/// Pointwise shape of the records after `ensure_sessions(task_id)` succeeds:
/// the target gains its fixed template if it had none, everything else is
/// untouched.
pub open spec fn ensured_store_rec(
    o: TaskRecord,
    n: TaskRecord,
    task_id: i64,
    first_sid: i64,
    now: i64,
) -> bool {
    if o.task.id == task_id && o.sessions@.len() == 0 {
        &&& n.sessions@ == template_sessions(o.task.id, first_sid, now)
        &&& n.task == o.task
        &&& n.logs == o.logs
        &&& n.active == o.active
        &&& n.next_session == o.next_session
    } else {
        n == o
    }
}

impl crate::store::Store {
    /// Generate the task's fixed session template if it has none yet.
    /// Idempotent: a second call, when the rows already exist, changes
    /// nothing at all.
    pub fn ensure_sessions(&mut self, task_id: i64, now: i64) -> (r: Result<(), TaskError>)
        requires
            old(self).wf(),
            old(self).has_id_room(),
            valid_instant(now),
            now >= old(self).clock,
        ensures
            final(self).wf(),
            r == (if old(self).contains_task(task_id) {
                Result::<(), TaskError>::Ok(())
            } else {
                Result::<(), TaskError>::Err(TaskError::TaskNotFound)
            }),
            r is Err ==> *final(self) == *old(self),
            r is Ok ==> {
                &&& final(self).recs().len() == old(self).recs().len()
                &&& forall|j: int|
                    #![trigger final(self).recs()[j]]
                    #![trigger ensured_store_rec(old(self).recs()[j], final(self).recs()[j], task_id, old(self).next_session_id, now)]
                    0 <= j < old(self).recs().len() ==> ensured_store_rec(
                        old(self).recs()[j],
                        final(self).recs()[j],
                        task_id,
                        old(self).next_session_id,
                        now,
                    )
                &&& final(self).next_task_id == old(self).next_task_id
                &&& final(self).next_log_id == old(self).next_log_id
                &&& exists|j0: int|
                    0 <= j0 < old(self).recs().len() && #[trigger] old(self).recs()[j0].task.id
                        == task_id && final(self).next_session_id == old(self).next_session_id + (
                    if old(self).recs()[j0].sessions@.len() == 0 {
                        SESSION_COUNT as int
                    } else {
                        0int
                    }) && final(self).clock == (if old(self).recs()[j0].sessions@.len() == 0 {
                        now
                    } else {
                        old(self).clock
                    })
            },
    {
        let ghost prev = *old(self);
        let idx = match self.find_index(task_id) {
            Option::Some(j) => j,
            Option::None => {
                return Result::Err(TaskError::TaskNotFound);
            },
        };
        let first_sid = self.next_session_id;
        let generated = {
            let rec = &mut self.records[idx];
            rec.ensure_template(now, first_sid)
        };
        if generated {
            self.next_session_id = first_sid + (SESSION_COUNT as i64);
            self.clock = now;
        }
        proof {
            let cur = *self;
            if generated {
                assert(prev.recs()[idx as int].wf(prev.clock));
                lemma_template_rec_wf(
                    prev.recs()[idx as int],
                    cur.recs()[idx as int],
                    now,
                    prev.clock,
                    first_sid,
                );
                assert forall|j: int| 0 <= j < cur.recs().len() implies #[trigger] crate::store::rec_evolved(
                    prev.recs()[j],
                    cur.recs()[j],
                    cur,
                ) by {
                    if j == idx {
                        assert(crate::store::rec_session_ids_below(
                            cur.recs()[j],
                            cur.next_session_id,
                        )) by {
                            assert(cur.recs()[j].sessions@[0] == template_session(
                                prev.recs()[j].task.id,
                                first_sid,
                                now,
                                0,
                            ));
                        }
                        assert(rec_log_ids_below(cur.recs()[j], cur.next_log_id)) by {
                            assert(rec_log_ids_below(prev.recs()[j], prev.next_log_id));
                        }
                    } else {
                        assert(cur.recs()[j] == prev.recs()[j]);
                    }
                }
                crate::store::lemma_single_active_preserved(prev, cur);
                crate::store::lemma_store_evolve_wf(prev, cur);
            } else {
                assert(cur.recs() =~= prev.recs());
                assert forall|j: int| 0 <= j < cur.recs().len() implies #[trigger] cur.recs()[j].wf(
                    cur.clock,
                ) by {
                    assert(prev.recs()[j].wf(prev.clock));
                }
            }
            assert forall|j: int| 0 <= j < prev.recs().len() implies #[trigger] ensured_store_rec(
                prev.recs()[j],
                cur.recs()[j],
                task_id,
                prev.next_session_id,
                now,
            ) by {
                if j != idx && prev.recs()[j].task.id == task_id {
                    crate::store::lemma_task_id_unique(prev, j, idx as int);
                }
            }
        }
        Result::Ok(())
    }

    /// Shared step of start, resume and advancement: ensure the target
    /// record's template, then start the session under its cursor (or
    /// complete the task when the cycle is consumed), handing out fresh ids
    /// from the store's counters. Leaves every other record and the clock
    /// untouched; `c` names a clock the target record is well-formed under.
    pub(crate) fn activate_target(
        &mut self,
        idx: usize,
        now: i64,
        stamp: bool,
        Ghost(c): Ghost<i64>,
    )
        requires
            idx < old(self).recs().len(),
            old(self).recs()[idx as int].wf(c),
            c <= now,
            valid_instant(now),
            !has_open_log(old(self).recs()[idx as int].logs@),
            1 <= old(self).next_session_id < ID_LIMIT,
            1 <= old(self).next_log_id < i64::MAX,
            rec_log_ids_below(old(self).recs()[idx as int], old(self).next_log_id),
            crate::store::rec_session_ids_below(
                old(self).recs()[idx as int],
                old(self).next_session_id,
            ),
        ensures
            final(self).recs().len() == old(self).recs().len(),
            forall|j: int|
                0 <= j < old(self).recs().len() && j != idx ==> #[trigger] final(self).recs()[j]
                    == old(self).recs()[j],
            begun_target_rec(
                old(self).recs()[idx as int],
                final(self).recs()[idx as int],
                now,
                old(self).next_session_id,
                old(self).next_log_id,
                stamp,
            ),
            final(self).recs()[idx as int].wf(now),
            crate::store::rec_session_ids_below(
                final(self).recs()[idx as int],
                final(self).next_session_id,
            ),
            rec_log_ids_below(final(self).recs()[idx as int], final(self).next_log_id),
            final(self).next_task_id == old(self).next_task_id,
            final(self).next_session_id == old(self).next_session_id + (
            if old(self).recs()[idx as int].sessions@.len() == 0 {
                SESSION_COUNT as int
            } else {
                0
            }),
            final(self).next_log_id == old(self).next_log_id + (
            if target_opens_work(old(self).recs()[idx as int], old(self).next_session_id, now) {
                1int
            } else {
                0int
            }),
            final(self).clock == old(self).clock,
    {
        let ghost orig = self.recs()[idx as int];
        let first_sid = self.next_session_id;
        let generated = {
            let rec = &mut self.records[idx];
            rec.ensure_template(now, first_sid)
        };
        if generated {
            self.next_session_id = first_sid + (SESSION_COUNT as i64);
        }
        proof {
            if generated {
                lemma_template_rec_wf(orig, self.recs()[idx as int], now, c, first_sid);
            } else {
                lemma_rec_wf_clock_mono(orig, c, now);
            }
            assert(self.recs()[idx as int].wf(now));
            assert(self.recs()[idx as int].sessions@ == ensured_sessions(orig, first_sid, now));
        }
        let ghost mid = self.recs()[idx as int];
        let k = self.records[idx].next_session;
        let n_sessions = self.records[idx].sessions.len();
        if k < n_sessions {
            let kind = self.records[idx].sessions[k].kind;
            let log_id = self.next_log_id;
            {
                let rec = &mut self.records[idx];
                rec.begin_next(now, log_id);
            }
            if kind == SessionKind::Work {
                self.next_log_id = log_id + 1;
            }
            let ghost unstamped = self.recs()[idx as int];
            if stamp {
                if self.records[idx].task.started_at.is_none() {
                    self.records[idx].task.started_at = Option::Some(now);
                }
            }
            proof {
                let fin = self.recs()[idx as int];
                lemma_begun_rec_wf(mid, unstamped, fin, now, now, log_id);
                assert(begun_target_rec(orig, fin, now, first_sid, log_id, stamp));
            }
        } else {
            {
                let rec = &mut self.records[idx];
                rec.close_logs(now);
                rec.active = Option::None;
                rec.task.status = Status::Completed;
                rec.task.completed_at = Option::Some(now);
            }
            proof {
                let fin = self.recs()[idx as int];
                assert forall|i: int|
                    #![trigger mid.logs@[i]]
                    0 <= i < mid.logs@.len() && mid.logs@[i].ended_at is None
                    implies mid.logs@[i].started_at <= now by {
                    assert(has_open_log(mid.logs@));
                }
                crate::model::lemma_closed_rec_wf(mid, fin, now, now, now);
                assert(crate::model::completed_rec(orig, fin, now));
                assert(!target_opens_work(orig, first_sid, now));
            }
        }
    }
}

} // verus!
