//! Read-only views over the store: task lists in their display orders and the
//! per-task session annotations.

use vstd::prelude::*;
use crate::model::{is_active_status, is_running_status, SessionKind, Task, TaskRecord};
use crate::store::Store;

verus! {

broadcast use vstd::seq_lib::group_to_multiset_ensures, vstd::multiset::group_multiset_axioms;

/// Display order of plain task lists: scheduled date first, then creation
/// instant, then id (ids are unique, so this order is total and the sorted
/// list is unique).
pub open spec fn sched_key_le(a: Task, b: Task) -> bool {
    ||| a.scheduled_date < b.scheduled_date
    ||| (a.scheduled_date == b.scheduled_date && a.created_at < b.created_at)
    ||| (a.scheduled_date == b.scheduled_date && a.created_at == b.created_at && a.id <= b.id)
}

/// Executable twin of `sched_key_le`.
pub fn sched_le(a: &Task, b: &Task) -> (r: bool)
    ensures
        r == sched_key_le(*a, *b),
{
    if a.scheduled_date != b.scheduled_date {
        a.scheduled_date < b.scheduled_date
    } else if a.created_at != b.created_at {
        a.created_at < b.created_at
    } else {
        a.id <= b.id
    }
}

/// Summary of the session a task is currently running, with its computed end
/// instant.
#[derive(Clone, Copy, Debug, PartialEq, Eq, Structural)]
pub struct ActiveSessionInfo {
    pub session_type: SessionKind,
    pub started_at: i64,
    pub ends_at: i64,
    pub duration_seconds: i64,
}

/// One stored session annotated with whether the task's active-session row
/// points at it (and since when).
#[derive(Clone, Copy, Debug, PartialEq, Eq, Structural)]
pub struct PomodoroSessionInfo {
    pub id: i64,
    pub session_number: i64,
    pub session_type: SessionKind,
    pub duration_seconds: i64,
    pub created_at: i64,
    pub is_active: bool,
    pub started_at: Option<i64>,
}

/// A task together with its current session (if any) and its full annotated
/// session list.
pub struct TaskWithActiveSession {
    pub task: Task,
    pub active_session: Option<ActiveSessionInfo>,
    pub pomodoro_sessions: Vec<PomodoroSessionInfo>,
}

/// The annotation of the session at position `i` of the record.
pub open spec fn session_info_of(rec: TaskRecord, i: int) -> PomodoroSessionInfo {
    let s = rec.sessions@[i];
    let stamp = match rec.active {
        Option::Some(a) => if a.pomodoro_id == s.id {
            Option::Some(a.started_at)
        } else {
            Option::None
        },
        Option::None => Option::None,
    };
    PomodoroSessionInfo {
        id: s.id,
        session_number: s.session_number,
        session_type: s.kind,
        duration_seconds: s.duration_seconds,
        created_at: s.created_at,
        is_active: stamp is Some,
        started_at: stamp,
    }
}

/// The current-session summary of the record, if it is running one.
pub open spec fn active_info_of(rec: TaskRecord) -> Option<ActiveSessionInfo> {
    match rec.active {
        Option::Some(a) => {
            let s = rec.sessions@[rec.next_session - 1];
            Option::Some(
                ActiveSessionInfo {
                    session_type: s.kind,
                    started_at: a.started_at,
                    ends_at: (a.started_at + s.duration_seconds) as i64,
                    duration_seconds: s.duration_seconds,
                },
            )
        },
        Option::None => Option::None,
    }
}

/// `v` is the annotated view of the record `rec`.
pub open spec fn task_view_of(rec: TaskRecord, v: TaskWithActiveSession) -> bool {
    &&& v.task == rec.task
    &&& v.active_session == active_info_of(rec)
    &&& v.pomodoro_sessions@.len() == rec.sessions@.len()
    &&& forall|i: int|
        0 <= i < rec.sessions@.len() ==> #[trigger] v.pomodoro_sessions@[i] == session_info_of(
            rec,
            i,
        )
}

/// `v` is the annotated view of some record of `recs`.
pub open spec fn is_view_of_some(recs: Seq<TaskRecord>, v: TaskWithActiveSession) -> bool {
    exists|j: int| 0 <= j < recs.len() && task_view_of(#[trigger] recs[j], v)
}

/// The record at position `j` of `recs` has its annotated view somewhere in
/// `rs`.
pub open spec fn view_listed(recs: Seq<TaskRecord>, rs: Seq<TaskWithActiveSession>, j: int)
    -> bool {
    exists|i: int| 0 <= i < rs.len() && task_view_of(recs[j], #[trigger] rs[i])
}

/// Display order of the annotated list: running tasks first, then the plain
/// schedule order.
pub open spec fn active_first_le(a: TaskWithActiveSession, b: TaskWithActiveSession) -> bool {
    let ar = is_active_status(a.task.status);
    let br = is_active_status(b.task.status);
    if ar != br {
        ar
    } else {
        sched_key_le(a.task, b.task)
    }
}

/// Executable twin of `active_first_le`.
pub fn active_first(a: &TaskWithActiveSession, b: &TaskWithActiveSession) -> (r: bool)
    ensures
        r == active_first_le(*a, *b),
{
    let ar = is_running_status(a.task.status);
    let br = is_running_status(b.task.status);
    if ar != br {
        ar
    } else {
        sched_le(&a.task, &b.task)
    }
}

/// The task rows of the records, in record (= creation) order.
pub open spec fn all_tasks(recs: Seq<TaskRecord>) -> Seq<Task> {
    recs.map_values(|rec: TaskRecord| rec.task)
}

/// The task rows scheduled on `today`, in record (= creation) order.
pub open spec fn tasks_on(recs: Seq<TaskRecord>, today: i64) -> Seq<Task>
    decreases recs.len(),
{
    if recs.len() == 0 {
        Seq::empty()
    } else {
        tasks_on(recs.drop_last(), today) + (if recs.last().task.scheduled_date == today {
            seq![recs.last().task]
        } else {
            Seq::<Task>::empty()
        })
    }
}

/// One step of the prefix filter used while scanning the records.
proof fn lemma_tasks_on_step(recs: Seq<TaskRecord>, today: i64, j: int)
    requires
        0 <= j < recs.len(),
    ensures
        tasks_on(recs.take(j + 1), today) == tasks_on(recs.take(j), today) + (
        if recs[j].task.scheduled_date == today {
            seq![recs[j].task]
        } else {
            Seq::<Task>::empty()
        }),
{
    assert(recs.take(j + 1).drop_last() =~= recs.take(j));
    assert(recs.take(j + 1).last() == recs[j]);
}

impl Store {
    /// All tasks ordered by (scheduled date, creation instant): exactly the
    /// stored task rows, sorted by `sched_key_le`.
    pub fn load_tasks(&self) -> (r: Vec<Task>)
        requires
            self.wf(),
        ensures
            r@.len() == self.recs().len(),
            r@.to_multiset() == all_tasks(self.recs()).to_multiset(),
            forall|i: int, j: int|
                #![trigger r@[i], r@[j]]
                0 <= i < j < r@.len() ==> sched_key_le(r@[i], r@[j]),
    {
        let n = self.records.len();
        let mut src: Vec<Task> = Vec::new();
        let mut j: usize = 0;
        while j < n
            invariant
                j <= n,
                n == self.recs().len(),
                src@ == all_tasks(self.recs().take(j as int)),
            decreases n - j,
        {
            let t = self.records[j].task.clone();
            src.push(t);
            proof {
                assert(all_tasks(self.recs().take(j + 1)) =~= all_tasks(
                    self.recs().take(j as int),
                ).push(self.recs()[j as int].task));
            }
            j += 1;
        }
        proof {
            assert(self.recs().take(n as int) =~= self.recs());
        }
        let ghost everything = all_tasks(self.recs()).to_multiset();

        let mut out: Vec<Task> = Vec::new();
        while src.len() > 0
            invariant
                out@.len() + src@.len() == n,
                out@.to_multiset().add(src@.to_multiset()) == everything,
                forall|i: int, k: int|
                    #![trigger out@[i], out@[k]]
                    0 <= i < k < out@.len() ==> sched_key_le(out@[i], out@[k]),
                forall|i: int, k: int|
                    #![trigger out@[i], src@[k]]
                    0 <= i < out@.len() && 0 <= k < src@.len() ==> sched_key_le(out@[i], src@[k]),
            decreases src@.len(),
        {
            let mut m: usize = 0;
            let mut i: usize = 1;
            while i < src.len()
                invariant
                    m < i,
                    i <= src@.len(),
                    forall|k: int| 0 <= k < i ==> sched_key_le(src@[m as int], #[trigger] src@[k]),
                decreases src@.len() - i,
            {
                if sched_le(&src[i], &src[m]) {
                    m = i;
                }
                i += 1;
            }
            let ghost old_out = out@;
            let ghost old_src = src@;
            let t = src.remove(m);
            out.push(t);
            proof {
                assert(old_src.remove(m as int).to_multiset() =~= old_src.to_multiset().remove(t));
                assert(old_out.push(t).to_multiset() =~= old_out.to_multiset().insert(t));
                assert(old_src.to_multiset().count(t) > 0) by {
                    assert(old_src[m as int] == t);
                    assert(old_src.contains(t));
                }
                assert(out@.to_multiset().add(src@.to_multiset()) =~= everything) by {
                    assert(out@.to_multiset().add(src@.to_multiset()) =~= old_out.to_multiset().add(
                        old_src.to_multiset(),
                    ));
                }
            }
        }
        out
    }

    /// All tasks annotated with their session state, running tasks first.
    pub fn load_tasks_with_sessions(&self) -> (r: Vec<TaskWithActiveSession>)
        requires
            self.wf(),
        ensures
            r@.len() == self.recs().len(),
            forall|i: int|
                0 <= i < r@.len() ==> is_view_of_some(self.recs(), #[trigger] r@[i]),
            forall|j: int|
                0 <= j < self.recs().len() ==> #[trigger] view_listed(self.recs(), r@, j),
            forall|i: int, k: int|
                #![trigger r@[i], r@[k]]
                0 <= i < k < r@.len() ==> active_first_le(r@[i], r@[k]),
    {
        let n = self.records.len();
        let mut src: Vec<TaskWithActiveSession> = Vec::new();
        let mut j: usize = 0;
        while j < n
            invariant
                self.wf(),
                j <= n,
                n == self.recs().len(),
                src@.len() == j,
                forall|k: int|
                    0 <= k < j ==> task_view_of(self.recs()[k], #[trigger] src@[k]),
            decreases n - j,
        {
            proof {
                assert(self.recs()[j as int].wf(self.clock));
            }
            let rec = &self.records[j];
            let active_session = match rec.active {
                Option::Some(a) => {
                    proof {
                        assert(rec.session_at_wf(rec.next_session - 1, self.clock));
                    }
                    let s = rec.sessions[rec.next_session - 1];
                    Option::Some(
                        ActiveSessionInfo {
                            session_type: s.kind,
                            started_at: a.started_at,
                            ends_at: a.started_at + s.duration_seconds,
                            duration_seconds: s.duration_seconds,
                        },
                    )
                },
                Option::None => Option::None,
            };
            let sn = rec.sessions.len();
            let mut infos: Vec<PomodoroSessionInfo> = Vec::new();
            let mut i: usize = 0;
            while i < sn
                invariant
                    i <= sn,
                    sn == rec.sessions@.len(),
                    infos@.len() == i,
                    forall|k: int|
                        0 <= k < i ==> #[trigger] infos@[k] == session_info_of(*rec, k),
                decreases sn - i,
            {
                let s = rec.sessions[i];
                let started_at: Option<i64> = match rec.active {
                    Option::Some(a) => if a.pomodoro_id == s.id {
                        Option::Some(a.started_at)
                    } else {
                        Option::None
                    },
                    Option::None => Option::None,
                };
                infos.push(
                    PomodoroSessionInfo {
                        id: s.id,
                        session_number: s.session_number,
                        session_type: s.kind,
                        duration_seconds: s.duration_seconds,
                        created_at: s.created_at,
                        is_active: started_at.is_some(),
                        started_at,
                    },
                );
                i += 1;
            }
            let t = rec.task.clone();
            src.push(TaskWithActiveSession { task: t, active_session, pomodoro_sessions: infos });
            j += 1;
        }
        let ghost built = src@;

        let mut out: Vec<TaskWithActiveSession> = Vec::new();
        while src.len() > 0
            invariant
                out@.len() + src@.len() == n,
                out@.to_multiset().add(src@.to_multiset()) == built.to_multiset(),
                forall|i: int, k: int|
                    #![trigger out@[i], out@[k]]
                    0 <= i < k < out@.len() ==> active_first_le(out@[i], out@[k]),
                forall|i: int, k: int|
                    #![trigger out@[i], src@[k]]
                    0 <= i < out@.len() && 0 <= k < src@.len() ==> active_first_le(
                        out@[i],
                        src@[k],
                    ),
            decreases src@.len(),
        {
            let mut m: usize = 0;
            let mut i: usize = 1;
            while i < src.len()
                invariant
                    m < i,
                    i <= src@.len(),
                    forall|k: int|
                        0 <= k < i ==> active_first_le(src@[m as int], #[trigger] src@[k]),
                decreases src@.len() - i,
            {
                if active_first(&src[i], &src[m]) {
                    m = i;
                }
                i += 1;
            }
            let ghost old_out = out@;
            let ghost old_src = src@;
            let t = src.remove(m);
            out.push(t);
            proof {
                assert(old_src.remove(m as int).to_multiset() =~= old_src.to_multiset().remove(t));
                assert(old_out.push(t).to_multiset() =~= old_out.to_multiset().insert(t));
                assert(old_src.to_multiset().count(t) > 0) by {
                    assert(old_src[m as int] == t);
                    assert(old_src.contains(t));
                }
                assert(out@.to_multiset().add(src@.to_multiset()) =~= built.to_multiset()) by {
                    assert(out@.to_multiset().add(src@.to_multiset()) =~= old_out.to_multiset().add(
                        old_src.to_multiset(),
                    ));
                }
            }
        }
        proof {
            assert(out@.to_multiset() =~= built.to_multiset()) by {
                assert(src@.to_multiset().len() == 0);
                assert(src@.to_multiset() =~= vstd::multiset::Multiset::<
                    TaskWithActiveSession,
                >::empty());
            }
            assert forall|i: int| 0 <= i < out@.len() implies is_view_of_some(
                self.recs(),
                #[trigger] out@[i],
            ) by {
                assert(out@.contains(out@[i]));
                assert(out@.to_multiset().count(out@[i]) > 0);
                assert(built.to_multiset().count(out@[i]) > 0);
                assert(built.contains(out@[i]));
                let j2 = choose|j2: int| 0 <= j2 < built.len() && built[j2] == out@[i];
                assert(task_view_of(self.recs()[j2], out@[i]));
            }
            assert forall|j2: int| 0 <= j2 < self.recs().len() implies #[trigger] view_listed(
                self.recs(),
                out@,
                j2,
            ) by {
                assert(built.contains(built[j2]));
                assert(built.to_multiset().count(built[j2]) > 0);
                assert(out@.to_multiset().count(built[j2]) > 0);
                assert(out@.contains(built[j2]));
                let i = choose|i: int| 0 <= i < out@.len() && out@[i] == built[j2];
                assert(task_view_of(self.recs()[j2], out@[i]));
            }
        }
        out
    }

    /// The tasks scheduled on day `today`, in creation order.
    pub fn get_today_tasks(&self, today: i64) -> (r: Vec<Task>)
        requires
            self.wf(),
        ensures
            r@ == tasks_on(self.recs(), today),
    {
        let n = self.records.len();
        let mut out: Vec<Task> = Vec::new();
        let mut j: usize = 0;
        while j < n
            invariant
                j <= n,
                n == self.recs().len(),
                out@ == tasks_on(self.recs().take(j as int), today),
            decreases n - j,
        {
            proof {
                lemma_tasks_on_step(self.recs(), today, j as int);
            }
            if self.records[j].task.scheduled_date == today {
                let t = self.records[j].task.clone();
                out.push(t);
                proof {
                    assert(out@ =~= tasks_on(self.recs().take(j + 1), today));
                }
            } else {
                proof {
                    assert(out@ =~= tasks_on(self.recs().take(j + 1), today));
                }
            }
            j += 1;
        }
        proof {
            assert(self.recs().take(n as int) =~= self.recs());
        }
        out
    }
}

} // verus!
