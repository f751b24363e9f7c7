//! The relational data model: tasks, Pomodoro sessions, time logs and active
//! sessions, together with the fixed session template and the per-task
//! well-formedness predicates.

use vstd::prelude::*;
use vstd::string::StringExecFns;

verus! {

/// Largest instant the engine accepts: 9999-12-31T23:59:59Z as seconds since
/// the Unix epoch, the last second an RFC 3339 timestamp can carry. Keeping
/// every stored instant in `[0, MAX_INSTANT]` keeps the time accounting well
/// inside `i64`.
pub const MAX_INSTANT: i64 = 253402300799;

/// Number of stages in the fixed Pomodoro template.
pub const SESSION_COUNT: usize = 8;

/// Seconds in one work stage.
pub const WORK_SECONDS: i64 = 1500;

/// Seconds in one short break stage.
pub const SHORT_BREAK_SECONDS: i64 = 300;

/// Seconds in the final long break stage.
pub const LONG_BREAK_SECONDS: i64 = 900;

/// Upper bound under which the store keeps its surrogate-id counters; any
/// single operation hands out a bounded number of fresh ids, so staying under
/// this bound keeps id arithmetic inside `i64`.
pub const ID_LIMIT: i64 = 0x4000_0000_0000_0000;

/// Lifecycle state of a task.
#[derive(Clone, Copy, Debug, PartialEq, Eq, Structural)]
pub enum Status {
    /// Created, never run so far in this round.
    Pending,
    /// Currently running a work session.
    InProgress,
    /// Currently waiting out a break session.
    Waiting,
    /// Manually interrupted.
    Paused,
    /// All sessions consumed, or manually completed.
    Completed,
}

/// Kind of one Pomodoro stage.
#[derive(Clone, Copy, Debug, PartialEq, Eq, Structural)]
pub enum SessionKind {
    Work,
    Break,
}

/// The validation and not-found failures an operation can report. Every
/// failure leaves the store untouched.
#[derive(Clone, Copy, Debug, PartialEq, Eq, Structural)]
pub enum TaskError {
    /// The referenced task id does not exist.
    TaskNotFound,
    /// Starting a task that already has an open time log.
    TaskAlreadyActive,
    /// Starting or resuming while another task is running, without force.
    OnlyOneTaskAtATime,
    /// Pausing a task that has no active session.
    NoActiveSessionToPause,
    /// Resuming a task that is not paused.
    TaskNotPaused,
    /// Resuming a task that already has an active session.
    TaskAlreadyHasActiveSession,
}

impl TaskError {
    /// Human-readable message for the failure, as surfaced to callers.
    pub fn message(&self) -> (r: String)
        ensures
            *self == TaskError::TaskNotFound ==> r@ == "task not found"@,
            *self == TaskError::TaskAlreadyActive ==> r@ == "task already active"@,
            *self == TaskError::OnlyOneTaskAtATime ==> r@ == "only one task may run at a time"@,
            *self == TaskError::NoActiveSessionToPause ==> r@ == "no active session to pause"@,
            *self == TaskError::TaskNotPaused ==> r@ == "task is not paused"@,
            *self == TaskError::TaskAlreadyHasActiveSession ==> r@
                == "task already has an active session"@,
    {
        match self {
            TaskError::TaskNotFound => String::from_str("task not found"),
            TaskError::TaskAlreadyActive => String::from_str("task already active"),
            TaskError::OnlyOneTaskAtATime => String::from_str("only one task may run at a time"),
            TaskError::NoActiveSessionToPause => String::from_str("no active session to pause"),
            TaskError::TaskNotPaused => String::from_str("task is not paused"),
            TaskError::TaskAlreadyHasActiveSession => String::from_str(
                "task already has an active session",
            ),
        }
    }
}

/// A unit of scheduled work. Estimated effort is kept in whole seconds
/// (a fixed-point reading of "estimated hours"), the scheduled date as a
/// sortable day key (for example year*10000 + month*100 + day).
pub struct Task {
    pub id: i64,
    pub name: String,
    pub user: String,
    pub estimated_seconds: i64,
    pub scheduled_date: i64,
    pub status: Status,
    pub created_at: i64,
    pub started_at: Option<i64>,
    pub completed_at: Option<i64>,
}

impl Clone for Task {
    fn clone(&self) -> (r: Task)
        ensures
            r == *self,
    {
        Task {
            id: self.id,
            name: self.name.clone(),
            user: self.user.clone(),
            estimated_seconds: self.estimated_seconds,
            scheduled_date: self.scheduled_date,
            status: self.status,
            created_at: self.created_at,
            started_at: self.started_at,
            completed_at: self.completed_at,
        }
    }
}

/// One stage of a task's fixed work/break cycle. The ordered set of stages
/// for a task is generated exactly once and never mutated.
#[derive(Clone, Copy, Debug, PartialEq, Eq, Structural)]
pub struct PomodoroSession {
    pub id: i64,
    pub task_id: i64,
    /// 1-based position in the task's cycle.
    pub session_number: i64,
    pub kind: SessionKind,
    pub duration_seconds: i64,
    pub created_at: i64,
}

/// One contiguous interval of actual work time for a task. `ended_at == None`
/// means the interval is still open and accrues against "now".
#[derive(Clone, Copy, Debug, PartialEq, Eq, Structural)]
pub struct TaskTimeLog {
    pub id: i64,
    pub task_id: i64,
    pub started_at: i64,
    pub ended_at: Option<i64>,
}

/// Pointer to the Pomodoro session currently running for a task. Derived
/// data: its absence means the task is not running any session.
#[derive(Clone, Copy, Debug, PartialEq, Eq, Structural)]
pub struct ActiveSession {
    pub task_id: i64,
    pub pomodoro_id: i64,
    pub started_at: i64,
}

/// Everything the store keeps about one task: the task row, its session
/// template, its time logs, its active-session row (at most one), and the
/// cursor to the first session of the cycle not yet run. A session counts as
/// consumed as soon as an active session has pointed at it, so the cursor
/// only ever moves forward.
pub struct TaskRecord {
    pub task: Task,
    pub sessions: Vec<PomodoroSession>,
    pub logs: Vec<TaskTimeLog>,
    pub active: Option<ActiveSession>,
    pub next_session: usize,
}

/// An instant the engine accepts.
pub open spec fn valid_instant(t: i64) -> bool {
    0 <= t && t <= MAX_INSTANT
}

/// An optional stamp that, when present, is a valid instant no later than
/// `clock`.
pub open spec fn valid_stamp(t: Option<i64>, clock: i64) -> bool {
    match t {
        Option::Some(v) => valid_instant(v) && v <= clock,
        Option::None => true,
    }
}

/// A task in this status is the one task allowed to be running.
pub open spec fn is_active_status(s: Status) -> bool {
    s == Status::InProgress || s == Status::Waiting
}

/// Executable twin of `is_active_status`.
pub fn is_running_status(s: Status) -> (r: bool)
    ensures
        r == is_active_status(s),
{
    match s {
        Status::InProgress => true,
        Status::Waiting => true,
        _ => false,
    }
}

/// Task status implied by the kind of the session being started.
pub open spec fn kind_status(k: SessionKind) -> Status {
    if k == SessionKind::Work {
        Status::InProgress
    } else {
        Status::Waiting
    }
}

/// Kind of the template stage at 0-based position `i`: work and break
/// alternate, starting with work.
pub open spec fn template_kind(i: int) -> SessionKind {
    if i % 2 == 0 {
        SessionKind::Work
    } else {
        SessionKind::Break
    }
}

/// Duration of the template stage at 0-based position `i`: four 25-minute
/// work stages, separated by 5-minute breaks, closed by one 15-minute long
/// break.
pub open spec fn template_duration(i: int) -> i64 {
    if i % 2 == 0 {
        WORK_SECONDS
    } else if i == SESSION_COUNT - 1 {
        LONG_BREAK_SECONDS
    } else {
        SHORT_BREAK_SECONDS
    }
}

/// Executable twin of `template_kind`.
pub fn template_kind_at(i: usize) -> (k: SessionKind)
    requires
        i < SESSION_COUNT,
    ensures
        k == template_kind(i as int),
{
    if i % 2 == 0 {
        SessionKind::Work
    } else {
        SessionKind::Break
    }
}

/// Executable twin of `template_duration`.
pub fn template_duration_at(i: usize) -> (d: i64)
    requires
        i < SESSION_COUNT,
    ensures
        d == template_duration(i as int),
{
    if i % 2 == 0 {
        WORK_SECONDS
    } else if i == SESSION_COUNT - 1 {
        LONG_BREAK_SECONDS
    } else {
        SHORT_BREAK_SECONDS
    }
}

/// The template stage at position `i` as stored for a task, with ids handed
/// out contiguously from `first_id`.
pub open spec fn template_session(task_id: i64, first_id: i64, created_at: i64, i: int)
    -> PomodoroSession {
    PomodoroSession {
        id: (first_id + i) as i64,
        task_id: task_id,
        session_number: (i + 1) as i64,
        kind: template_kind(i),
        duration_seconds: template_duration(i),
        created_at: created_at,
    }
}

/// The full fixed template for one task.
pub open spec fn template_sessions(task_id: i64, first_id: i64, created_at: i64)
    -> Seq<PomodoroSession> {
    Seq::new(SESSION_COUNT as nat, |i: int| template_session(task_id, first_id, created_at, i))
}

/// `l` with its interval ended at `end_at` if it was open, unchanged
/// otherwise.
pub open spec fn close_log(l: TaskTimeLog, end_at: i64) -> TaskTimeLog {
    if l.ended_at is None {
        TaskTimeLog { ended_at: Option::Some(end_at), ..l }
    } else {
        l
    }
}

/// All open logs in `ls` ended at `end_at`; closed logs are left untouched.
pub open spec fn close_open_logs(ls: Seq<TaskTimeLog>, end_at: i64) -> Seq<TaskTimeLog> {
    ls.map_values(|l: TaskTimeLog| close_log(l, end_at))
}

/// Some log in `ls` is still open.
pub open spec fn has_open_log(ls: Seq<TaskTimeLog>) -> bool {
    exists|i: int| 0 <= i < ls.len() && ls[i].ended_at is None
}

impl TaskRecord {
    /// The task row itself is well-formed under store clock `clock`.
    pub open spec fn task_wf(&self, clock: i64) -> bool {
        &&& 1 <= self.task.id
        &&& 0 <= self.task.estimated_seconds <= MAX_INSTANT
        &&& valid_instant(self.task.created_at) && self.task.created_at <= clock
        &&& valid_stamp(self.task.started_at, clock)
        &&& valid_stamp(self.task.completed_at, clock)
    }

    /// The stored session at position `i` matches the fixed template.
    pub open spec fn session_at_wf(&self, i: int, clock: i64) -> bool {
        let s = self.sessions@[i];
        &&& s.task_id == self.task.id
        &&& s.session_number == i + 1
        &&& s.kind == template_kind(i)
        &&& s.duration_seconds == template_duration(i)
        &&& valid_instant(s.created_at) && s.created_at <= clock
        &&& s.id == self.sessions@[0].id + i
    }

    /// The session template is either absent or complete, matches the fixed
    /// template, and the cursor stays within it.
    pub open spec fn sessions_wf(&self, clock: i64) -> bool {
        let ss = self.sessions@;
        &&& ss.len() == 0 || ss.len() == SESSION_COUNT
        &&& forall|i: int| 0 <= i < ss.len() ==> #[trigger] self.session_at_wf(i, clock)
        &&& self.next_session <= ss.len()
        &&& (ss.len() > 0 ==> 1 <= ss[0].id)
    }

    /// The log at position `i` is well-formed; only the last log may be open.
    pub open spec fn log_at_wf(&self, i: int, clock: i64) -> bool {
        let l = self.logs@[i];
        &&& l.task_id == self.task.id
        &&& 1 <= l.id
        &&& valid_instant(l.started_at) && l.started_at <= clock
        &&& match l.ended_at {
            Option::Some(e) => l.started_at <= e && e <= clock && valid_instant(e),
            Option::None => i == self.logs@.len() - 1,
        }
    }

    /// The time logs are well-formed: ids strictly increase, at most the last
    /// log is open, and a task never holds more logs than consumed sessions.
    pub open spec fn logs_wf(&self, clock: i64) -> bool {
        &&& forall|i: int| 0 <= i < self.logs@.len() ==> #[trigger] self.log_at_wf(i, clock)
        &&& forall|i: int, j: int|
            #![trigger self.logs@[i].id, self.logs@[j].id]
            0 <= i < j < self.logs@.len() ==> self.logs@[i].id < self.logs@[j].id
        &&& self.logs@.len() <= self.next_session
    }

    /// Kind of the session the active-session row points at (meaningful only
    /// while `active` is present).
    pub open spec fn running_kind(&self) -> SessionKind {
        self.sessions@[self.next_session - 1].kind
    }

    /// The active-session row, when present, points at the last consumed
    /// session of a complete template, and any open log was opened together
    /// with that session.
    pub open spec fn active_wf(&self, clock: i64) -> bool {
        match self.active {
            Option::Some(a) => {
                &&& a.task_id == self.task.id
                &&& self.sessions@.len() == SESSION_COUNT
                &&& 1 <= self.next_session <= SESSION_COUNT
                &&& a.pomodoro_id == self.sessions@[self.next_session - 1].id
                &&& valid_instant(a.started_at) && a.started_at <= clock
                &&& forall|i: int|
                    #![trigger self.logs@[i]]
                    0 <= i < self.logs@.len() && self.logs@[i].ended_at is None
                        ==> self.logs@[i].started_at == a.started_at
            },
            Option::None => true,
        }
    }

    /// Status, active-session row and open log agree: a task is in progress
    /// or waiting exactly while an active session exists, in progress exactly
    /// while that session is a work stage, and holds an open log exactly
    /// while a work stage is running.
    pub open spec fn status_wf(&self) -> bool {
        &&& is_active_status(self.task.status) <==> self.active is Some
        &&& (self.active is Some ==> (self.task.status == Status::InProgress <==> self.running_kind()
            == SessionKind::Work))
        &&& (has_open_log(self.logs@) <==> (self.active is Some && self.running_kind()
            == SessionKind::Work))
        &&& (self.task.status == Status::Completed ==> self.task.completed_at is Some)
    }

    /// Full per-record well-formedness under store clock `clock`.
    pub open spec fn wf(&self, clock: i64) -> bool {
        &&& self.task_wf(clock)
        &&& self.sessions_wf(clock)
        &&& self.logs_wf(clock)
        &&& self.active_wf(clock)
        &&& self.status_wf()
    }
}

impl TaskRecord {
    /// End every open log of this record at `end_at`; closed logs are left
    /// untouched.
    pub(crate) fn close_logs(&mut self, end_at: i64)
        ensures
            final(self).logs@ == close_open_logs(old(self).logs@, end_at),
            final(self).task == old(self).task,
            final(self).sessions == old(self).sessions,
            final(self).active == old(self).active,
            final(self).next_session == old(self).next_session,
    {
        let ghost orig = self.logs@;
        let mut i: usize = 0;
        while i < self.logs.len()
            invariant
                i <= self.logs@.len(),
                self.logs@.len() == orig.len(),
                forall|k: int| 0 <= k < i ==> self.logs@[k] == close_log(orig[k], end_at),
                forall|k: int| i <= k < orig.len() ==> self.logs@[k] == orig[k],
                self.task == old(self).task,
                self.sessions == old(self).sessions,
                self.active == old(self).active,
                self.next_session == old(self).next_session,
            decreases orig.len() - i,
        {
            if self.logs[i].ended_at.is_none() {
                self.logs[i].ended_at = Option::Some(end_at);
            }
            i += 1;
        }
        assert(self.logs@ =~= close_open_logs(orig, end_at));
    }
}

/// The record transform of a manual pause (and of a forced pause during a
/// force-start): every open log is closed at `now`, the active-session row is
/// dropped, the status becomes paused; everything else is kept.
pub open spec fn paused_rec(o: TaskRecord, n: TaskRecord, now: i64) -> bool {
    &&& n.task == (Task { status: Status::Paused, ..o.task })
    &&& n.sessions@ == o.sessions@
    &&& n.logs@ == close_open_logs(o.logs@, now)
    &&& n.active is None
    &&& n.next_session == o.next_session
}

/// The record transform of completing a task: any active-session row is
/// dropped, any open log is closed at `now`, the status becomes completed
/// with the completion stamped at `now`.
pub open spec fn completed_rec(o: TaskRecord, n: TaskRecord, now: i64) -> bool {
    &&& n.task == (Task { status: Status::Completed, completed_at: Option::Some(now), ..o.task })
    &&& n.sessions@ == o.sessions@
    &&& n.logs@ == close_open_logs(o.logs@, now)
    &&& n.active is None
    &&& n.next_session == o.next_session
}

/// A record whose open logs were closed at `end_at` (an instant no earlier
/// than each open log's start and no later than the new clock `now`), whose
/// active-session row was dropped, and whose status moved to some non-running
/// state stays well-formed under the new clock.
pub proof fn lemma_closed_rec_wf(o: TaskRecord, n: TaskRecord, end_at: i64, now: i64, clock: i64)
    requires
        o.wf(clock),
        clock <= now,
        valid_instant(now),
        valid_instant(end_at),
        end_at <= now,
        forall|i: int|
            #![trigger o.logs@[i]]
            0 <= i < o.logs@.len() && o.logs@[i].ended_at is None ==> o.logs@[i].started_at
                <= end_at,
        n.sessions@ == o.sessions@,
        n.logs@ == close_open_logs(o.logs@, end_at),
        n.active is None,
        n.next_session == o.next_session,
        n.task.id == o.task.id,
        n.task.estimated_seconds == o.task.estimated_seconds,
        n.task.created_at == o.task.created_at,
        n.task.started_at == o.task.started_at,
        valid_stamp(n.task.completed_at, now),
        !is_active_status(n.task.status),
        n.task.status == Status::Completed ==> n.task.completed_at is Some,
    ensures
        n.wf(now),
{
    lemma_rec_wf_clock_mono(o, clock, now);
    assert forall|i: int| 0 <= i < n.sessions@.len() implies #[trigger] n.session_at_wf(
        i,
        now,
    ) by {
        assert(o.session_at_wf(i, now));
    }
    assert forall|i: int| 0 <= i < n.logs@.len() implies #[trigger] n.log_at_wf(i, now) by {
        assert(o.log_at_wf(i, now));
        assert(n.logs@[i] == close_log(o.logs@[i], end_at));
    }
    assert forall|i: int, j: int|
        #![trigger n.logs@[i].id, n.logs@[j].id]
        0 <= i < j < n.logs@.len() implies n.logs@[i].id < n.logs@[j].id by {
        assert(n.logs@[i] == close_log(o.logs@[i], end_at));
        assert(n.logs@[j] == close_log(o.logs@[j], end_at));
        assert(o.logs@[i].id < o.logs@[j].id);
    }
    assert(!has_open_log(n.logs@)) by {
        assert forall|i: int| 0 <= i < n.logs@.len() implies !(n.logs@[i].ended_at is None) by {
            assert(n.logs@[i] == close_log(o.logs@[i], end_at));
        }
    }
}

/// Record well-formedness only bounds instants from above by the clock, so it
/// survives moving the clock forward.
pub proof fn lemma_rec_wf_clock_mono(rec: TaskRecord, c1: i64, c2: i64)
    requires
        rec.wf(c1),
        c1 <= c2,
        valid_instant(c2),
    ensures
        rec.wf(c2),
{
    assert forall|i: int| 0 <= i < rec.sessions@.len() implies #[trigger] rec.session_at_wf(
        i,
        c2,
    ) by {
        assert(rec.session_at_wf(i, c1));
    }
    assert forall|i: int| 0 <= i < rec.logs@.len() implies #[trigger] rec.log_at_wf(i, c2) by {
        assert(rec.log_at_wf(i, c1));
    }
}

} // verus!
