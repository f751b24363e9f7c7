//! Laws that tie the operations together: the global invariants as named
//! facts, idempotence of polling, the pause/resume accounting round trip, and
//! the one-session-per-advancement progress of a task towards completion.

use vstd::prelude::*;
use crate::accounting::{log_seconds, worked_seconds};
use crate::engine::{advanced_rec_rel, advanced_store_rec, due, due_ids, due_work_count, poll_rel};
use crate::lifecycle::{paused_store_rec, resumed_store_rec};
use crate::model::{
    close_log, close_open_logs, is_active_status, valid_instant, Status, TaskRecord, TaskTimeLog,
};
use crate::sessions::{begun_target_rec, ensured_sessions};
use crate::store::Store;

verus! {

/// Law: at most one task is running at any time — in a well-formed store, no
/// two distinct records both carry a running (in progress or waiting) status.
pub proof fn lemma_single_running_task(s: Store, j: int, k: int)
    requires
        s.wf(),
        0 <= j < s.recs().len(),
        0 <= k < s.recs().len(),
        j != k,
        is_active_status(s.recs()[j].task.status),
    ensures
        !is_active_status(s.recs()[k].task.status),
{
}

/// Law: at most one open time log exists per task at any time — in a
/// well-formed store, no record holds two distinct open logs.
pub proof fn lemma_at_most_one_open_log(s: Store, j: int, i1: int, i2: int)
    requires
        s.wf(),
        0 <= j < s.recs().len(),
        0 <= i1 < s.recs()[j].logs@.len(),
        0 <= i2 < s.recs()[j].logs@.len(),
        i1 != i2,
        s.recs()[j].logs@[i1].ended_at is None,
    ensures
        !(s.recs()[j].logs@[i2].ended_at is None),
{
    assert(s.recs()[j].wf(s.clock));
    assert(s.recs()[j].log_at_wf(i1, s.clock));
    assert(s.recs()[j].log_at_wf(i2, s.clock));
}

/// Records that are all not due produce no ids and consume no log ids.
proof fn lemma_nothing_due(recs: Seq<TaskRecord>, now: i64)
    requires
        forall|j: int| 0 <= j < recs.len() ==> !due(#[trigger] recs[j], now),
    ensures
        due_ids(recs, now) == Seq::<i64>::empty(),
        due_work_count(recs, now) == 0,
    decreases recs.len(),
{
    if recs.len() > 0 {
        lemma_nothing_due(recs.drop_last(), now);
        assert(due_ids(recs, now) =~= Seq::<i64>::empty());
    }
}

/// After a poll at `now`, no record is due at that same `now`.
proof fn lemma_poll_leaves_nothing_due(prev: Store, cur: Store, ids: Seq<i64>, now: i64, j: int)
    requires
        prev.wf(),
        valid_instant(now),
        now >= prev.clock,
        poll_rel(prev, cur, ids, now),
        0 <= j < cur.recs().len(),
    ensures
        !due(cur.recs()[j], now),
{
    assert(advanced_store_rec(
        prev.recs()[j],
        cur.recs()[j],
        now,
        prev.next_log_id + due_work_count(prev.recs().take(j), now),
    ));
    let o = prev.recs()[j];
    let n = cur.recs()[j];
    if due(o, now) {
        assert(o.wf(prev.clock));
        let k = o.next_session as int;
        if k < o.sessions@.len() {
            assert(o.session_at_wf(k, prev.clock));
            assert(o.sessions@[k].duration_seconds > 0);
            assert(n.active->Some_0.started_at == now);
        }
    }
}

/// Law: polling the engine is idempotent — a second poll at the same instant,
/// with no time passing, advances no task and leaves the store exactly as the
/// first poll left it.
pub proof fn lemma_poll_twice_is_noop(
    s0: Store,
    s1: Store,
    s2: Store,
    ids1: Seq<i64>,
    ids2: Seq<i64>,
    now: i64,
)
    requires
        s0.wf(),
        valid_instant(now),
        now >= s0.clock,
        poll_rel(s0, s1, ids1, now),
        poll_rel(s1, s2, ids2, now),
    ensures
        ids2 == Seq::<i64>::empty(),
        s2.recs() == s1.recs(),
        s2.next_task_id == s1.next_task_id,
        s2.next_session_id == s1.next_session_id,
        s2.next_log_id == s1.next_log_id,
        s2.clock == s1.clock,
{
    assert forall|j: int| 0 <= j < s1.recs().len() implies !due(#[trigger] s1.recs()[j], now) by {
        lemma_poll_leaves_nothing_due(s0, s1, ids1, now, j);
    }
    lemma_nothing_due(s1.recs(), now);
    assert forall|j: int| 0 <= j < s2.recs().len() implies s2.recs()[j] == #[trigger] s1.recs()[j] by {
        assert(advanced_store_rec(
            s1.recs()[j],
            s2.recs()[j],
            now,
            s1.next_log_id + due_work_count(s1.recs().take(j), now),
        ));
    }
    assert(s2.recs() =~= s1.recs());
}

/// Closing every open log at `end_at` freezes the accounting: however late
/// the closed logs are summed, they yield what the open ones had accrued by
/// `end_at`.
proof fn lemma_worked_after_close(ls: Seq<TaskTimeLog>, end_at: i64, t: i64)
    ensures
        worked_seconds(close_open_logs(ls, end_at), t) == worked_seconds(ls, end_at),
    decreases ls.len(),
{
    if ls.len() > 0 {
        lemma_worked_after_close(ls.drop_last(), end_at, t);
        assert(close_open_logs(ls, end_at).drop_last() =~= close_open_logs(
            ls.drop_last(),
            end_at,
        ));
        assert(close_open_logs(ls, end_at).last() == close_log(ls.last(), end_at));
        assert(log_seconds(close_log(ls.last(), end_at), t) == log_seconds(ls.last(), end_at));
    }
}

/// Law: a pause followed by a resume loses no work time and counts none
/// twice. The interval closed by the pause keeps exactly the seconds it had
/// accrued at the pause instant, and at the instant the resume takes effect
/// the task's accumulated work seconds are exactly what they were at the
/// pause — whatever time passed in between.
pub proof fn lemma_pause_resume_keeps_worked_seconds(
    s0: Store,
    s1: Store,
    s2: Store,
    task_id: i64,
    t_pause: i64,
    t_resume: i64,
    j: int,
)
    requires
        0 <= j < s0.recs().len(),
        s0.recs()[j].task.id == task_id,
        s1.recs().len() == s0.recs().len(),
        forall|k: int|
            0 <= k < s0.recs().len() ==> #[trigger] paused_store_rec(
                s0.recs()[k],
                s1.recs()[k],
                task_id,
                t_pause,
            ),
        s2.recs().len() == s1.recs().len(),
        forall|k: int|
            0 <= k < s1.recs().len() ==> #[trigger] resumed_store_rec(
                s1.recs()[k],
                s2.recs()[k],
                task_id,
                t_resume,
                s1.next_session_id,
                s1.next_log_id,
            ),
    ensures
        worked_seconds(s2.recs()[j].logs@, t_resume) == worked_seconds(
            s0.recs()[j].logs@,
            t_pause,
        ),
        s2.recs()[j].task.estimated_seconds == s0.recs()[j].task.estimated_seconds,
        crate::accounting::remaining_seconds(s2.recs()[j], t_resume)
            == crate::accounting::remaining_seconds(s0.recs()[j], t_pause),
{
    assert(paused_store_rec(s0.recs()[j], s1.recs()[j], task_id, t_pause));
    assert(resumed_store_rec(s1.recs()[j], s2.recs()[j], task_id, t_resume, s1.next_session_id,
        s1.next_log_id));
    let o = s0.recs()[j];
    let p = s1.recs()[j];
    let n = s2.recs()[j];
    assert(p.logs@ == close_open_logs(o.logs@, t_pause));
    lemma_worked_after_close(o.logs@, t_pause, t_resume);
    assert(begun_target_rec(p, n, t_resume, s1.next_session_id, s1.next_log_id, false));
    let ss = ensured_sessions(p, s1.next_session_id, t_resume);
    let k = p.next_session as int;
    if k < ss.len() {
        if ss[k].kind == crate::model::SessionKind::Work {
            assert(n.logs@.drop_last() =~= p.logs@);
            assert(log_seconds(n.logs@.last(), t_resume) == 0);
        } else {
            assert(n.logs@ == p.logs@);
        }
    } else {
        assert(n.logs@ == close_open_logs(p.logs@, t_resume));
        lemma_worked_after_close(p.logs@, t_resume, t_resume);
        lemma_worked_after_close(o.logs@, t_pause, t_pause);
    }
}

/// Law: monotonic completion — while sessions remain, each advancement of a
/// due task consumes exactly one session and leaves the task running, and
/// the advancement that finds the cycle consumed completes the task.
pub proof fn lemma_advance_consumes_one(o: TaskRecord, n: TaskRecord, now: i64, log_id: int)
    requires
        due(o, now),
        advanced_rec_rel(o, n, now, log_id),
        o.next_session <= o.sessions@.len(),
    ensures
        o.next_session < o.sessions@.len() ==> n.next_session == o.next_session + 1
            && is_active_status(n.task.status),
        o.next_session == o.sessions@.len() ==> n.task.status == Status::Completed
            && n.task.completed_at == Option::Some(now) && n.active is None
            && n.next_session == o.next_session,
{
}

/// Law: starting or resuming likewise consumes exactly one session while the
/// cycle lasts, and completes the task once the cycle is consumed.
pub proof fn lemma_begin_consumes_one(
    o: TaskRecord,
    n: TaskRecord,
    now: i64,
    first_sid: i64,
    log_id: i64,
    stamp: bool,
)
    requires
        begun_target_rec(o, n, now, first_sid, log_id, stamp),
        o.next_session <= ensured_sessions(o, first_sid, now).len(),
    ensures
        o.next_session < ensured_sessions(o, first_sid, now).len() ==> n.next_session
            == o.next_session + 1 && is_active_status(n.task.status),
        o.next_session == ensured_sessions(o, first_sid, now).len() ==> n.task.status
            == Status::Completed && n.task.completed_at == Option::Some(now) && n.active is None,
{
}

} // verus!
