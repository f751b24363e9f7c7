//! The store: the single owner of all task records, with the global
//! invariants (at most one running task, unique ids, creation order) and the
//! task-creation operation.

use vstd::prelude::*;
use crate::model::{
    has_open_log, is_active_status, is_running_status, lemma_rec_wf_clock_mono, template_session,
    template_sessions, valid_instant, Status, Task, TaskRecord, ID_LIMIT, MAX_INSTANT,
    SESSION_COUNT,
};

verus! {

/// All session ids of `rec` lie below `bound`.
pub open spec fn rec_session_ids_below(rec: TaskRecord, bound: i64) -> bool {
    rec.sessions@.len() > 0 ==> rec.sessions@[0].id + rec.sessions@.len() <= bound
}

/// All log ids of `rec` lie below `bound`.
pub open spec fn rec_log_ids_below(rec: TaskRecord, bound: i64) -> bool {
    forall|i: int| 0 <= i < rec.logs@.len() ==> #[trigger] rec.logs@[i].id < bound
}

/// The relational store. It owns every record; all timing state is
/// reconstructed from the records plus an injected "now". `clock` is the
/// latest instant any mutating operation has observed; operations take their
/// instants in nondecreasing order.
pub struct Store {
    pub records: Vec<TaskRecord>,
    pub next_task_id: i64,
    pub next_session_id: i64,
    pub next_log_id: i64,
    pub clock: i64,
}

impl Store {
    /// The records as a sequence.
    pub open spec fn recs(&self) -> Seq<TaskRecord> {
        self.records@
    }

    /// Id counters are positive, task ids strictly increase along the
    /// records (so they are unique) and stay below the counters, as do
    /// session and log ids.
    pub open spec fn ids_wf(&self) -> bool {
        &&& 1 <= self.next_task_id
        &&& 1 <= self.next_session_id
        &&& 1 <= self.next_log_id
        &&& forall|j: int|
            0 <= j < self.recs().len() ==> #[trigger] self.recs()[j].task.id < self.next_task_id
        &&& forall|j: int, k: int|
            #![trigger self.recs()[j].task.id, self.recs()[k].task.id]
            0 <= j < k < self.recs().len() ==> self.recs()[j].task.id < self.recs()[k].task.id
        &&& forall|j: int|
            0 <= j < self.recs().len() ==> #[trigger] rec_session_ids_below(
                self.recs()[j],
                self.next_session_id,
            )
        &&& forall|j: int|
            0 <= j < self.recs().len() ==> #[trigger] rec_log_ids_below(
                self.recs()[j],
                self.next_log_id,
            )
    }

    /// At most one task is running (in progress or waiting) at any time.
    pub open spec fn single_active(&self) -> bool {
        forall|j: int, k: int|
            #![trigger self.recs()[j].task.status, self.recs()[k].task.status]
            0 <= j < k < self.recs().len() ==> !(is_active_status(self.recs()[j].task.status)
                && is_active_status(self.recs()[k].task.status))
    }

    /// Records stand in creation order.
    pub open spec fn chrono_wf(&self) -> bool {
        forall|j: int, k: int|
            #![trigger self.recs()[j].task.created_at, self.recs()[k].task.created_at]
            0 <= j < k < self.recs().len() ==> self.recs()[j].task.created_at
                <= self.recs()[k].task.created_at
    }

    /// Full store well-formedness.
    pub open spec fn wf(&self) -> bool {
        &&& valid_instant(self.clock)
        &&& forall|j: int| 0 <= j < self.recs().len() ==> #[trigger] self.recs()[j].wf(self.clock)
        &&& self.ids_wf()
        &&& self.single_active()
        &&& self.chrono_wf()
    }

    /// The id counters are comfortably below `ID_LIMIT`, so any single
    /// operation can hand out fresh ids without overflow.
    pub open spec fn has_id_room(&self) -> bool {
        &&& self.next_task_id < ID_LIMIT
        &&& self.next_session_id < ID_LIMIT
        &&& self.next_log_id < ID_LIMIT
    }

    /// True when the store holds a record whose task has the given id.
    pub open spec fn contains_task(&self, task_id: i64) -> bool {
        exists|j: int| 0 <= j < self.recs().len() && #[trigger] self.recs()[j].task.id == task_id
    }

    /// The record carrying `task_id` exists and has an active session.
    pub open spec fn task_has_active(&self, task_id: i64) -> bool {
        exists|j: int|
            0 <= j < self.recs().len() && #[trigger] self.recs()[j].task.id == task_id
                && self.recs()[j].active is Some
    }

    /// The record carrying `task_id` exists and holds an open time log.
    pub open spec fn task_has_open_log(&self, task_id: i64) -> bool {
        exists|j: int|
            0 <= j < self.recs().len() && #[trigger] self.recs()[j].task.id == task_id
                && has_open_log(self.recs()[j].logs@)
    }

    /// Some record carrying a different task id is running.
    pub open spec fn another_running(&self, task_id: i64) -> bool {
        exists|j: int|
            0 <= j < self.recs().len() && self.recs()[j].task.id != task_id && is_active_status(
                #[trigger] self.recs()[j].task.status,
            )
    }

    /// The record carrying `task_id` exists and is paused.
    pub open spec fn task_is_paused(&self, task_id: i64) -> bool {
        exists|j: int|
            0 <= j < self.recs().len() && #[trigger] self.recs()[j].task.id == task_id
                && self.recs()[j].task.status == Status::Paused
    }

    /// A fresh, empty store.
    pub fn new() -> (s: Store)
        ensures
            s.wf(),
            s.has_id_room(),
            s.recs().len() == 0,
            s.next_task_id == 1,
            s.next_session_id == 1,
            s.next_log_id == 1,
            s.clock == 0,
    {
        Store {
            records: Vec::new(),
            next_task_id: 1,
            next_session_id: 1,
            next_log_id: 1,
            clock: 0,
        }
    }

    /// Position of the record carrying `task_id`, if any.
    pub(crate) fn find_index(&self, task_id: i64) -> (r: Option<usize>)
        ensures
            match r {
                Option::Some(j) => j < self.recs().len() && self.recs()[j as int].task.id
                    == task_id,
                Option::None => !self.contains_task(task_id),
            },
    {
        let mut j: usize = 0;
        while j < self.records.len()
            invariant
                j <= self.recs().len(),
                forall|k: int| 0 <= k < j ==> #[trigger] self.recs()[k].task.id != task_id,
            decreases self.recs().len() - j,
        {
            if self.records[j].task.id == task_id {
                return Option::Some(j);
            }
            j += 1;
        }
        Option::None
    }

    /// True when the store holds a task under the given id.
    pub fn has_task(&self, task_id: i64) -> (r: bool)
        ensures
            r == self.contains_task(task_id),
    {
        self.find_index(task_id).is_some()
    }

    /// Whether the id counters still have room, so that the mutating
    /// operations can hand out fresh ids.
    pub fn has_room(&self) -> (r: bool)
        ensures
            r == self.has_id_room(),
    {
        self.next_task_id < ID_LIMIT && self.next_session_id < ID_LIMIT && self.next_log_id
            < ID_LIMIT
    }

    /// Whether some task other than `task_id` is running.
    pub fn any_other_running(&self, task_id: i64) -> (r: bool)
        ensures
            r == self.another_running(task_id),
    {
        let mut j: usize = 0;
        while j < self.records.len()
            invariant
                j <= self.recs().len(),
                forall|k: int|
                    0 <= k < j ==> !(self.recs()[k].task.id != task_id && is_active_status(
                        #[trigger] self.recs()[k].task.status,
                    )),
            decreases self.recs().len() - j,
        {
            if self.records[j].task.id != task_id && is_running_status(self.records[j].task.status) {
                return true;
            }
            j += 1;
        }
        false
    }
}

/// Task ids are unique: two records carrying the same id are the same
/// record.
pub proof fn lemma_task_id_unique(s: Store, j: int, k: int)
    requires
        s.wf(),
        0 <= j < s.recs().len(),
        0 <= k < s.recs().len(),
        s.recs()[j].task.id == s.recs()[k].task.id,
    ensures
        j == k,
{
    if j < k {
        assert(s.recs()[j].task.id < s.recs()[k].task.id);
    }
    if k < j {
        assert(s.recs()[k].task.id < s.recs()[j].task.id);
    }
}

/// One record of `cur` either equals the record `prev` held at the same
/// position, or is a well-formed replacement that keeps the task's identity
/// and creation stamp and whose fresh ids stay below `cur`'s counters.
pub open spec fn rec_evolved(o: TaskRecord, n: TaskRecord, cur: Store) -> bool {
    ||| n == o
    ||| {
        &&& n.wf(cur.clock)
        &&& n.task.id == o.task.id
        &&& n.task.created_at == o.task.created_at
        &&& rec_session_ids_below(n, cur.next_session_id)
        &&& rec_log_ids_below(n, cur.next_log_id)
    }
}

/// A step that rewrites records in place (same length, identities kept,
/// counters only growing, clock moving forward) preserves store
/// well-formedness, provided the single-running-task invariant is
/// re-established separately.
pub proof fn lemma_store_evolve_wf(prev: Store, cur: Store)
    requires
        prev.wf(),
        valid_instant(cur.clock),
        cur.clock >= prev.clock,
        cur.recs().len() == prev.recs().len(),
        cur.next_task_id == prev.next_task_id,
        cur.next_session_id >= prev.next_session_id,
        cur.next_log_id >= prev.next_log_id,
        forall|j: int|
            0 <= j < cur.recs().len() ==> #[trigger] rec_evolved(
                prev.recs()[j],
                cur.recs()[j],
                cur,
            ),
        cur.single_active(),
    ensures
        cur.wf(),
{
    assert forall|j: int| 0 <= j < cur.recs().len() implies #[trigger] cur.recs()[j].wf(
        cur.clock,
    ) by {
        assert(rec_evolved(prev.recs()[j], cur.recs()[j], cur));
        if cur.recs()[j] == prev.recs()[j] {
            assert(prev.recs()[j].wf(prev.clock));
            lemma_rec_wf_clock_mono(prev.recs()[j], prev.clock, cur.clock);
        }
    }
    assert forall|j: int| 0 <= j < cur.recs().len() implies #[trigger] cur.recs()[j].task.id
        < cur.next_task_id by {
        assert(rec_evolved(prev.recs()[j], cur.recs()[j], cur));
        assert(prev.recs()[j].task.id < prev.next_task_id);
    }
    assert forall|j: int, k: int|
        #![trigger cur.recs()[j].task.id, cur.recs()[k].task.id]
        0 <= j < k < cur.recs().len() implies cur.recs()[j].task.id < cur.recs()[k].task.id by {
        assert(rec_evolved(prev.recs()[j], cur.recs()[j], cur));
        assert(rec_evolved(prev.recs()[k], cur.recs()[k], cur));
        assert(prev.recs()[j].task.id < prev.recs()[k].task.id);
    }
    assert forall|j: int| 0 <= j < cur.recs().len() implies #[trigger] rec_session_ids_below(
        cur.recs()[j],
        cur.next_session_id,
    ) by {
        assert(rec_evolved(prev.recs()[j], cur.recs()[j], cur));
        assert(rec_session_ids_below(prev.recs()[j], prev.next_session_id));
    }
    assert forall|j: int| 0 <= j < cur.recs().len() implies #[trigger] rec_log_ids_below(
        cur.recs()[j],
        cur.next_log_id,
    ) by {
        assert(rec_evolved(prev.recs()[j], cur.recs()[j], cur));
        assert(rec_log_ids_below(prev.recs()[j], prev.next_log_id));
        if !(cur.recs()[j] == prev.recs()[j]) {
        } else {
            assert forall|i: int| 0 <= i < cur.recs()[j].logs@.len()
                implies #[trigger] cur.recs()[j].logs@[i].id < cur.next_log_id by {
                assert(prev.recs()[j].logs@[i].id < prev.next_log_id);
            }
        }
    }
    assert forall|j: int, k: int|
        #![trigger cur.recs()[j].task.created_at, cur.recs()[k].task.created_at]
        0 <= j < k < cur.recs().len() implies cur.recs()[j].task.created_at
        <= cur.recs()[k].task.created_at by {
        assert(rec_evolved(prev.recs()[j], cur.recs()[j], cur));
        assert(rec_evolved(prev.recs()[k], cur.recs()[k], cur));
        assert(prev.recs()[j].task.created_at <= prev.recs()[k].task.created_at);
    }
}

/// If no record becomes running that was not already running, the
/// single-running-task invariant survives.
pub proof fn lemma_single_active_preserved(prev: Store, cur: Store)
    requires
        prev.single_active(),
        cur.recs().len() == prev.recs().len(),
        forall|j: int|
            0 <= j < cur.recs().len() ==> (is_active_status(
                #[trigger] cur.recs()[j].task.status,
            ) ==> is_active_status(prev.recs()[j].task.status)),
    ensures
        cur.single_active(),
{
    assert forall|j: int, k: int|
        #![trigger cur.recs()[j].task.status, cur.recs()[k].task.status]
        0 <= j < k < cur.recs().len() implies !(is_active_status(cur.recs()[j].task.status)
        && is_active_status(cur.recs()[k].task.status)) by {
        assert(prev.recs()[j].task.status == prev.recs()[j].task.status);
        assert(prev.recs()[k].task.status == prev.recs()[k].task.status);
        if is_active_status(cur.recs()[j].task.status) && is_active_status(
            cur.recs()[k].task.status,
        ) {
            assert(is_active_status(prev.recs()[j].task.status));
            assert(is_active_status(prev.recs()[k].task.status));
        }
    }
}

/// The record appended by `add_task`: a pending task stamped at `now`, its
/// full session template generated at once, no logs, no active session.
pub open spec fn added_task_rel(
    o: Store,
    rec: TaskRecord,
    name: String,
    user: String,
    estimated_seconds: i64,
    scheduled_date: i64,
    now: i64,
) -> bool {
    &&& rec.task == (Task {
        id: o.next_task_id,
        name: name,
        user: user,
        estimated_seconds: estimated_seconds,
        scheduled_date: scheduled_date,
        status: Status::Pending,
        created_at: now,
        started_at: Option::None,
        completed_at: Option::None,
    })
    &&& rec.sessions@ == template_sessions(o.next_task_id, o.next_session_id, now)
    &&& rec.logs@.len() == 0
    &&& rec.active is None
    &&& rec.next_session == 0
}

impl Store {
    /// Create a task scheduled for `scheduled_date` with the given estimate,
    /// and generate its fixed session template as a side effect. Returns the
    /// created task row.
    pub fn add_task(
        &mut self,
        name: String,
        user: String,
        estimated_seconds: i64,
        scheduled_date: i64,
        now: i64,
    ) -> (t: Task)
        requires
            old(self).wf(),
            old(self).has_id_room(),
            valid_instant(now),
            now >= old(self).clock,
            0 <= estimated_seconds <= MAX_INSTANT,
        ensures
            final(self).wf(),
            final(self).recs().len() == old(self).recs().len() + 1,
            forall|j: int|
                0 <= j < old(self).recs().len() ==> #[trigger] final(self).recs()[j] == old(
                    self,
                ).recs()[j],
            added_task_rel(
                *old(self),
                final(self).recs().last(),
                name,
                user,
                estimated_seconds,
                scheduled_date,
                now,
            ),
            t == final(self).recs().last().task,
            final(self).next_task_id == old(self).next_task_id + 1,
            final(self).next_session_id == old(self).next_session_id + SESSION_COUNT,
            final(self).next_log_id == old(self).next_log_id,
            final(self).clock == now,
    {
        let task_id = self.next_task_id;
        let first_sid = self.next_session_id;
        let task = Task {
            id: task_id,
            name,
            user,
            estimated_seconds,
            scheduled_date,
            status: Status::Pending,
            created_at: now,
            started_at: Option::None,
            completed_at: Option::None,
        };
        let returned = task.clone();
        let sessions = crate::sessions::make_template(task_id, first_sid, now);
        let rec = TaskRecord {
            task,
            sessions,
            logs: Vec::new(),
            active: Option::None,
            next_session: 0,
        };
        self.records.push(rec);
        self.next_task_id = task_id + 1;
        self.next_session_id = first_sid + (SESSION_COUNT as i64);
        self.clock = now;

        proof {
            let prev = *old(self);
            let cur = *self;
            assert forall|j: int| 0 <= j < prev.recs().len() implies #[trigger] cur.recs()[j].wf(
                cur.clock,
            ) by {
                assert(prev.recs()[j].wf(prev.clock));
                lemma_rec_wf_clock_mono(prev.recs()[j], prev.clock, now);
            }
            let newrec = cur.recs().last();
            assert forall|i2: int| 0 <= i2 < newrec.sessions@.len()
                implies #[trigger] newrec.session_at_wf(i2, now) by {
                assert(newrec.sessions@[i2] == template_session(task_id, first_sid, now, i2));
                assert(newrec.sessions@[0] == template_session(task_id, first_sid, now, 0));
            }
            assert(newrec.wf(cur.clock));
            assert forall|j: int| 0 <= j < cur.recs().len() implies #[trigger] rec_session_ids_below(
                cur.recs()[j],
                cur.next_session_id,
            ) by {
                if j < prev.recs().len() {
                    assert(rec_session_ids_below(prev.recs()[j], prev.next_session_id));
                } else {
                    assert(cur.recs()[j].sessions@[0] == template_session(
                        task_id,
                        first_sid,
                        now,
                        0,
                    ));
                }
            }
            assert forall|j: int, k: int|
                #![trigger cur.recs()[j].task.created_at, cur.recs()[k].task.created_at]
                0 <= j < k < cur.recs().len() implies cur.recs()[j].task.created_at
                <= cur.recs()[k].task.created_at by {
                if k < prev.recs().len() {
                    assert(cur.recs()[j] == prev.recs()[j]);
                    assert(cur.recs()[k] == prev.recs()[k]);
                } else {
                    assert(cur.recs()[k].task.created_at == now);
                    assert(prev.recs()[j].wf(prev.clock));
                    assert(prev.recs()[j].task.created_at <= prev.clock);
                }
            }
        }
        returned
    }
}

} // verus!
