//! The task scheduler as a state machine: tasks wait in a first-in first-out
//! queue, at most `max_workers` of them run at a time, and every change of a
//! task is recorded under its id. Whoever drives the scheduler asks it which
//! task to start next, runs the task, and reports how it ended.

use std::collections::VecDeque;
use vstd::prelude::*;
use vstd::string::*;
use dashmap::DashMap;
use crate::clock::now_timestamp;
use crate::duration::Duration;
use crate::entries::{
    count_where, keys_where, lemma_listed_where_none, lemma_listed_where_step,
    lemma_listing_count, lemma_listing_len, listed_where, lists_map,
};
use crate::error::DoomsdayError;
use crate::ident::new_uuid;
use crate::text::str_eq;
use crate::types::{
    strings_view, SchedulerInfo, Task, TaskInfo, TaskInfoView, TaskStatus, TaskView,
};

verus! {

/// What a map of tasks holds: for each id, the view of the task recorded
/// under it.
pub uninterp spec fn task_entries(m: DashMap<String, TaskInfo>) -> Map<Seq<char>, TaskInfoView>;

/// The map without tasks.
pub open spec fn no_tasks() -> Map<Seq<char>, TaskInfoView> {
    Map::empty()
}

/// The views of a sequence of tasks.
pub open spec fn tasks_view(s: Seq<TaskInfo>) -> Seq<TaskInfoView> {
    s.map_values(|t: TaskInfo| t@)
}

/// The ids of a sequence of tasks.
pub open spec fn task_ids(s: Seq<TaskInfo>) -> Seq<Seq<char>> {
    s.map_values(|t: TaskInfo| t.id@)
}

/// The keys of a listing of recorded tasks.
pub open spec fn recorded_keys(s: Seq<(String, TaskInfo)>) -> Seq<Seq<char>> {
    s.map_values(|e: (String, TaskInfo)| e.0@)
}

/// The values of a listing of recorded tasks.
pub open spec fn recorded_values(s: Seq<(String, TaskInfo)>) -> Seq<TaskInfoView> {
    s.map_values(|e: (String, TaskInfo)| e.1@)
}

/// Trusted: `DashMap::new` gives a map that holds nothing.
#[verifier::external_body]
fn tasks_new() -> (m: DashMap<String, TaskInfo>)
    ensures
        task_entries(m) == no_tasks(),
{
    DashMap::new()
}

/// Trusted: `DashMap::get` finds the task recorded under exactly this id, if
/// there is one; the wrapper hands out a copy of it.
#[verifier::external_body]
fn tasks_get(m: &DashMap<String, TaskInfo>, id: &str) -> (r: Option<TaskInfo>)
    ensures
        match r {
            Some(v) => task_entries(*m).contains_key(id@) && task_entries(*m)[id@] == v@,
            None => !task_entries(*m).contains_key(id@),
        },
{
    m.get(id).map(|entry| entry.value().clone())
}

/// Trusted: `DashMap::insert` records the task under the id, replacing what
/// was there, and leaves every other record as it was.
#[verifier::external_body]
fn tasks_insert(m: &mut DashMap<String, TaskInfo>, id: String, value: TaskInfo)
    ensures
        task_entries(*final(m)) == task_entries(*old(m)).insert(id@, value@),
{
    m.insert(id, value);
}

/// Trusted: `DashMap::remove` takes out the record under the id, if there is
/// one; every other record stays.
#[verifier::external_body]
fn tasks_remove(m: &mut DashMap<String, TaskInfo>, id: &str)
    ensures
        task_entries(*final(m)) == task_entries(*old(m)).remove(id@),
{
    m.remove(id);
}

/// Trusted: `DashMap::iter` visits every record exactly once, in an order
/// that is not specified; the wrapper copies each id and task as it comes.
#[verifier::external_body]
fn tasks_snapshot(m: &DashMap<String, TaskInfo>) -> (r: Vec<(String, TaskInfo)>)
    ensures
        lists_map(recorded_keys(r@), recorded_values(r@), task_entries(*m)),
{
    m.iter().map(|entry| (entry.key().clone(), entry.value().clone())).collect()
}

/// `s` without the first occurrence of `k`.
pub open spec fn without_first(s: Seq<Seq<char>>, k: Seq<char>) -> Seq<Seq<char>>
    decreases s.len(),
{
    if s.len() == 0 {
        s
    } else if s[0] == k {
        s.drop_first()
    } else {
        seq![s[0]] + without_first(s.drop_first(), k)
    }
}

/// Removing the element at the first position where `k` stands removes the
/// first occurrence of `k`.
pub proof fn lemma_without_first(s: Seq<Seq<char>>, k: Seq<char>, i: int)
    requires
        0 <= i < s.len(),
        s[i] == k,
        forall|j: int| 0 <= j < i ==> s[j] != k,
    ensures
        without_first(s, k) == s.remove(i),
    decreases s.len(),
{
    if i == 0 {
        assert(s.drop_first() =~= s.remove(0));
    } else {
        let rest = s.drop_first();
        assert forall|j: int| 0 <= j < i - 1 implies rest[j] != k by {
            assert(rest[j] == s[j + 1]);
        }
        lemma_without_first(rest, k, i - 1);
        assert(seq![s[0]] + rest.remove(i - 1) =~= s.remove(i));
    }
}

/// What stays after the first occurrence of `k` is removed: everything but
/// `k` itself stays.
pub proof fn lemma_without_first_keeps(s: Seq<Seq<char>>, k: Seq<char>, other: Seq<char>)
    requires
        s.contains(other),
        other != k,
    ensures
        without_first(s, k).contains(other),
    decreases s.len(),
{
    let i = choose|i: int| 0 <= i < s.len() && s[i] == other;
    if s[0] == k {
        assert(s.drop_first()[i - 1] == other);
    } else if i == 0 {
        assert((seq![s[0]] + without_first(s.drop_first(), k))[0] == other);
    } else {
        assert(s.drop_first()[i - 1] == other);
        lemma_without_first_keeps(s.drop_first(), k, other);
        let rest = without_first(s.drop_first(), k);
        let j = choose|j: int| 0 <= j < rest.len() && rest[j] == other;
        assert((seq![s[0]] + rest)[j + 1] == other);
    }
}

/// Removing the first occurrence of something that occurs shortens by one.
pub proof fn lemma_without_first_len(s: Seq<Seq<char>>, k: Seq<char>)
    requires
        s.contains(k),
    ensures
        without_first(s, k).len() == s.len() - 1,
    decreases s.len(),
{
    let i = choose|i: int| 0 <= i < s.len() && s[i] == k;
    if s[0] != k {
        assert(s.drop_first()[i - 1] == k);
        lemma_without_first_len(s.drop_first(), k);
    }
}

/// Whether a task with this record is waiting to run.
pub open spec fn is_pending(t: TaskInfoView) -> bool {
    t.status == TaskStatus::Pending
}

/// Whether a task with this record is running.
pub open spec fn is_running(t: TaskInfoView) -> bool {
    t.status == TaskStatus::Running
}

/// Whether a task with this record ended, well or badly, before `cutoff`.
pub open spec fn ended_before(t: TaskInfoView, cutoff: int) -> bool {
    (t.status == TaskStatus::Completed || t.status == TaskStatus::Failed) && match t.completed_at {
        Some(at) => at < cutoff,
        None => false,
    }
}

/// The record of a task that was just scheduled.
pub open spec fn pending_record(task: TaskView, id: Seq<char>, now: int) -> TaskInfoView {
    TaskInfoView {
        id: id,
        task: task,
        created_at: now,
        started_at: None,
        completed_at: None,
        status: TaskStatus::Pending,
        error: None,
    }
}

/// The record of a task that was just started.
pub open spec fn running_record(t: TaskInfoView, now: int) -> TaskInfoView {
    TaskInfoView { status: TaskStatus::Running, started_at: Some(now), ..t }
}

/// The record of a task that just ended: completed where `error` is none,
/// failed with that message otherwise.
pub open spec fn ended_record(t: TaskInfoView, error: Option<Seq<char>>, now: int) -> TaskInfoView {
    match error {
        None => TaskInfoView { status: TaskStatus::Completed, completed_at: Some(now), ..t },
        Some(msg) => TaskInfoView {
            status: TaskStatus::Failed,
            completed_at: Some(now),
            error: Some(msg),
            ..t
        },
    }
}

/// The error message of an outcome, if it is a failure.
pub open spec fn outcome_error(outcome: Result<(), String>) -> Option<Seq<char>> {
    match outcome {
        Ok(_) => None,
        Err(msg) => Some(msg@),
    }
}

/// The state of a scheduler.
pub struct SchedulerView {
    /// The latest record of every known task, by id.
    pub tasks: Map<Seq<char>, TaskInfoView>,
    /// The tasks that wait, oldest first.
    pub queue: Seq<TaskInfoView>,
    /// The ids of the tasks that were started and have not ended.
    pub in_flight: Seq<Seq<char>>,
    /// How many tasks may run at a time.
    pub max_workers: nat,
    /// Whether the scheduler has stopped taking and starting tasks.
    pub shut_down: bool,
}

impl SchedulerView {
    /// What always holds: no more tasks are in flight than there are workers,
    /// every task recorded as running is in flight, and every record stands
    /// under its own id.
    pub open spec fn wf(self) -> bool {
        &&& self.tasks.dom().finite()
        &&& self.in_flight.len() <= self.max_workers
        &&& forall|k: Seq<char>| #[trigger]
            self.tasks.contains_key(k) ==> self.tasks[k].id == k && (is_running(self.tasks[k])
                ==> self.in_flight.contains(k))
    }

    /// The state after `task` is scheduled under `id` at the instant `now`.
    pub open spec fn scheduled(self, task: TaskView, id: Seq<char>, now: int) -> SchedulerView {
        SchedulerView {
            tasks: self.tasks.insert(id, pending_record(task, id, now)),
            queue: self.queue.push(pending_record(task, id, now)),
            ..self
        }
    }

    /// Whether a task can be started: one is waiting, a worker is free, and
    /// the scheduler has not been shut down.
    pub open spec fn can_start(self) -> bool {
        !self.shut_down && self.queue.len() > 0 && self.in_flight.len() < self.max_workers
    }

    /// The state after the oldest waiting task is started at the instant `now`.
    pub open spec fn started(self, now: int) -> SchedulerView {
        let record = running_record(self.queue[0], now);
        SchedulerView {
            tasks: self.tasks.insert(record.id, record),
            queue: self.queue.drop_first(),
            in_flight: self.in_flight.push(record.id),
            ..self
        }
    }

    /// The state after the task in flight under `id` ends at the instant
    /// `now`, with an error message where it failed: its worker is free, and
    /// the record that is kept under the id, where it is one of a running
    /// task, becomes that of an ended one. A record that is not there, or is
    /// not that of a running task, stays as it is.
    pub open spec fn ended(self, id: Seq<char>, error: Option<Seq<char>>, now: int) -> SchedulerView {
        SchedulerView {
            tasks: if self.tasks.contains_key(id) && is_running(self.tasks[id]) {
                self.tasks.insert(id, ended_record(self.tasks[id], error, now))
            } else {
                self.tasks
            },
            in_flight: without_first(self.in_flight, id),
            ..self
        }
    }

    /// The state after the records of tasks that ended before `cutoff` are
    /// removed.
    pub open spec fn cleaned(self, cutoff: int) -> SchedulerView {
        SchedulerView {
            tasks: self.tasks.remove_keys(
                keys_where(self.tasks, |t: TaskInfoView| ended_before(t, cutoff)),
            ),
            ..self
        }
    }

    /// How many tasks are recorded as running.
    pub open spec fn running(self) -> nat {
        count_where(self.tasks, |t: TaskInfoView| is_running(t))
    }

    /// How many tasks are recorded as waiting.
    pub open spec fn pending(self) -> nat {
        count_where(self.tasks, |t: TaskInfoView| is_pending(t))
    }
}

/// At no time are more tasks recorded as running than there are workers.
pub proof fn lemma_running_bounded(s: SchedulerView)
    requires
        s.wf(),
    ensures
        s.running() <= s.max_workers,
{
    let running = keys_where(s.tasks, |t: TaskInfoView| is_running(t));
    let flying = s.in_flight.to_set();
    vstd::seq_lib::seq_to_set_is_finite(s.in_flight);
    s.in_flight.lemma_cardinality_of_set();
    assert(running.subset_of(flying)) by {
        assert forall|k: Seq<char>| running.contains(k) implies flying.contains(k) by {
            assert(s.tasks.contains_key(k));
        }
    }
    vstd::set_lib::lemma_len_subset(running, flying);
}

/// Scheduling a task keeps what always holds.
pub proof fn lemma_scheduled_keeps_wf(s: SchedulerView, task: TaskView, id: Seq<char>, now: int)
    requires
        s.wf(),
    ensures
        s.scheduled(task, id, now).wf(),
{
    let after = s.scheduled(task, id, now);
    assert forall|k: Seq<char>| #[trigger] after.tasks.contains_key(k) implies after.tasks[k].id
        == k && (is_running(after.tasks[k]) ==> after.in_flight.contains(k)) by {
        if k != id {
            assert(s.tasks.contains_key(k));
        }
    }
}

/// Starting the oldest waiting task keeps what always holds.
pub proof fn lemma_started_keeps_wf(s: SchedulerView, now: int)
    requires
        s.wf(),
        s.can_start(),
    ensures
        s.started(now).wf(),
{
    let after = s.started(now);
    let record = running_record(s.queue[0], now);
    assert forall|k: Seq<char>| #[trigger] after.tasks.contains_key(k) implies after.tasks[k].id
        == k && (is_running(after.tasks[k]) ==> after.in_flight.contains(k)) by {
        if k != record.id {
            assert(s.tasks.contains_key(k));
            if is_running(s.tasks[k]) {
                let i = choose|i: int| 0 <= i < s.in_flight.len() && s.in_flight[i] == k;
                assert(after.in_flight[i] == k);
            }
        } else {
            assert(after.in_flight[s.in_flight.len() as int] == k);
        }
    }
}

/// The end of a task in flight keeps what always holds.
pub proof fn lemma_ended_keeps_wf(s: SchedulerView, id: Seq<char>, error: Option<Seq<char>>, now: int)
    requires
        s.wf(),
        s.in_flight.contains(id),
    ensures
        s.ended(id, error, now).wf(),
{
    let after = s.ended(id, error, now);
    lemma_without_first_len(s.in_flight, id);
    assert forall|k: Seq<char>| #[trigger] after.tasks.contains_key(k) implies after.tasks[k].id
        == k && (is_running(after.tasks[k]) ==> after.in_flight.contains(k)) by {
        assert(s.tasks.contains_key(k));
        if k != id {
            if is_running(s.tasks[k]) {
                lemma_without_first_keeps(s.in_flight, id, k);
            }
        }
    }
}

/// Forgetting ended tasks keeps what always holds.
pub proof fn lemma_cleaned_keeps_wf(s: SchedulerView, cutoff: int)
    requires
        s.wf(),
    ensures
        s.cleaned(cutoff).wf(),
{
    let after = s.cleaned(cutoff);
    assert(after.tasks.dom().subset_of(s.tasks.dom()));
    vstd::set_lib::lemma_len_subset(after.tasks.dom(), s.tasks.dom());
    assert forall|k: Seq<char>| #[trigger] after.tasks.contains_key(k) implies after.tasks[k].id
        == k && (is_running(after.tasks[k]) ==> after.in_flight.contains(k)) by {
        assert(s.tasks.contains_key(k));
    }
}

/// Whether a record is that of a task on its way from pending through
/// running to completed: pending, it has not started; running, it has started
/// and not ended; completed, it has started and ended; and at no time has it
/// an error.
pub open spec fn on_course(t: TaskInfoView) -> bool {
    match t.status {
        TaskStatus::Pending => t.started_at is None && t.completed_at is None && t.error is None,
        TaskStatus::Running => t.started_at is Some && t.completed_at is None && t.error is None,
        TaskStatus::Completed => t.started_at is Some && t.completed_at is Some && t.error is None,
        TaskStatus::Failed => false,
    }
}

impl SchedulerView {
    /// Whether all has gone well so far: every task was scheduled under an id
    /// of its own and no task has failed. Then every record is on course, the
    /// queue holds the records of the pending tasks, each once, and the tasks
    /// in flight are the running ones, each once.
    pub open spec fn orderly(self) -> bool {
        &&& self.wf()
        &&& self.in_flight.no_duplicates()
        &&& forall|i: int|
            0 <= i < self.in_flight.len() ==> self.tasks.contains_key(#[trigger] self.in_flight[i])
                && is_running(self.tasks[self.in_flight[i]])
        &&& forall|i: int, j: int|
            0 <= i < j < self.queue.len() ==> (#[trigger] self.queue[i]).id
                != (#[trigger] self.queue[j]).id
        &&& forall|i: int|
            0 <= i < self.queue.len() ==> self.tasks.contains_key((#[trigger] self.queue[i]).id)
                && self.tasks[self.queue[i].id] == self.queue[i] && is_pending(self.queue[i])
        &&& forall|k: Seq<char>| #[trigger]
            self.tasks.contains_key(k) ==> on_course(self.tasks[k]) && (is_pending(self.tasks[k])
                ==> self.queue.contains(self.tasks[k]))
    }

    /// Whether nothing waits and nothing runs.
    pub open spec fn at_rest(self) -> bool {
        self.queue.len() == 0 && self.in_flight.len() == 0
    }
}

/// A scheduler without tasks is orderly.
pub proof fn lemma_empty_is_orderly(s: SchedulerView)
    requires
        s.tasks == no_tasks(),
        s.queue.len() == 0,
        s.in_flight.len() == 0,
    ensures
        s.orderly(),
{
}

/// Scheduling a task under an id that no task has keeps the scheduler
/// orderly, and the task is one more that is known.
pub proof fn lemma_scheduled_keeps_orderly(s: SchedulerView, task: TaskView, id: Seq<char>, now: int)
    requires
        s.orderly(),
        !s.tasks.contains_key(id),
    ensures
        s.scheduled(task, id, now).orderly(),
        s.scheduled(task, id, now).tasks.dom() == s.tasks.dom().insert(id),
{
    let after = s.scheduled(task, id, now);
    let record = pending_record(task, id, now);
    lemma_scheduled_keeps_wf(s, task, id, now);
    assert forall|i: int| 0 <= i < after.in_flight.len() implies after.tasks.contains_key(
        #[trigger] after.in_flight[i],
    ) && is_running(after.tasks[after.in_flight[i]]) by {
        assert(s.tasks.contains_key(s.in_flight[i]));
    }
    assert forall|i: int| 0 <= i < after.queue.len() implies after.tasks.contains_key(
        (#[trigger] after.queue[i]).id,
    ) && after.tasks[after.queue[i].id] == after.queue[i] && is_pending(after.queue[i]) by {
        if i < s.queue.len() {
            assert(after.queue[i] == s.queue[i]);
            assert(s.tasks.contains_key(s.queue[i].id));
        }
    }
    assert forall|i: int, j: int| 0 <= i < j < after.queue.len() implies (#[trigger] after.queue[i]).id
        != (#[trigger] after.queue[j]).id by {
        assert(after.queue[i] == s.queue[i]);
        assert(s.tasks.contains_key(s.queue[i].id));
        if j < s.queue.len() {
            assert(after.queue[j] == s.queue[j]);
        }
    }
    assert forall|k: Seq<char>| #[trigger] after.tasks.contains_key(k) implies on_course(
        after.tasks[k],
    ) && (is_pending(after.tasks[k]) ==> after.queue.contains(after.tasks[k])) by {
        if k == id {
            assert(after.queue[s.queue.len() as int] == record);
        } else {
            assert(s.tasks.contains_key(k));
            if is_pending(s.tasks[k]) {
                let i = choose|i: int| 0 <= i < s.queue.len() && s.queue[i] == s.tasks[k];
                assert(after.queue[i] == s.tasks[k]);
            }
        }
    }
    assert(after.tasks.dom() =~= s.tasks.dom().insert(id));
}

/// Starting the oldest waiting task keeps the scheduler orderly, and the
/// same tasks are known.
pub proof fn lemma_started_keeps_orderly(s: SchedulerView, now: int)
    requires
        s.orderly(),
        s.can_start(),
    ensures
        s.started(now).orderly(),
        s.started(now).tasks.dom() == s.tasks.dom(),
{
    let after = s.started(now);
    let first = s.queue[0];
    let record = running_record(first, now);
    lemma_started_keeps_wf(s, now);
    assert(s.tasks.contains_key(first.id) && s.tasks[first.id] == first && is_pending(first));
    assert(!s.in_flight.contains(first.id)) by {
        if s.in_flight.contains(first.id) {
            let i = choose|i: int| 0 <= i < s.in_flight.len() && s.in_flight[i] == first.id;
            assert(is_running(s.tasks[s.in_flight[i]]));
        }
    }
    assert(after.in_flight.no_duplicates()) by {
        assert forall|a: int, b: int|
            0 <= a < after.in_flight.len() && 0 <= b < after.in_flight.len() && a != b implies after.in_flight[a]
            != after.in_flight[b] by {
            if a < s.in_flight.len() {
                assert(after.in_flight[a] == s.in_flight[a]);
                assert(s.in_flight.contains(s.in_flight[a]));
            }
            if b < s.in_flight.len() {
                assert(after.in_flight[b] == s.in_flight[b]);
                assert(s.in_flight.contains(s.in_flight[b]));
            }
        }
    }
    assert forall|i: int| 0 <= i < after.in_flight.len() implies after.tasks.contains_key(
        #[trigger] after.in_flight[i],
    ) && is_running(after.tasks[after.in_flight[i]]) by {
        if i < s.in_flight.len() {
            assert(after.in_flight[i] == s.in_flight[i]);
            assert(s.tasks.contains_key(s.in_flight[i]));
            assert(s.in_flight.contains(s.in_flight[i]));
        }
    }
    assert forall|i: int| 0 <= i < after.queue.len() implies after.tasks.contains_key(
        (#[trigger] after.queue[i]).id,
    ) && after.tasks[after.queue[i].id] == after.queue[i] && is_pending(after.queue[i]) by {
        assert(after.queue[i] == s.queue[i + 1]);
        assert(s.queue[0].id != s.queue[i + 1].id);
        assert(s.tasks.contains_key(s.queue[i + 1].id));
    }
    assert forall|i: int, j: int| 0 <= i < j < after.queue.len() implies (#[trigger] after.queue[i]).id
        != (#[trigger] after.queue[j]).id by {
        assert(after.queue[i] == s.queue[i + 1]);
        assert(after.queue[j] == s.queue[j + 1]);
    }
    assert forall|k: Seq<char>| #[trigger] after.tasks.contains_key(k) implies on_course(
        after.tasks[k],
    ) && (is_pending(after.tasks[k]) ==> after.queue.contains(after.tasks[k])) by {
        if k != first.id {
            assert(s.tasks.contains_key(k));
            if is_pending(s.tasks[k]) {
                let i = choose|i: int| 0 <= i < s.queue.len() && s.queue[i] == s.tasks[k];
                assert(s.tasks[s.queue[i].id] == s.queue[i]);
                assert(s.tasks[k].id == k);
                assert(i != 0);
                assert(after.queue[i - 1] == s.tasks[k]);
            }
        }
    }
    assert(after.tasks.dom() =~= s.tasks.dom());
}

/// What stays of a sequence without repetition when the first occurrence of
/// `k` is removed: everything but `k`, each once.
pub proof fn lemma_without_first_of_distinct(s: Seq<Seq<char>>, k: Seq<char>)
    requires
        s.no_duplicates(),
        s.contains(k),
    ensures
        without_first(s, k).no_duplicates(),
        !without_first(s, k).contains(k),
        forall|x: Seq<char>| without_first(s, k).contains(x) ==> s.contains(x),
{
    let i = choose|i: int| 0 <= i < s.len() && s[i] == k;
    assert forall|j: int| 0 <= j < i implies s[j] != k by {}
    lemma_without_first(s, k, i);
    let rest = s.remove(i);
    assert forall|a: int, b: int|
        0 <= a < rest.len() && 0 <= b < rest.len() && a != b implies rest[a] != rest[b] by {
        let from_a = if a < i { a } else { a + 1 };
        let from_b = if b < i { b } else { b + 1 };
        assert(rest[a] == s[from_a]);
        assert(rest[b] == s[from_b]);
    }
    assert forall|x: Seq<char>| rest.contains(x) implies s.contains(x) && x != k by {
        let a = choose|a: int| 0 <= a < rest.len() && rest[a] == x;
        let from_a = if a < i { a } else { a + 1 };
        assert(rest[a] == s[from_a]);
    }
}

/// The end, without error, of a task in flight keeps the scheduler orderly,
/// and the same tasks are known.
pub proof fn lemma_succeeded_keeps_orderly(s: SchedulerView, id: Seq<char>, now: int)
    requires
        s.orderly(),
        s.in_flight.contains(id),
    ensures
        s.ended(id, None, now).orderly(),
        s.ended(id, None, now).tasks.dom() == s.tasks.dom(),
        s.ended(id, None, now).tasks[id].status == TaskStatus::Completed,
{
    let after = s.ended(id, None, now);
    lemma_ended_keeps_wf(s, id, None, now);
    lemma_without_first_of_distinct(s.in_flight, id);
    let at = choose|i: int| 0 <= i < s.in_flight.len() && s.in_flight[i] == id;
    assert(s.tasks.contains_key(s.in_flight[at]) && is_running(s.tasks[s.in_flight[at]]));
    assert forall|i: int| 0 <= i < after.in_flight.len() implies after.tasks.contains_key(
        #[trigger] after.in_flight[i],
    ) && is_running(after.tasks[after.in_flight[i]]) by {
        let x = after.in_flight[i];
        assert(after.in_flight.contains(x));
        assert(s.in_flight.contains(x));
        let j = choose|j: int| 0 <= j < s.in_flight.len() && s.in_flight[j] == x;
        assert(s.tasks.contains_key(s.in_flight[j]) && is_running(s.tasks[s.in_flight[j]]));
    }
    assert forall|i: int| 0 <= i < after.queue.len() implies after.tasks.contains_key(
        (#[trigger] after.queue[i]).id,
    ) && after.tasks[after.queue[i].id] == after.queue[i] && is_pending(after.queue[i]) by {
        assert(s.tasks.contains_key(s.queue[i].id));
    }
    assert forall|k: Seq<char>| #[trigger] after.tasks.contains_key(k) implies on_course(
        after.tasks[k],
    ) && (is_pending(after.tasks[k]) ==> after.queue.contains(after.tasks[k])) by {
        assert(s.tasks.contains_key(k));
    }
    assert(after.tasks.dom() =~= s.tasks.dom());
}

/// Where all has gone well and nothing waits or runs any more, every task
/// that is known has completed: its record has both times and no error.
pub proof fn lemma_orderly_at_rest(s: SchedulerView)
    requires
        s.orderly(),
        s.at_rest(),
    ensures
        forall|k: Seq<char>| #[trigger]
            s.tasks.contains_key(k) ==> s.tasks[k].status == TaskStatus::Completed
                && s.tasks[k].started_at is Some && s.tasks[k].completed_at is Some
                && s.tasks[k].error is None,
{
    assert forall|k: Seq<char>| #[trigger] s.tasks.contains_key(k) implies s.tasks[k].status
        == TaskStatus::Completed && s.tasks[k].started_at is Some && s.tasks[k].completed_at
        is Some && s.tasks[k].error is None by {
        assert(on_course(s.tasks[k]));
        if is_pending(s.tasks[k]) {
            assert(s.queue.contains(s.tasks[k]));
        }
        if is_running(s.tasks[k]) {
            assert(s.in_flight.contains(k));
        }
    }
}

/// One step of a run in which no task fails: a task is scheduled, the
/// oldest waiting task is started, or a task in flight ends without error.
pub enum Step {
    Schedule { task: TaskView, id: Seq<char>, now: int },
    Start { now: int },
    Succeed { id: Seq<char>, now: int },
}

impl SchedulerView {
    /// Whether a step can be taken: a task is scheduled under an id that no
    /// task has, a task is started where one can be started, and a task ends
    /// that is in flight.
    pub open spec fn allows(self, step: Step) -> bool {
        match step {
            Step::Schedule { task, id, now } => !self.tasks.contains_key(id),
            Step::Start { now } => self.can_start(),
            Step::Succeed { id, now } => self.in_flight.contains(id),
        }
    }

    /// The state after a step.
    pub open spec fn after(self, step: Step) -> SchedulerView {
        match step {
            Step::Schedule { task, id, now } => self.scheduled(task, id, now),
            Step::Start { now } => self.started(now),
            Step::Succeed { id, now } => self.ended(id, None, now),
        }
    }

    /// The state after a run of steps.
    pub open spec fn after_all(self, steps: Seq<Step>) -> SchedulerView
        decreases steps.len(),
    {
        if steps.len() == 0 {
            self
        } else {
            self.after_all(steps.drop_last()).after(steps.last())
        }
    }

    /// Whether each step of a run can be taken when its turn comes.
    pub open spec fn allows_all(self, steps: Seq<Step>) -> bool
        decreases steps.len(),
    {
        if steps.len() == 0 {
            true
        } else {
            self.allows_all(steps.drop_last()) && self.after_all(steps.drop_last()).allows(
                steps.last(),
            )
        }
    }
}

/// The ids under which the steps of a run schedule tasks.
pub open spec fn scheduled_ids(steps: Seq<Step>) -> Set<Seq<char>>
    decreases steps.len(),
{
    if steps.len() == 0 {
        Set::empty()
    } else {
        match steps.last() {
            Step::Schedule { task, id, now } => scheduled_ids(steps.drop_last()).insert(id),
            _ => scheduled_ids(steps.drop_last()),
        }
    }
}

/// A run of steps, each of which can be taken, keeps an orderly scheduler
/// orderly, and the tasks known after it are those known before and those
/// that the run scheduled.
pub proof fn lemma_run_keeps_orderly(s: SchedulerView, steps: Seq<Step>)
    requires
        s.orderly(),
        s.allows_all(steps),
    ensures
        s.after_all(steps).orderly(),
        s.after_all(steps).tasks.dom() == s.tasks.dom() + scheduled_ids(steps),
    decreases steps.len(),
{
    if steps.len() == 0 {
        assert(s.tasks.dom() + scheduled_ids(steps) =~= s.tasks.dom());
    } else {
        let before = s.after_all(steps.drop_last());
        lemma_run_keeps_orderly(s, steps.drop_last());
        match steps.last() {
            Step::Schedule { task, id, now } => {
                lemma_scheduled_keeps_orderly(before, task, id, now);
                assert(before.tasks.dom().insert(id) =~= s.tasks.dom() + scheduled_ids(steps));
            },
            Step::Start { now } => {
                lemma_started_keeps_orderly(before, now);
            },
            Step::Succeed { id, now } => {
                lemma_succeeded_keeps_orderly(before, id, now);
            },
        }
    }
}

/// However many tasks are scheduled on a scheduler that starts without any,
/// each under an id of its own, and however their starts and their ends
/// without error come in between: once nothing waits and nothing runs, the
/// tasks that are known are those that were scheduled, and each of them has
/// completed, with both times set and no error.
pub proof fn lemma_run_ends_completed(s: SchedulerView, steps: Seq<Step>)
    requires
        s.tasks == no_tasks(),
        s.queue.len() == 0,
        s.in_flight.len() == 0,
        s.allows_all(steps),
        s.after_all(steps).at_rest(),
    ensures
        s.after_all(steps).tasks.dom() == scheduled_ids(steps),
        forall|k: Seq<char>| #[trigger]
            s.after_all(steps).tasks.contains_key(k) ==> s.after_all(steps).tasks[k].status
                == TaskStatus::Completed && s.after_all(steps).tasks[k].started_at is Some
                && s.after_all(steps).tasks[k].completed_at is Some && s.after_all(
                steps,
            ).tasks[k].error is None,
{
    lemma_empty_is_orderly(s);
    lemma_run_keeps_orderly(s, steps);
    lemma_orderly_at_rest(s.after_all(steps));
    assert(s.tasks.dom() + scheduled_ids(steps) =~= scheduled_ids(steps));
}

/// The scheduler.
pub struct Scheduler {
    tasks: DashMap<String, TaskInfo>,
    queue: VecDeque<TaskInfo>,
    in_flight: Vec<String>,
    max_workers: usize,
    shut_down: bool,
}

impl Scheduler {
    /// The state of the scheduler.
    pub closed spec fn view(&self) -> SchedulerView {
        SchedulerView {
            tasks: task_entries(self.tasks),
            queue: tasks_view(self.queue@),
            in_flight: strings_view(self.in_flight@),
            max_workers: self.max_workers as nat,
            shut_down: self.shut_down,
        }
    }

    /// What every operation keeps: the state is well formed.
    pub open spec fn wf(&self) -> bool {
        self@.wf()
    }

    /// A scheduler with `max_workers` workers and no task.
    pub fn new(max_workers: usize) -> (r: Self)
        ensures
            r.wf(),
            r@.tasks == no_tasks(),
            r@.queue.len() == 0,
            r@.in_flight.len() == 0,
            r@.max_workers == max_workers,
            !r@.shut_down,
    {
        let r = Scheduler {
            tasks: tasks_new(),
            queue: VecDeque::new(),
            in_flight: Vec::new(),
            max_workers,
            shut_down: false,
        };
        assert(r@.queue =~= Seq::<TaskInfoView>::empty());
        assert(r@.in_flight =~= Seq::<Seq<char>>::empty());
        r
    }

    /// Registers `task` under `id` as pending since `now` and puts it at the
    /// end of the queue. Refused, with nothing changed, after shutdown.
    pub fn schedule_task_as(&mut self, task: Task, id: String, now: i64) -> (r: Result<
        String,
        DoomsdayError,
    >)
        requires
            old(self).wf(),
        ensures
            final(self).wf(),
            match r {
                Ok(given) => !old(self)@.shut_down && given@ == id@
                    && final(self)@ == old(self)@.scheduled(task@, id@, now as int),
                Err(e) => e matches DoomsdayError::Scheduler(m) && m@
                    == "Failed to schedule task: channel closed"@ && old(self)@.shut_down
                    && final(self)@ == old(self)@,
            },
    {
        if self.shut_down {
            return Err(DoomsdayError::scheduler("Failed to schedule task: channel closed"));
        }
        let record = TaskInfo {
            id: id.clone(),
            task: task,
            created_at: now,
            started_at: None,
            completed_at: None,
            status: TaskStatus::Pending,
            error: None,
        };
        proof {
            lemma_scheduled_keeps_wf(old(self)@, task@, id@, now as int);
            assert(tasks_view(self.queue@.push(record)) =~= tasks_view(self.queue@).push(record@));
        }
        tasks_insert(&mut self.tasks, id.clone(), record.clone());
        self.queue.push_back(record);
        Ok(id)
    }

    /// Registers `task` under a fresh id as pending since the instant the
    /// clock shows, puts it at the end of the queue and returns the id. Refused,
    /// with nothing changed, after shutdown.
    pub fn schedule_task(&mut self, task: Task) -> (r: Result<String, DoomsdayError>)
        requires
            old(self).wf(),
        ensures
            final(self).wf(),
            match r {
                Ok(id) => !old(self)@.shut_down && exists|now: i64|
                    final(self)@ == #[trigger] old(self)@.scheduled(task@, id@, now as int),
                Err(e) => e matches DoomsdayError::Scheduler(m) && m@
                    == "Failed to schedule task: channel closed"@ && old(self)@.shut_down
                    && final(self)@ == old(self)@,
            },
    {
        let id = new_uuid();
        let now = now_timestamp();
        self.schedule_task_as(task, id, now)
    }

    /// The latest record of the task with this id.
    pub fn get_task(&self, task_id: &str) -> (r: Option<TaskInfo>)
        ensures
            match r {
                Some(t) => self@.tasks.contains_key(task_id@) && self@.tasks[task_id@] == t@,
                None => !self@.tasks.contains_key(task_id@),
            },
    {
        tasks_get(&self.tasks, task_id)
    }

    /// The latest record of every known task, each once, in no particular
    /// order.
    pub fn list_tasks(&self) -> (r: Vec<TaskInfo>)
        requires
            self.wf(),
        ensures
            lists_map(task_ids(r@), tasks_view(r@), self@.tasks),
            r.len() == self@.tasks.dom().len(),
    {
        let snapshot = tasks_snapshot(&self.tasks);
        let mut out: Vec<TaskInfo> = Vec::new();
        let mut i: usize = 0;
        while i < snapshot.len()
            invariant
                i <= snapshot.len(),
                self.wf(),
                lists_map(recorded_keys(snapshot@), recorded_values(snapshot@), self@.tasks),
                out.len() == i,
                forall|j: int|
                    0 <= j < i ==> (#[trigger] out@[j])@ == snapshot@[j].1@ && out@[j].id@
                        == snapshot@[j].0@,
            decreases snapshot.len() - i,
        {
            let record = snapshot[i].1.clone();
            proof {
                let k = recorded_keys(snapshot@)[i as int];
                assert(self@.tasks.contains_key(k)
                    && self@.tasks[k] == recorded_values(snapshot@)[i as int]);
            }
            out.push(record);
            i += 1;
        }
        proof {
            assert(task_ids(out@) =~= recorded_keys(snapshot@));
            assert(tasks_view(out@) =~= recorded_values(snapshot@));
            lemma_listing_len(task_ids(out@), tasks_view(out@), self@.tasks);
        }
        out
    }

    /// The load: the number of workers, of waiting tasks and of running
    /// tasks. Never more tasks run than there are workers.
    pub fn get_info(&self) -> (info: SchedulerInfo)
        requires
            self.wf(),
        ensures
            info.workers == self@.max_workers,
            info.pending_tasks == self@.pending(),
            info.running_tasks == self@.running(),
            info.running_tasks <= info.workers,
    {
        let tasks = self.list_tasks();
        let ghost views = tasks_view(tasks@);
        let ghost pending = |t: TaskInfoView| is_pending(t);
        let ghost running = |t: TaskInfoView| is_running(t);
        let mut pending_tasks: usize = 0;
        let mut running_tasks: usize = 0;
        let mut i: usize = 0;
        while i < tasks.len()
            invariant
                i <= tasks.len(),
                views == tasks_view(tasks@),
                pending == |t: TaskInfoView| is_pending(t),
                running == |t: TaskInfoView| is_running(t),
                pending_tasks == views.take(i as int).filter(pending).len(),
                running_tasks == views.take(i as int).filter(running).len(),
                pending_tasks + running_tasks <= i,
            decreases tasks.len() - i,
        {
            proof {
                let v = views[i as int];
                assert(v.status == tasks@[i as int].status);
                assert(views.take(i + 1) =~= views.take(i as int).push(v));
                views.take(i as int).lemma_filter_push(v, pending);
                views.take(i as int).lemma_filter_push(v, running);
            }
            match tasks[i].status {
                TaskStatus::Pending => {
                    pending_tasks += 1;
                },
                TaskStatus::Running => {
                    running_tasks += 1;
                },
                _ => {},
            }
            i += 1;
        }
        proof {
            assert(views.take(i as int) =~= views);
            lemma_listing_count(task_ids(tasks@), views, self@.tasks, pending);
            lemma_listing_count(task_ids(tasks@), views, self@.tasks, running);
            lemma_running_bounded(self@);
        }
        SchedulerInfo { workers: self.max_workers, pending_tasks, running_tasks }
    }

    /// Starts the oldest waiting task, if one can be started at all: records
    /// it as running since `now`, counts it as in flight and hands it out to be
    /// run.
    pub fn next_task_at(&mut self, now: i64) -> (r: Option<TaskInfo>)
        requires
            old(self).wf(),
        ensures
            final(self).wf(),
            match r {
                Some(t) => old(self)@.can_start() && final(self)@ == old(self)@.started(now as int)
                    && t@ == running_record(old(self)@.queue[0], now as int),
                None => !old(self)@.can_start() && final(self)@ == old(self)@,
            },
    {
        if self.shut_down || self.in_flight.len() >= self.max_workers {
            return None;
        }
        let ghost before = self@;
        match self.queue.pop_front() {
            None => None,
            Some(waiting) => {
                let record = TaskInfo {
                    id: waiting.id,
                    task: waiting.task,
                    created_at: waiting.created_at,
                    started_at: Some(now),
                    completed_at: waiting.completed_at,
                    status: TaskStatus::Running,
                    error: waiting.error,
                };
                proof {
                    assert(before.queue[0] == waiting@);
                    assert(record@ == running_record(before.queue[0], now as int));
                    assert(tasks_view(self.queue@) =~= before.queue.drop_first());
                    assert(strings_view(self.in_flight@.push(record.id)) =~= strings_view(
                        self.in_flight@,
                    ).push(record.id@));
                    lemma_started_keeps_wf(before, now as int);
                }
                tasks_insert(&mut self.tasks, record.id.clone(), record.clone());
                self.in_flight.push(record.id.clone());
                Some(record)
            },
        }
    }

    /// Starts the oldest waiting task, if one can be started at all, at the
    /// instant the clock shows.
    pub fn next_task(&mut self) -> (r: Option<TaskInfo>)
        requires
            old(self).wf(),
        ensures
            final(self).wf(),
            match r {
                Some(t) => old(self)@.can_start() && exists|now: i64|
                    final(self)@ == #[trigger] old(self)@.started(now as int) && t@
                        == running_record(old(self)@.queue[0], now as int),
                None => !old(self)@.can_start() && final(self)@ == old(self)@,
            },
    {
        let now = now_timestamp();
        self.next_task_at(now)
    }

    /// Records how the task in flight under the id of `info` ended at the
    /// instant `now`: completed where `outcome` is `Ok`, failed with the message
    /// where it is `Err`. Its worker is free again. The record is made from the
    /// one that the scheduler keeps under the id, not from `info`. Refused,
    /// with nothing changed, where no task with that id is in flight.
    pub fn complete_task_at(&mut self, info: TaskInfo, outcome: Result<(), String>, now: i64) -> (r:
        Result<(), DoomsdayError>)
        requires
            old(self).wf(),
        ensures
            final(self).wf(),
            match r {
                Ok(_) => old(self)@.in_flight.contains(info.id@)
                    && final(self)@ == old(self)@.ended(info.id@, outcome_error(outcome), now as int),
                Err(e) => e matches DoomsdayError::Scheduler(m) && m@ == "Task is not running"@
                    && !old(self)@.in_flight.contains(info.id@) && final(self)@ == old(self)@,
            },
    {
        let ghost before = self@;
        let ghost flying = strings_view(self.in_flight@);
        let mut i: usize = 0;
        while i < self.in_flight.len()
            invariant
                i <= self.in_flight.len(),
                self@ == before,
                flying == strings_view(self.in_flight@),
                forall|j: int| 0 <= j < i ==> flying[j] != info.id@,
            ensures
                i < self.in_flight.len() ==> flying[i as int] == info.id@,
            decreases self.in_flight.len() - i,
        {
            if str_eq(self.in_flight[i].as_str(), info.id.as_str()) {
                break ;
            }
            i += 1;
        }
        if i >= self.in_flight.len() {
            proof {
                assert(!flying.contains(info.id@));
            }
            return Err(DoomsdayError::scheduler("Task is not running"));
        }
        proof {
            assert(flying[i as int] == info.id@);
            lemma_without_first(flying, info.id@, i as int);
            assert(strings_view(self.in_flight@.remove(i as int)) =~= flying.remove(i as int));
            lemma_ended_keeps_wf(before, info.id@, outcome_error(outcome), now as int);
        }
        let _ = self.in_flight.remove(i);
        match tasks_get(&self.tasks, info.id.as_str()) {
            Some(kept) => {
                match kept.status {
                    TaskStatus::Running => {
                        let record = match outcome {
                            Ok(_) => TaskInfo {
                                id: kept.id,
                                task: kept.task,
                                created_at: kept.created_at,
                                started_at: kept.started_at,
                                completed_at: Some(now),
                                status: TaskStatus::Completed,
                                error: kept.error,
                            },
                            Err(msg) => TaskInfo {
                                id: kept.id,
                                task: kept.task,
                                created_at: kept.created_at,
                                started_at: kept.started_at,
                                completed_at: Some(now),
                                status: TaskStatus::Failed,
                                error: Some(msg),
                            },
                        };
                        tasks_insert(&mut self.tasks, info.id, record);
                    },
                    _ => {},
                }
            },
            None => {},
        }
        Ok(())
    }

    /// Records how the task in flight with record `info` ended, at the instant
    /// the clock shows.
    pub fn complete_task(&mut self, info: TaskInfo, outcome: Result<(), String>) -> (r: Result<
        (),
        DoomsdayError,
    >)
        requires
            old(self).wf(),
        ensures
            final(self).wf(),
            match r {
                Ok(_) => old(self)@.in_flight.contains(info.id@) && exists|now: i64|
                    final(self)@ == #[trigger] old(self)@.ended(
                        info.id@,
                        outcome_error(outcome),
                        now as int,
                    ),
                Err(e) => e matches DoomsdayError::Scheduler(m) && m@ == "Task is not running"@
                    && !old(self)@.in_flight.contains(info.id@) && final(self)@ == old(self)@,
            },
    {
        let now = now_timestamp();
        self.complete_task_at(info, outcome, now)
    }

    /// Forgets the tasks that ended, well or badly, more than `max_age` before
    /// the instant `now`.
    pub fn cleanup_completed_at(&mut self, max_age: Duration, now: i64)
        requires
            old(self).wf(),
        ensures
            final(self).wf(),
            final(self)@ == old(self)@.cleaned(now - max_age.seconds),
    {
        let ghost before = self@;
        let ghost cutoff = now - max_age.seconds;
        let ghost pred = |t: TaskInfoView| ended_before(t, cutoff);
        let snapshot = tasks_snapshot(&self.tasks);
        let ghost keys = recorded_keys(snapshot@);
        let ghost vals = recorded_values(snapshot@);
        proof {
            lemma_listed_where_none(keys, vals, pred);
            assert(before.tasks.remove_keys(Set::<Seq<char>>::empty()) =~= before.tasks);
        }
        let mut i: usize = 0;
        while i < snapshot.len()
            invariant
                i <= snapshot.len(),
                keys == recorded_keys(snapshot@),
                vals == recorded_values(snapshot@),
                keys.len() == vals.len() == snapshot.len(),
                cutoff == now - max_age.seconds,
                pred == |t: TaskInfoView| ended_before(t, cutoff),
                self@ == (SchedulerView {
                    tasks: before.tasks.remove_keys(listed_where(keys, vals, pred, i as int)),
                    ..before
                }),
            decreases snapshot.len() - i,
        {
            let task = &snapshot[i].1;
            let finished = match task.status {
                TaskStatus::Completed => true,
                TaskStatus::Failed => true,
                _ => false,
            };
            let old_enough = match task.completed_at {
                Some(at) => (at as i128) < now as i128 - max_age.seconds as i128,
                None => false,
            };
            proof {
                lemma_listed_where_step(keys, vals, pred, i as int);
                assert(vals[i as int] == snapshot@[i as int].1@);
                assert((finished && old_enough) == pred(vals[i as int]));
            }
            if finished && old_enough {
                tasks_remove(&mut self.tasks, snapshot[i].0.as_str());
                proof {
                    let found = listed_where(keys, vals, pred, i as int);
                    assert(before.tasks.remove_keys(found).remove(keys[i as int])
                        =~= before.tasks.remove_keys(found.insert(keys[i as int])));
                }
            }
            i += 1;
        }
        proof {
            lemma_listing_count(keys, vals, before.tasks, pred);
            lemma_cleaned_keeps_wf(before, cutoff);
        }
    }

    /// Forgets the tasks that ended, well or badly, more than `max_age` before
    /// the instant the clock shows.
    pub fn cleanup_completed_tasks(&mut self, max_age: Duration)
        requires
            old(self).wf(),
        ensures
            final(self).wf(),
            exists|now: i64| final(self)@ == #[trigger] old(self)@.cleaned(now - max_age.seconds),
    {
        let now = now_timestamp();
        self.cleanup_completed_at(max_age, now);
    }

    /// Stops the scheduler: from now on no task is taken and none is started.
    /// Tasks in flight may still end.
    pub fn shutdown(&mut self)
        requires
            old(self).wf(),
        ensures
            final(self).wf(),
            final(self)@ == (SchedulerView { shut_down: true, ..old(self)@ }),
    {
        self.shut_down = true;
    }
}

impl Default for Scheduler {
    /// A scheduler with four workers.
    fn default() -> (r: Self)
        ensures
            r.wf(),
            r@.tasks == no_tasks(),
            r@.queue.len() == 0,
            r@.in_flight.len() == 0,
            r@.max_workers == 4,
            !r@.shut_down,
    {
        Scheduler::new(4)
    }
}

} // verus!
