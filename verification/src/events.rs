//! The event broker's producer logic: each subscriber gets its own producer
//! of synthetic change events, numbered by a counter. The delivery loop —
//! a bounded queue with backpressure, ended only by the consumer going away —
//! is the caller's; what each produced event holds is pinned down here.

use vstd::prelude::*;
use crate::types::{
    Task, TaskView, TaskStatus, TaskPriority, TaskMetrics, TaskEventType, Timestamp,
};
use crate::numstr::{digits_of, push_digits};
use crate::strutil::{string_to_chars, chars_to_string};
use crate::ident::fresh_uuid;
use crate::clock::now_timestamp;

verus! {

/// A change event on the synthetic stream.
#[derive(Debug)]
pub struct TaskEvent {
    pub event_id: String,
    pub event_type: TaskEventType,
    pub task: Option<Task>,
    pub user_id: String,
    pub timestamp: Option<Timestamp>,
}

/// Ghost image of a `TaskEvent`.
#[verifier::ext_equal]
pub ghost struct TaskEventView {
    pub event_id: Seq<char>,
    pub event_type: TaskEventType,
    pub task: Option<TaskView>,
    pub user_id: Seq<char>,
    pub timestamp: Option<Timestamp>,
}

impl View for TaskEvent {
    type V = TaskEventView;

    open spec fn view(&self) -> TaskEventView {
        TaskEventView {
            event_id: self.event_id@,
            event_type: self.event_type,
            task: self.task.deep_view(),
            user_id: self.user_id@,
            timestamp: self.timestamp,
        }
    }
}

/// The sample task carried by event number `counter`.
pub open spec fn synthetic_task_view(counter: nat, now: Timestamp) -> TaskView {
    TaskView {
        id: "task_"@ + digits_of(counter),
        title: "Sample Task "@ + digits_of(counter),
        description: "Auto-generated task event"@,
        status: TaskStatus::InProgress,
        priority: TaskPriority::Medium,
        tags: seq!["auto"@],
        assigned_to: "system"@,
        created_at: Some(now),
        updated_at: Some(now),
        due_date: None,
        metrics: Some(TaskMetrics { estimated_hours: 2, actual_hours: 1, completion_percent: 50 }),
        comments: Seq::empty(),
        attachments: Seq::empty(),
    }
}

/// Event number `counter`, in full.
pub open spec fn synthetic_event_view(
    counter: nat,
    event_id: Seq<char>,
    now: Timestamp,
) -> TaskEventView {
    TaskEventView {
        event_id: event_id,
        event_type: TaskEventType::Updated,
        task: Some(synthetic_task_view(counter, now)),
        user_id: "system"@,
        timestamp: Some(now),
    }
}

/// Builds event number `counter` for the given identifier and time.
pub fn synthetic_event(counter: u64, event_id: String, now: Timestamp) -> (e: TaskEvent)
    ensures
        e@ == synthetic_event_view(counter as nat, event_id@, now),
{
    let mut idc = string_to_chars("task_");
    push_digits(&mut idc, counter);
    let task_id = chars_to_string(&idc);
    let mut titlec = string_to_chars("Sample Task ");
    push_digits(&mut titlec, counter);
    let title = chars_to_string(&titlec);
    let mut tags: Vec<String> = Vec::new();
    tags.push("auto".to_owned());
    proof {
        assert(tags.deep_view() =~= seq!["auto"@]);
    }
    let task = Task {
        id: task_id,
        title,
        description: "Auto-generated task event".to_owned(),
        status: TaskStatus::InProgress,
        priority: TaskPriority::Medium,
        tags,
        assigned_to: "system".to_owned(),
        created_at: Some(now),
        updated_at: Some(now),
        due_date: None,
        metrics: Some(TaskMetrics { estimated_hours: 2, actual_hours: 1, completion_percent: 50 }),
        comments: Vec::new(),
        attachments: Vec::new(),
    };
    let e = TaskEvent {
        event_id,
        event_type: TaskEventType::Updated,
        task: Some(task),
        user_id: "system".to_owned(),
        timestamp: Some(now),
    };
    proof {
        assert(e@.task =~= Some(synthetic_task_view(counter as nat, now)));
        assert(e@ =~= synthetic_event_view(counter as nat, event_id@, now));
    }
    e
}

/// The producer's step: event number `counter`, under a fresh identifier, at
/// the clock's reading.
pub fn next_event(counter: u64) -> (e: TaskEvent)
    ensures
        e@.event_id.len() == 36,
        e@.timestamp matches Some(now) && e@ == synthetic_event_view(
            counter as nat,
            e@.event_id,
            now,
        ),
{
    let id = fresh_uuid();
    let now = now_timestamp();
    synthetic_event(counter, id, now)
}

} // verus!
