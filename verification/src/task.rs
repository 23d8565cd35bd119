//! Tasks: the units of work of a batch.

use vstd::prelude::*;
use vstd::string::*;
use crate::text::{append_decimal, decimal};

verus! {

/// A unit of work: an identifier, unique within a batch, and a payload.
/// A task is made once, handed to one worker, and never changed.
#[derive(Debug, PartialEq, Eq)]
pub struct Task {
    pub id: u32,
    pub payload: String,
}

/// What a task is, as plain values.
pub struct TaskView {
    pub id: u32,
    pub payload: Seq<char>,
}

impl View for Task {
    type V = TaskView;

    open spec fn view(&self) -> TaskView {
        TaskView { id: self.id, payload: self.payload@ }
    }
}

/// The payload that the dispatcher gives to the task `id`: the word `Task`,
/// a space, and the decimal numeral of `id`.
pub open spec fn task_label(id: u32) -> Seq<char> {
    "Task "@ + decimal(id as nat)
}

/// The task `id` as the dispatcher makes it.
pub open spec fn batch_task(id: u32) -> TaskView {
    TaskView { id, payload: task_label(id) }
}

/// The tasks of a batch of `n`, in the order in which they are sent:
/// identifiers `1` to `n`.
pub open spec fn batch_tasks(n: u32) -> Seq<TaskView> {
    Seq::new(n as nat, |i: int| batch_task((i + 1) as u32))
}

/// Makes the task with the given identifier and payload.
pub fn create_task(id: u32, payload: String) -> (task: Task)
    ensures
        task.id == id,
        task.payload == payload,
{
    Task { id, payload }
}

/// Writes the payload of the task `id`.
pub fn label(id: u32) -> (payload: String)
    ensures
        payload@ == task_label(id),
{
    let mut payload = String::from_str("Task ");
    append_decimal(&mut payload, id);
    payload
}

/// Makes the task `id` of a batch, with its payload.
pub fn make_task(id: u32) -> (task: Task)
    ensures
        task@ == batch_task(id),
{
    create_task(id, label(id))
}

/// Makes the `n` tasks of a batch, with identifiers `1` to `n` in that order.
pub fn make_tasks(n: u32) -> (tasks: Vec<Task>)
    ensures
        tasks@.map_values(|t: Task| t@) == batch_tasks(n),
{
    let mut tasks: Vec<Task> = Vec::new();
    let mut made: u32 = 0;
    while made < n
        invariant
            made <= n,
            tasks@.len() == made,
            forall|i: int| 0 <= i < made ==> (#[trigger] tasks@[i])@ == batch_task((i + 1) as u32),
        decreases n - made,
    {
        made = made + 1;
        tasks.push(make_task(made));
    }
    assert(tasks@.map_values(|t: Task| t@) =~= batch_tasks(n));
    tasks
}

} // verus!
