//! Workers, the line a worker writes for a task, and the loop a worker runs.

use vstd::prelude::*;
use vstd::string::*;
use crate::task::Task;
use crate::text::{append_decimal, decimal};

verus! {

/// A worker. Its identifier labels the results it produces; it holds
/// nothing else.
#[derive(Debug, Clone, Copy, PartialEq, Eq)]
pub struct Worker {
    pub id: u32,
}

/// The result that worker `worker_id` produces for the task `task_id` with
/// the given payload.
pub open spec fn result_text(worker_id: u32, task_id: u32, payload: Seq<char>) -> Seq<char> {
    "Worker "@ + decimal(worker_id as nat) + " processed Task "@ + decimal(task_id as nat)
        + " with payload: "@ + payload
}

/// The workers of a pool of `n`, in the order in which they are started:
/// identifiers `1` to `n`.
pub open spec fn pool_workers(n: u32) -> Seq<Worker> {
    Seq::new(n as nat, |i: int| Worker { id: (i + 1) as u32 })
}

/// Makes the worker with the given identifier.
pub fn create_worker(id: u32) -> (worker: Worker)
    ensures
        worker.id == id,
{
    Worker { id }
}

/// Makes the `n` workers of a pool, with identifiers `1` to `n` in that order.
pub fn make_workers(n: u32) -> (workers: Vec<Worker>)
    ensures
        workers@ == pool_workers(n),
{
    let mut workers: Vec<Worker> = Vec::new();
    let mut made: u32 = 0;
    while made < n
        invariant
            made <= n,
            workers@.len() == made,
            forall|i: int| 0 <= i < made ==> (#[trigger] workers@[i]).id == i + 1,
        decreases n - made,
    {
        made = made + 1;
        workers.push(create_worker(made));
    }
    assert(workers@ =~= pool_workers(n));
    workers
}

impl Worker {
    /// Writes the result of this worker for `task`. The text depends on the
    /// worker's identifier, the task's identifier and the payload, and on
    /// nothing else.
    pub fn process_task(&self, task: Task) -> (result: String)
        ensures
            result@ == result_text(self.id, task.id, task.payload@),
    {
        let mut result = String::from_str("Worker ");
        append_decimal(&mut result, self.id);
        result.append(" processed Task ");
        append_decimal(&mut result, task.id);
        result.append(" with payload: ");
        result.append(task.payload.as_str());
        result
    }
}

/// The loop of one worker: its worker, its quota, how many tasks it has
/// processed, and whether the task queue has told it that no task will come.
#[derive(Debug, Clone, Copy, PartialEq, Eq)]
pub struct WorkerLoop {
    pub worker: Worker,
    pub quota: u32,
    pub processed: u32,
    pub drained: bool,
}

impl WorkerLoop {
    /// The loop goes on while it is below its quota and the queue has not
    /// signalled its end.
    pub open spec fn running(&self) -> bool {
        !self.drained && self.processed < self.quota
    }

    /// The state that the next task leaves a running loop in.
    pub open spec fn after_task(&self) -> WorkerLoop {
        WorkerLoop { processed: (self.processed + 1) as u32, ..*self }
    }

    /// The state that the end of the queue leaves the loop in.
    pub open spec fn after_end_of_stream(&self) -> WorkerLoop {
        WorkerLoop { drained: true, ..*self }
    }

    /// Starts the loop of `worker`, which will process at most `quota` tasks.
    pub fn new(worker: Worker, quota: u32) -> (l: WorkerLoop)
        ensures
            l == (WorkerLoop { worker, quota, processed: 0, drained: false }),
    {
        WorkerLoop { worker, quota, processed: 0, drained: false }
    }

    /// Whether the loop asks the queue for another task.
    pub fn is_running(&self) -> (b: bool)
        ensures
            b == self.running(),
    {
        !self.drained && self.processed < self.quota
    }

    /// The queue handed `task` to the loop. A running loop processes it,
    /// counts it, and gives back the result to send; a loop that has stopped
    /// takes no task and gives back nothing.
    pub fn on_task(&mut self, task: Task) -> (result: Option<String>)
        ensures
            old(self).running() ==> *final(self) == old(self).after_task() && result.is_some()
                && result.unwrap()@ == result_text(old(self).worker.id, task.id, task.payload@),
            !old(self).running() ==> *final(self) == *old(self) && result.is_none(),
    {
        if self.is_running() {
            let result = self.worker.process_task(task);
            self.processed = self.processed + 1;
            Some(result)
        } else {
            None
        }
    }

    /// The queue signalled that it is closed and empty: the loop stops.
    pub fn on_end_of_stream(&mut self)
        ensures
            *final(self) == old(self).after_end_of_stream(),
    {
        self.drained = true;
    }
}

} // verus!
