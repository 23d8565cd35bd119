//! The task queue: an unbounded first-in, first-out channel of tasks that
//! can be closed.

use std::collections::VecDeque;
use vstd::prelude::*;
use crate::task::Task;

verus! {

/// The tasks that wait in a queue, oldest first, and whether the queue has
/// been closed.
pub struct TaskQueueView {
    pub pending: Seq<Task>,
    pub closed: bool,
}

/// What an attempt to receive brings.
#[derive(Debug, PartialEq, Eq)]
pub enum Received {
    /// The oldest waiting task.
    Task(Task),
    /// No task waits, but the queue is open: one may still come.
    Empty,
    /// No task waits and the queue is closed: none will come.
    EndOfStream,
}

/// The queue between the dispatcher and the workers. Only sending,
/// receiving and closing reach what it holds.
pub struct TaskQueue {
    items: VecDeque<Task>,
    closed: bool,
}

impl View for TaskQueue {
    type V = TaskQueueView;

    closed spec fn view(&self) -> TaskQueueView {
        TaskQueueView { pending: self.items@, closed: self.closed }
    }
}

impl TaskQueue {
    /// An open queue in which nothing waits.
    pub fn new() -> (queue: TaskQueue)
        ensures
            queue@ == (TaskQueueView { pending: Seq::empty(), closed: false }),
    {
        TaskQueue { items: VecDeque::new(), closed: false }
    }

    /// Puts `task` behind the tasks that wait. Only a closed queue refuses:
    /// it stays as it is and hands the task back.
    pub fn send(&mut self, task: Task) -> (r: Result<(), Task>)
        ensures
            old(self)@.closed ==> r == Err::<(), Task>(task) && final(self)@ == old(self)@,
            !old(self)@.closed ==> r.is_ok() && final(self)@ == (TaskQueueView {
                pending: old(self)@.pending.push(task),
                closed: false,
            }),
    {
        if self.closed {
            Err(task)
        } else {
            self.items.push_back(task);
            Ok(())
        }
    }

    /// Closes the queue. The tasks that wait can still be received.
    pub fn close(&mut self)
        ensures
            final(self)@ == (TaskQueueView { pending: old(self)@.pending, closed: true }),
    {
        self.closed = true;
    }

    /// Takes the oldest waiting task, if one waits; otherwise tells whether
    /// one may still come.
    pub fn receive(&mut self) -> (r: Received)
        ensures
            old(self)@.pending.len() > 0 ==> r == Received::Task(old(self)@.pending[0])
                && final(self)@ == (TaskQueueView {
                pending: old(self)@.pending.drop_first(),
                closed: old(self)@.closed,
            }),
            old(self)@.pending.len() == 0 ==> final(self)@ == old(self)@ && r == (if old(
                self,
            )@.closed {
                Received::EndOfStream
            } else {
                Received::Empty
            }),
    {
        match self.items.pop_front() {
            Some(task) => {
                assert(self.items@ =~= old(self).items@.drop_first());
                Received::Task(task)
            },
            None => if self.closed {
                Received::EndOfStream
            } else {
                Received::Empty
            },
        }
    }

    /// The number of tasks that wait.
    pub fn len(&self) -> (n: usize)
        ensures
            n == self@.pending.len(),
    {
        self.items.len()
    }

    /// Whether the queue has been closed.
    pub fn is_closed(&self) -> (b: bool)
        ensures
            b == self@.closed,
    {
        self.closed
    }
}

} // verus!
