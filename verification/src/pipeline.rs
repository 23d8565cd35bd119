//! The pipeline in memory: dispatcher, task queue, worker loops, result
//! channel and collector, run one step at a time in whatever order the
//! caller picks. Every order in which threads could interleave is an order
//! of these steps.

use std::collections::VecDeque;
use vstd::prelude::*;
use crate::collector::{ending_line, on_event, result_line, CollectorEvent, Ending};
use crate::config::{BatchConfig, ConfigError};
use crate::model::{
    initial,
    lemma_close_inv,
    lemma_collect_inv,
    lemma_drain_inv,
    lemma_ending_inv,
    lemma_finish_inv,
    lemma_initial_inv,
    lemma_send_inv,
    lemma_take_inv,
    Completion,
    PipelineView,
};
use crate::queue::{Received, TaskQueue};
use crate::task::{batch_task, make_task, task_label, Task};
use crate::worker::{create_worker, result_text, WorkerLoop};

verus! {

/// The identifier of the task that a worker holds, if it holds one.
pub open spec fn held_id(held: Option<Task>) -> Option<u32> {
    match held {
        Some(task) => Some(task.id),
        None => None,
    }
}

/// The text of a result, for a task that carries the payload the dispatcher
/// gave it.
pub open spec fn completion_text(c: Completion) -> Seq<char> {
    result_text(c.worker_id, c.task_id, task_label(c.task_id))
}

/// A batch on its way through the pool.
pub struct Pipeline {
    total_tasks: u32,
    quota: u32,
    sent: u32,
    queue: TaskQueue,
    loops: Vec<WorkerLoop>,
    in_hand: Vec<Option<Task>>,
    produced: Vec<Completion>,
    channel: VecDeque<String>,
    ending: Option<Ending>,
}

impl View for Pipeline {
    type V = PipelineView;

    closed spec fn view(&self) -> PipelineView {
        PipelineView {
            total_tasks: self.total_tasks,
            quota: self.quota,
            sent: self.sent,
            closed: self.queue@.closed,
            pending: self.queue@.pending.map_values(|task: Task| task.id),
            loops: self.loops@,
            in_hand: self.in_hand@.map_values(|held: Option<Task>| held_id(held)),
            produced: self.produced@,
            collected: (self.produced@.len() - self.channel@.len()) as nat,
            ending: self.ending,
        }
    }
}

impl Pipeline {
    /// The texts that the pipeline holds are those of its state: each task
    /// carries the payload of its identifier, and the result channel holds
    /// the texts of the results that are produced and not yet displayed.
    pub closed spec fn consistent(&self) -> bool {
        &&& self.channel@.len() <= self.produced@.len()
        &&& forall|k: int|
            0 <= k < self.channel@.len() ==> (#[trigger] self.channel@[k])@ == completion_text(
                self.produced@[self.produced@.len() - self.channel@.len() + k],
            )
        &&& forall|k: int|
            0 <= k < self.queue@.pending.len() ==> (#[trigger] self.queue@.pending[k])@
                == batch_task(self.queue@.pending[k].id)
        &&& forall|i: int|
            0 <= i < self.in_hand@.len() && (#[trigger] self.in_hand@[i]).is_some()
                ==> self.in_hand@[i].unwrap()@ == batch_task(self.in_hand@[i].unwrap().id)
    }

    /// The pipeline is in a state that a run can reach.
    pub open spec fn wf(&self) -> bool {
        self.consistent() && self@.inv()
    }

    /// Sets up the pipeline of a batch: the quota is fixed, the workers
    /// stand at the start of their loops, and nothing has been sent. A pool
    /// without workers is refused.
    pub fn new(config: BatchConfig) -> (r: Result<Pipeline, ConfigError>)
        ensures
            config.total_workers == 0 ==> r matches Err(ConfigError::NoWorkers),
            config.total_workers > 0 ==> r.is_ok() && r.unwrap().wf() && r.unwrap()@ == initial(
                config,
            ),
    {
        let quota: u32 = match config.quota() {
            Ok(quota) => quota,
            Err(e) => {
                return Err(e);
            },
        };
        let mut loops: Vec<WorkerLoop> = Vec::new();
        let mut in_hand: Vec<Option<Task>> = Vec::new();
        let mut made: u32 = 0;
        while made < config.total_workers
            invariant
                made <= config.total_workers,
                loops@.len() == made,
                in_hand@.len() == made,
                forall|i: int| 0 <= i < made ==> #[trigger] loops@[i] == initial(config).loops[i],
                forall|i: int| 0 <= i < made ==> (#[trigger] in_hand@[i]).is_none(),
                quota == config.total_tasks / config.total_workers,
                config.total_workers > 0,
            decreases config.total_workers - made,
        {
            made = made + 1;
            loops.push(WorkerLoop::new(create_worker(made), quota));
            in_hand.push(None);
        }
        let pipeline = Pipeline {
            total_tasks: config.total_tasks,
            quota,
            sent: 0,
            queue: TaskQueue::new(),
            loops,
            in_hand,
            produced: Vec::new(),
            channel: VecDeque::new(),
            ending: None,
        };
        proof {
            lemma_initial_inv(config);
            assert(pipeline@.loops =~= initial(config).loops);
            assert(pipeline@.in_hand =~= initial(config).in_hand);
            assert(pipeline@.pending =~= initial(config).pending);
            assert(pipeline@.produced =~= initial(config).produced);
            assert(pipeline@ == initial(config));
        }
        Ok(pipeline)
    }

    /// The dispatcher sends the next task of the batch, if one is left to
    /// send. Tells whether it did.
    pub fn send_next(&mut self) -> (sent: bool)
        requires
            old(self).wf(),
        ensures
            final(self).wf(),
            sent == old(self)@.can_send(),
            final(self)@ == if sent {
                old(self)@.after_send()
            } else {
                old(self)@
            },
    {
        if self.queue.is_closed() || self.sent >= self.total_tasks {
            return false;
        }
        let id: u32 = self.sent + 1;
        let sent = self.queue.send(make_task(id));
        self.sent = id;
        proof {
            lemma_send_inv(old(self)@);
            assert(self@.pending =~= old(self)@.after_send().pending);
            assert(self@ == old(self)@.after_send());
        }
        sent.is_ok()
    }

    /// The dispatcher closes the task queue and lets go of the result
    /// channel, once every task has been sent: before that, nothing
    /// happens. Tells whether it closed.
    pub fn close(&mut self) -> (closed: bool)
        requires
            old(self).wf(),
        ensures
            final(self).wf(),
            closed == old(self)@.can_close(),
            final(self)@ == if closed {
                old(self)@.after_close()
            } else {
                old(self)@
            },
    {
        if self.queue.is_closed() || self.sent != self.total_tasks {
            return false;
        }
        self.queue.close();
        proof {
            lemma_close_inv(old(self)@);
            assert(self@ == old(self)@.after_close());
        }
        true
    }

    /// Worker `i` (counted from zero) asks the queue for a task, if it is
    /// in its loop and holds none. It takes the oldest waiting task, or
    /// leaves its loop because the queue is closed and empty, or goes on
    /// waiting. Gives the identifier of the task taken.
    pub fn receive(&mut self, i: usize) -> (taken: Option<u32>)
        requires
            old(self).wf(),
        ensures
            final(self).wf(),
            old(self)@.can_take(i as int) ==> final(self)@ == old(self)@.after_take(i as int)
                && taken == Some(old(self)@.pending[0]),
            old(self)@.can_drain(i as int) ==> final(self)@ == old(self)@.after_drain(i as int)
                && taken.is_none(),
            !old(self)@.can_take(i as int) && !old(self)@.can_drain(i as int) ==> final(self)@
                == old(self)@ && taken.is_none(),
    {
        if i >= self.loops.len() || !self.loops[i].is_running() || self.in_hand[i].is_some() {
            return None;
        }
        assert(old(self)@.asks(i as int));
        match self.queue.receive() {
            Received::Task(task) => {
                let id: u32 = task.id;
                self.in_hand[i] = Some(task);
                proof {
                    lemma_take_inv(old(self)@, i as int);
                    assert(self@.pending =~= old(self)@.after_take(i as int).pending);
                    assert(self@.in_hand =~= old(self)@.after_take(i as int).in_hand);
                    assert(self@ == old(self)@.after_take(i as int));
                }
                Some(id)
            },
            Received::EndOfStream => {
                self.loops[i].on_end_of_stream();
                proof {
                    lemma_drain_inv(old(self)@, i as int);
                    assert(self@ == old(self)@.after_drain(i as int));
                }
                None
            },
            Received::Empty => {
                assert(self@ == old(self)@);
                None
            },
        }
    }

    /// Worker `i` (counted from zero) processes the task it holds, sends
    /// the result to the result channel and counts the task. Gives the
    /// result; a worker that holds no task does nothing.
    pub fn finish(&mut self, i: usize) -> (done: Option<Completion>)
        requires
            old(self).wf(),
        ensures
            final(self).wf(),
            old(self)@.can_finish(i as int) ==> final(self)@ == old(self)@.after_finish(i as int)
                && done == Some(old(self)@.completion(i as int)),
            !old(self)@.can_finish(i as int) ==> final(self)@ == old(self)@ && done.is_none(),
    {
        if i >= self.in_hand.len() {
            return None;
        }
        match self.in_hand[i].take() {
            None => {
                assert(self.in_hand@ =~= old(self).in_hand@);
                None
            },
            Some(task) => {
                let c = Completion { worker_id: self.loops[i].worker.id, task_id: task.id };
                proof {
                    lemma_finish_inv(old(self)@, i as int);
                }
                match self.loops[i].on_task(task) {
                    Some(text) => {
                        self.produced.push(c);
                        self.channel.push_back(text);
                        proof {
                            assert(self@.in_hand =~= old(self)@.after_finish(i as int).in_hand);
                            assert(self@ == old(self)@.after_finish(i as int));
                        }
                        Some(c)
                    },
                    // A worker that holds a task is in its loop.
                    None => None,
                }
            },
        }
    }

    /// Whether every sender of the result channel is gone.
    fn is_disconnected(&self) -> (b: bool)
        requires
            self.wf(),
        ensures
            b == self@.disconnected(),
    {
        if !self.queue.is_closed() {
            return false;
        }
        let mut i: usize = 0;
        while i < self.loops.len()
            invariant
                self.wf(),
                i <= self.loops@.len(),
                self@.closed,
                forall|j: int| 0 <= j < i ==> #[trigger] self@.gone(j),
            decreases self.loops@.len() - i,
        {
            if self.loops[i].is_running() || self.in_hand[i].is_some() {
                assert(!self@.gone(i as int));
                return false;
            }
            i = i + 1;
        }
        true
    }

    /// The collector looks at the result channel. It displays the oldest
    /// result that waits there; or, if none waits and every sender is gone,
    /// it ends with the disconnect; or it goes on waiting. Gives the line
    /// displayed. A collector that has ended does nothing.
    pub fn collect(&mut self) -> (line: Option<String>)
        requires
            old(self).wf(),
        ensures
            final(self).wf(),
            old(self)@.can_collect() ==> final(self)@ == old(self)@.after_collect()
                && line.is_some() && line.unwrap()@ == result_line(
                completion_text(old(self)@.produced[old(self)@.collected as int]),
            ),
            old(self)@.can_disconnect() ==> final(self)@ == old(self)@.after_ending(
                Ending::Disconnected,
            ) && line.is_some() && line.unwrap()@ == ending_line(Ending::Disconnected),
            !old(self)@.can_collect() && !old(self)@.can_disconnect() ==> final(self)@ == old(
                self,
            )@ && line.is_none(),
    {
        if self.ending.is_some() {
            return None;
        }
        match self.channel.pop_front() {
            Some(text) => {
                let shown = on_event(CollectorEvent::Result(text));
                proof {
                    lemma_collect_inv(old(self)@);
                    assert(self@ == old(self)@.after_collect());
                    assert forall|k: int| 0 <= k < self.channel@.len() implies (
                    #[trigger] self.channel@[k])@ == completion_text(
                        self.produced@[self.produced@.len() - self.channel@.len() + k],
                    ) by {
                        assert(self.channel@[k] == old(self).channel@[k + 1]);
                    }
                }
                Some(shown.line)
            },
            None => {
                if self.is_disconnected() {
                    let shown = on_event(CollectorEvent::Disconnected);
                    self.ending = shown.ending;
                    proof {
                        lemma_ending_inv(old(self)@, Ending::Disconnected);
                        assert(self@ == old(self)@.after_ending(Ending::Disconnected));
                    }
                    Some(shown.line)
                } else {
                    None
                }
            },
        }
    }

    /// The quiescence timeout elapses: the collector, if it waits on an
    /// empty channel that still has a sender, ends with the timeout. Gives
    /// the line displayed. While a result waits, or when every sender is
    /// gone, no timeout can elapse and nothing happens.
    pub fn time_out(&mut self) -> (line: Option<String>)
        requires
            old(self).wf(),
        ensures
            final(self).wf(),
            old(self)@.can_time_out() ==> final(self)@ == old(self)@.after_ending(
                Ending::TimedOut,
            ) && line.is_some() && line.unwrap()@ == ending_line(Ending::TimedOut),
            !old(self)@.can_time_out() ==> final(self)@ == old(self)@ && line.is_none(),
    {
        if self.ending.is_some() || self.channel.len() > 0 || self.is_disconnected() {
            return None;
        }
        let shown = on_event(CollectorEvent::Timeout);
        self.ending = shown.ending;
        proof {
            lemma_ending_inv(old(self)@, Ending::TimedOut);
            assert(self@ == old(self)@.after_ending(Ending::TimedOut));
        }
        Some(shown.line)
    }

    /// The size of the batch.
    pub fn total_tasks(&self) -> (n: u32)
        ensures
            n == self@.total_tasks,
    {
        self.total_tasks
    }

    /// The quota of each worker.
    pub fn quota(&self) -> (q: u32)
        ensures
            q == self@.quota,
    {
        self.quota
    }

    /// The number of workers.
    pub fn workers(&self) -> (n: usize)
        ensures
            n == self@.loops.len(),
    {
        self.loops.len()
    }

    /// How many tasks the dispatcher has sent.
    pub fn sent(&self) -> (n: u32)
        ensures
            n == self@.sent,
    {
        self.sent
    }

    /// Whether the dispatcher has closed.
    pub fn is_closed(&self) -> (b: bool)
        ensures
            b == self@.closed,
    {
        self.queue.is_closed()
    }

    /// How many tasks wait in the queue.
    pub fn pending(&self) -> (n: usize)
        ensures
            n == self@.pending.len(),
    {
        self.queue.len()
    }

    /// The loop of worker `i` (counted from zero), if there is such a
    /// worker.
    pub fn worker_loop(&self, i: usize) -> (l: Option<WorkerLoop>)
        ensures
            l == if i < self@.loops.len() {
                Some(self@.loops[i as int])
            } else {
                None
            },
    {
        if i < self.loops.len() {
            Some(self.loops[i])
        } else {
            None
        }
    }

    /// The identifier of the task that worker `i` (counted from zero)
    /// holds, if there is such a worker and it holds one.
    pub fn holding(&self, i: usize) -> (id: Option<u32>)
        ensures
            id == if i < self@.in_hand.len() {
                self@.in_hand[i as int]
            } else {
                None
            },
    {
        if i < self.in_hand.len() {
            match &self.in_hand[i] {
                Some(task) => Some(task.id),
                None => None,
            }
        } else {
            None
        }
    }

    /// The results sent to the result channel so far, oldest first.
    pub fn produced(&self) -> (results: &Vec<Completion>)
        ensures
            results@ == self@.produced,
    {
        &self.produced
    }

    /// How many results the collector has displayed.
    pub fn collected(&self) -> (n: usize)
        requires
            self.wf(),
        ensures
            n == self@.collected,
    {
        self.produced.len() - self.channel.len()
    }

    /// How collection ended, once it has.
    pub fn ending(&self) -> (e: Option<Ending>)
        ensures
            e == self@.ending,
    {
        self.ending
    }
}

} // verus!
