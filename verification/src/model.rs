//! The pipeline as a transition system over plain values: what its state
//! is, which steps it can take, what every reachable state satisfies, and
//! what follows for the results that are produced and collected.

use vstd::prelude::*;
use crate::collector::Ending;
use crate::config::{lemma_plan_adds_up, BatchConfig};
use crate::counting::{
    lemma_occurrences_absent,
    lemma_occurrences_bound,
    lemma_occurrences_everywhere,
    lemma_occurrences_present,
    lemma_occurrences_push,
    lemma_occurrences_update,
    occurrences,
};
use crate::worker::{Worker, WorkerLoop};

verus! {

/// One result: which worker processed which task.
#[derive(Debug, Clone, Copy, PartialEq, Eq)]
pub struct Completion {
    pub worker_id: u32,
    pub task_id: u32,
}

/// The task identifiers that a sequence of results names, in order.
pub open spec fn task_ids(results: Seq<Completion>) -> Seq<u32> {
    results.map_values(|c: Completion| c.task_id)
}

/// The number of tasks that the loops have processed together.
pub open spec fn total_processed(loops: Seq<WorkerLoop>) -> nat
    decreases loops.len(),
{
    if loops.len() == 0 {
        0
    } else {
        total_processed(loops.drop_last()) + loops.last().processed as nat
    }
}

/// The state of a pipeline.
pub struct PipelineView {
    /// The size of the batch.
    pub total_tasks: u32,
    /// The quota of each worker.
    pub quota: u32,
    /// How many tasks the dispatcher has sent: those with identifiers `1`
    /// to `sent`.
    pub sent: u32,
    /// Whether the dispatcher has closed the task queue and let go of the
    /// result channel.
    pub closed: bool,
    /// The identifiers of the tasks that wait in the queue, oldest first.
    pub pending: Seq<u32>,
    /// The loop of each worker.
    pub loops: Seq<WorkerLoop>,
    /// For each worker, the task it has received and not yet processed.
    pub in_hand: Seq<Option<u32>>,
    /// The results sent to the result channel, oldest first.
    pub produced: Seq<Completion>,
    /// How many of them the collector has displayed.
    pub collected: nat,
    /// How collection ended, once it has.
    pub ending: Option<Ending>,
}

impl PipelineView {
    /// How many tasks have left the queue.
    pub open spec fn taken(self) -> int {
        self.sent - self.pending.len()
    }

    /// Worker `i` has left its loop: it holds no task and asks for none.
    pub open spec fn gone(self, i: int) -> bool {
        !self.loops[i].running() && self.in_hand[i].is_none()
    }

    /// Every sender of the result channel is gone: the dispatcher has let
    /// go of it and every worker has left its loop.
    pub open spec fn disconnected(self) -> bool {
        self.closed && forall|i: int| 0 <= i < self.loops.len() ==> #[trigger] self.gone(i)
    }

    /// The results that the collector has displayed, oldest first.
    pub open spec fn collected_results(self) -> Seq<Completion> {
        self.produced.take(self.collected as int)
    }

    /// What holds of the state of a pipeline at every moment.
    pub open spec fn inv(self) -> bool {
        &&& 1 <= self.loops.len() <= u32::MAX
        &&& self.in_hand.len() == self.loops.len()
        &&& self.quota == self.total_tasks as nat / self.loops.len()
        &&& forall|i: int|
            0 <= i < self.loops.len() ==> {
                &&& (#[trigger] self.loops[i]).worker.id == i + 1
                &&& self.loops[i].quota == self.quota
                &&& self.loops[i].processed <= self.quota
                &&& self.loops[i].drained ==> self.closed && self.pending.len() == 0
            }
        &&& forall|i: int|
            0 <= i < self.loops.len() && (#[trigger] self.in_hand[i]).is_some()
                ==> self.loops[i].running()
        &&& self.sent <= self.total_tasks
        &&& self.closed ==> self.sent == self.total_tasks
        &&& self.pending.len() <= self.sent
        &&& forall|k: int|
            0 <= k < self.pending.len() ==> #[trigger] self.pending[k] == self.taken() + 1 + k
        &&& forall|t: u32| #[trigger]
            occurrences(task_ids(self.produced), t) + occurrences(self.in_hand, Some(t)) == if 1
                <= t <= self.taken() {
                1nat
            } else {
                0nat
            }
        &&& total_processed(self.loops) == self.produced.len()
        &&& self.produced.len() + self.loops.len() == self.taken() + occurrences(
            self.in_hand,
            None,
        )
        &&& forall|k: int|
            0 <= k < self.produced.len() ==> 1 <= (#[trigger] self.produced[k]).worker_id
                <= self.loops.len()
        &&& self.collected <= self.produced.len()
        &&& self.ending == Some(Ending::Disconnected) ==> self.disconnected() && self.collected
            == self.produced.len()
    }

    /// The dispatcher can send the next task.
    pub open spec fn can_send(self) -> bool {
        !self.closed && self.sent < self.total_tasks
    }

    /// The dispatcher sent the next task.
    pub open spec fn after_send(self) -> PipelineView {
        PipelineView {
            sent: (self.sent + 1) as u32,
            pending: self.pending.push((self.sent + 1) as u32),
            ..self
        }
    }

    /// The dispatcher has sent every task and can close.
    pub open spec fn can_close(self) -> bool {
        !self.closed && self.sent == self.total_tasks
    }

    /// The dispatcher closed the task queue and let go of the result
    /// channel.
    pub open spec fn after_close(self) -> PipelineView {
        PipelineView { closed: true, ..self }
    }

    /// Worker `i` asks the queue for a task.
    pub open spec fn asks(self, i: int) -> bool {
        0 <= i < self.loops.len() && self.loops[i].running() && self.in_hand[i].is_none()
    }

    /// Worker `i` asks and a task waits.
    pub open spec fn can_take(self, i: int) -> bool {
        self.asks(i) && self.pending.len() > 0
    }

    /// Worker `i` took the oldest waiting task.
    pub open spec fn after_take(self, i: int) -> PipelineView {
        PipelineView {
            pending: self.pending.drop_first(),
            in_hand: self.in_hand.update(i, Some(self.pending[0])),
            ..self
        }
    }

    /// Worker `i` asks and the queue is closed and empty.
    pub open spec fn can_drain(self, i: int) -> bool {
        self.asks(i) && self.pending.len() == 0 && self.closed
    }

    /// Worker `i` was told that no task will come.
    pub open spec fn after_drain(self, i: int) -> PipelineView {
        PipelineView { loops: self.loops.update(i, self.loops[i].after_end_of_stream()), ..self }
    }

    /// Worker `i` holds a task.
    pub open spec fn can_finish(self, i: int) -> bool {
        0 <= i < self.loops.len() && self.in_hand[i].is_some()
    }

    /// The result that worker `i` produces for the task it holds.
    pub open spec fn completion(self, i: int) -> Completion {
        Completion { worker_id: self.loops[i].worker.id, task_id: self.in_hand[i].unwrap() }
    }

    /// Worker `i` processed the task it held and sent the result.
    pub open spec fn after_finish(self, i: int) -> PipelineView {
        PipelineView {
            loops: self.loops.update(i, self.loops[i].after_task()),
            in_hand: self.in_hand.update(i, None),
            produced: self.produced.push(self.completion(i)),
            ..self
        }
    }

    /// The collector waits and a result is there for it.
    pub open spec fn can_collect(self) -> bool {
        self.ending.is_none() && self.collected < self.produced.len()
    }

    /// The collector displayed the oldest result not yet displayed.
    pub open spec fn after_collect(self) -> PipelineView {
        PipelineView { collected: self.collected + 1, ..self }
    }

    /// The collector waits on a channel that is empty and has no sender
    /// left.
    pub open spec fn can_disconnect(self) -> bool {
        self.ending.is_none() && self.collected == self.produced.len() && self.disconnected()
    }

    /// The collector waits on a channel that is empty but still has a
    /// sender: the timeout can elapse.
    pub open spec fn can_time_out(self) -> bool {
        self.ending.is_none() && self.collected == self.produced.len() && !self.disconnected()
    }

    /// Collection ended.
    pub open spec fn after_ending(self, ending: Ending) -> PipelineView {
        PipelineView { ending: Some(ending), ..self }
    }
}

/// The state in which a pipeline starts: nothing sent, every worker at the
/// start of its loop, nothing produced.
pub open spec fn initial(config: BatchConfig) -> PipelineView
    recommends
        config.total_workers > 0,
{
    let quota = (config.total_tasks / config.total_workers) as u32;
    PipelineView {
        total_tasks: config.total_tasks,
        quota,
        sent: 0,
        closed: false,
        pending: Seq::empty(),
        loops: Seq::new(
            config.total_workers as nat,
            |i: int| WorkerLoop { worker: Worker { id: (i + 1) as u32 }, quota, processed: 0, drained: false },
        ),
        in_hand: Seq::new(config.total_workers as nat, |i: int| None),
        produced: Seq::empty(),
        collected: 0,
        ending: None,
    }
}

proof fn lemma_total_update(loops: Seq<WorkerLoop>, i: int, l: WorkerLoop)
    requires
        0 <= i < loops.len(),
    ensures
        total_processed(loops.update(i, l)) + loops[i].processed == total_processed(loops)
            + l.processed,
    decreases loops.len(),
{
    if i == loops.len() - 1 {
        assert(loops.update(i, l).drop_last() =~= loops.drop_last());
    } else {
        assert(loops.update(i, l).drop_last() =~= loops.drop_last().update(i, l));
        lemma_total_update(loops.drop_last(), i, l);
    }
}

proof fn lemma_total_bound(loops: Seq<WorkerLoop>, q: nat)
    requires
        forall|i: int| 0 <= i < loops.len() ==> (#[trigger] loops[i]).processed <= q,
    ensures
        total_processed(loops) <= loops.len() * q,
    decreases loops.len(),
{
    if loops.len() > 0 {
        lemma_total_bound(loops.drop_last(), q);
        let n = loops.len() as int;
        assert((n - 1) * q + q == n * q) by (nonlinear_arith);
    } else {
        assert(0 * q == 0) by (nonlinear_arith);
    }
}

proof fn lemma_total_full(loops: Seq<WorkerLoop>, q: nat)
    requires
        forall|i: int| 0 <= i < loops.len() ==> (#[trigger] loops[i]).processed == q,
    ensures
        total_processed(loops) == loops.len() * q,
    decreases loops.len(),
{
    if loops.len() > 0 {
        lemma_total_full(loops.drop_last(), q);
        let n = loops.len() as int;
        assert((n - 1) * q + q == n * q) by (nonlinear_arith);
    } else {
        assert(0 * q == 0) by (nonlinear_arith);
    }
}

/// A pipeline starts in a state that satisfies the invariant.
pub proof fn lemma_initial_inv(config: BatchConfig)
    requires
        config.total_workers > 0,
    ensures
        initial(config).inv(),
{
    let v = initial(config);
    lemma_plan_adds_up(config);
    assert(task_ids(v.produced) =~= Seq::<u32>::empty());
    assert forall|t: u32| #[trigger]
        occurrences(task_ids(v.produced), t) + occurrences(v.in_hand, Some(t)) == 0nat by {
        lemma_occurrences_absent(v.in_hand, Some(t));
    }
    lemma_occurrences_everywhere(v.in_hand, None);
    lemma_total_bound(v.loops, 0);
}

/// Sending the next task keeps the invariant.
pub proof fn lemma_send_inv(v: PipelineView)
    requires
        v.inv(),
        v.can_send(),
    ensures
        v.after_send().inv(),
{
    let w = v.after_send();
    assert(w.taken() == v.taken());
    assert(v.ending != Some(Ending::Disconnected));
}

/// Closing keeps the invariant.
pub proof fn lemma_close_inv(v: PipelineView)
    requires
        v.inv(),
        v.can_close(),
    ensures
        v.after_close().inv(),
{
    assert(v.ending != Some(Ending::Disconnected));
}

/// Taking a task keeps the invariant.
pub proof fn lemma_take_inv(v: PipelineView, i: int)
    requires
        v.inv(),
        v.can_take(i),
    ensures
        v.after_take(i).inv(),
        v.pending[0] == v.taken() + 1,
{
    let w = v.after_take(i);
    let t0 = v.pending[0];
    assert(w.taken() == v.taken() + 1);
    assert(!v.gone(i));
    assert(v.ending != Some(Ending::Disconnected));
    assert forall|t: u32| #[trigger]
        occurrences(task_ids(w.produced), t) + occurrences(w.in_hand, Some(t)) == if 1 <= t
            <= w.taken() {
            1nat
        } else {
            0nat
        } by {
        lemma_occurrences_update(v.in_hand, i, Some(t0), Some(t));
        assert(occurrences(task_ids(v.produced), t0) + occurrences(v.in_hand, Some(t0)) == 0);
        assert(occurrences(task_ids(v.produced), t) + occurrences(v.in_hand, Some(t)) == if 1
            <= t <= v.taken() {
            1nat
        } else {
            0nat
        });
    }
    lemma_occurrences_update(v.in_hand, i, Some(t0), None);
    assert forall|k: int| 0 <= k < w.pending.len() implies #[trigger] w.pending[k] == w.taken()
        + 1 + k by {
        assert(w.pending[k] == v.pending[k + 1]);
    }
    assert forall|j: int| 0 <= j < w.loops.len() implies {
        (#[trigger] w.loops[j]).drained ==> w.closed && w.pending.len() == 0
    } by {
        assert(!v.loops[j].drained);
    }
}

/// Telling a worker that the queue is closed and empty keeps the invariant.
pub proof fn lemma_drain_inv(v: PipelineView, i: int)
    requires
        v.inv(),
        v.can_drain(i),
    ensures
        v.after_drain(i).inv(),
{
    let w = v.after_drain(i);
    assert(!v.gone(i));
    assert(v.ending != Some(Ending::Disconnected));
    lemma_total_update(v.loops, i, v.loops[i].after_end_of_stream());
    assert forall|j: int| 0 <= j < w.loops.len() && (#[trigger] w.in_hand[j]).is_some()
        implies w.loops[j].running() by {
        assert(v.in_hand[j].is_some());
        assert(j != i);
    }
}

/// Finishing a task keeps the invariant.
pub proof fn lemma_finish_inv(v: PipelineView, i: int)
    requires
        v.inv(),
        v.can_finish(i),
    ensures
        v.after_finish(i).inv(),
        v.loops[i].running(),
{
    let w = v.after_finish(i);
    let c = v.completion(i);
    assert(!v.gone(i));
    assert(v.ending != Some(Ending::Disconnected));
    assert(task_ids(w.produced) =~= task_ids(v.produced).push(c.task_id));
    assert forall|t: u32| #[trigger]
        occurrences(task_ids(w.produced), t) + occurrences(w.in_hand, Some(t)) == if 1 <= t
            <= w.taken() {
            1nat
        } else {
            0nat
        } by {
        lemma_occurrences_push(task_ids(v.produced), c.task_id, t);
        lemma_occurrences_update(v.in_hand, i, None, Some(t));
        assert(occurrences(task_ids(v.produced), t) + occurrences(v.in_hand, Some(t)) == if 1
            <= t <= v.taken() {
            1nat
        } else {
            0nat
        });
    }
    lemma_occurrences_update(v.in_hand, i, None, None);
    lemma_total_update(v.loops, i, v.loops[i].after_task());
    assert forall|j: int| 0 <= j < w.loops.len() && (#[trigger] w.in_hand[j]).is_some()
        implies w.loops[j].running() by {
        assert(j != i);
        assert(v.in_hand[j].is_some());
    }
    assert forall|k: int| 0 <= k < w.produced.len() implies 1 <= (#[trigger] w.produced[k]).worker_id
        <= w.loops.len() by {
        if k < v.produced.len() {
            assert(w.produced[k] == v.produced[k]);
        }
    }
}

/// Displaying a result keeps the invariant.
pub proof fn lemma_collect_inv(v: PipelineView)
    requires
        v.inv(),
        v.can_collect(),
    ensures
        v.after_collect().inv(),
{
}

/// Ending collection keeps the invariant, whichever way it ends.
pub proof fn lemma_ending_inv(v: PipelineView, ending: Ending)
    requires
        v.inv(),
        ending == Ending::Disconnected ==> v.can_disconnect(),
        ending == Ending::TimedOut ==> v.can_time_out(),
    ensures
        v.after_ending(ending).inv(),
{
    let w = v.after_ending(ending);
    if ending == Ending::Disconnected {
        assert forall|i: int| 0 <= i < w.loops.len() implies #[trigger] w.gone(i) by {
            assert(v.gone(i));
        }
    }
}

/// While collection has not ended, the pipeline is never stuck: the
/// dispatcher, a worker or the collector can take a step that is not the
/// timeout. A run therefore needs the timeout only where a step is kept
/// from happening.
pub proof fn lemma_some_step_is_possible(v: PipelineView)
    requires
        v.inv(),
        v.ending.is_none(),
    ensures
        v.can_send() || v.can_close() || v.can_collect() || v.can_disconnect() || exists|i: int|
            v.can_take(i) || v.can_drain(i) || v.can_finish(i),
{
    if v.closed && v.collected == v.produced.len() && !v.disconnected() {
        let i = choose|i: int| 0 <= i < v.loops.len() && !#[trigger] v.gone(i);
        assert(v.can_take(i) || v.can_drain(i) || v.can_finish(i));
    }
}

/// Once collection has ended, the collector takes no further step: what is
/// produced afterwards is never displayed.
pub proof fn lemma_ending_is_final(v: PipelineView)
    requires
        v.ending.is_some(),
    ensures
        !v.can_collect(),
        !v.can_disconnect(),
        !v.can_time_out(),
{
}

/// No result names a task that was never sent, nor a worker that is not in
/// the pool.
pub proof fn lemma_results_name_sent_tasks(v: PipelineView)
    requires
        v.inv(),
    ensures
        forall|k: int|
            0 <= k < v.produced.len() ==> 1 <= (#[trigger] v.produced[k]).task_id <= v.sent,
        forall|k: int|
            0 <= k < v.produced.len() ==> 1 <= (#[trigger] v.produced[k]).worker_id
                <= v.loops.len(),
{
    assert forall|k: int| 0 <= k < v.produced.len() implies 1 <= (#[trigger] v.produced[k]).task_id
        <= v.sent by {
        let t = v.produced[k].task_id;
        lemma_occurrences_present(task_ids(v.produced), k);
        assert(occurrences(task_ids(v.produced), t) + occurrences(v.in_hand, Some(t)) == if 1
            <= t <= v.taken() {
            1nat
        } else {
            0nat
        });
    }
}

proof fn lemma_occurrences_in_run(s: Seq<u32>, base: int, t: u32)
    requires
        forall|k: int| 0 <= k < s.len() ==> #[trigger] s[k] == base + 1 + k,
    ensures
        occurrences(s, t) == if base < t <= base + s.len() {
            1nat
        } else {
            0nat
        },
    decreases s.len(),
{
    if s.len() > 0 {
        lemma_occurrences_in_run(s.drop_last(), base, t);
    }
}

/// No task is lost and none is duplicated: every task that was sent is in
/// exactly one place, waiting in the queue, in the hand of a worker, or
/// named by a result, and no other task is anywhere. The results are never
/// more than the tasks that have left the queue.
pub proof fn lemma_every_sent_task_is_in_one_place(v: PipelineView, t: u32)
    requires
        v.inv(),
    ensures
        occurrences(v.pending, t) + occurrences(v.in_hand, Some(t)) + occurrences(
            task_ids(v.produced),
            t,
        ) == if 1 <= t <= v.sent {
            1nat
        } else {
            0nat
        },
        v.produced.len() <= v.taken() <= v.sent,
{
    lemma_occurrences_in_run(v.pending, v.taken(), t);
    lemma_occurrences_bound(v.in_hand, None);
    assert(occurrences(task_ids(v.produced), t) + occurrences(v.in_hand, Some(t)) == if 1 <= t
        <= v.taken() {
        1nat
    } else {
        0nat
    });
}

/// No task is processed twice: a task identifier occurs at most once among
/// the results, and not at all while a worker still holds the task.
pub proof fn lemma_no_task_twice(v: PipelineView, t: u32)
    requires
        v.inv(),
    ensures
        occurrences(task_ids(v.produced), t) <= 1,
        occurrences(task_ids(v.produced), t) == 1 ==> occurrences(v.in_hand, Some(t)) == 0,
        occurrences(task_ids(v.collected_results()), t) <= 1,
{
    assert(occurrences(task_ids(v.produced), t) + occurrences(v.in_hand, Some(t)) == if 1 <= t
        <= v.taken() {
        1nat
    } else {
        0nat
    });
    lemma_occurrences_take(task_ids(v.produced), v.collected as int, t);
    assert(task_ids(v.collected_results()) =~= task_ids(v.produced).take(v.collected as int));
}

proof fn lemma_occurrences_take(s: Seq<u32>, n: int, x: u32)
    requires
        0 <= n <= s.len(),
    ensures
        occurrences(s.take(n), x) <= occurrences(s, x),
    decreases s.len(),
{
    if n == s.len() {
        assert(s.take(n) =~= s);
    } else {
        assert(s.drop_last().take(n) =~= s.take(n));
        lemma_occurrences_take(s.drop_last(), n, x);
    }
}

/// When collection ends because the result channel is disconnected, every
/// worker has filled its quota, the collector has displayed every result,
/// the results cover the tasks `1` to workers times quota exactly once each
/// and no other task, and the rest of the batch still waits in the queue.
pub proof fn lemma_disconnect_after_all_quotas(v: PipelineView)
    requires
        v.inv(),
        v.ending == Some(Ending::Disconnected),
    ensures
        v.collected == v.loops.len() * v.quota,
        v.collected_results() == v.produced,
        v.pending.len() == v.total_tasks - v.loops.len() * v.quota,
        v.pending.len() == v.total_tasks as nat % v.loops.len(),
        forall|i: int| 0 <= i < v.loops.len() ==> (#[trigger] v.loops[i]).processed == v.quota,
        forall|t: u32| #[trigger]
            occurrences(task_ids(v.collected_results()), t) == if 1 <= t <= v.loops.len()
                * v.quota {
                1nat
            } else {
                0nat
            },
{
    let workers = v.loops.len();
    let config = BatchConfig { total_tasks: v.total_tasks, total_workers: workers as u32 };
    lemma_plan_adds_up(config);
    assert(v.collected_results() =~= v.produced);
    assert forall|i: int| 0 <= i < workers implies (#[trigger] v.in_hand[i]) == None::<u32> by {
        assert(v.gone(i));
    }
    lemma_occurrences_everywhere(v.in_hand, None);
    lemma_total_bound(v.loops, v.quota as nat);
    if exists|i: int| 0 <= i < workers && (#[trigger] v.loops[i]).drained {
        let i = choose|i: int| 0 <= i < workers && (#[trigger] v.loops[i]).drained;
        assert(v.pending.len() == 0);
    } else {
        assert forall|i: int| 0 <= i < workers implies (#[trigger] v.loops[i]).processed
            == v.quota by {
            assert(v.gone(i));
        }
        lemma_total_full(v.loops, v.quota as nat);
    }
    assert(v.produced.len() == workers * v.quota);
    if exists|i: int| 0 <= i < workers && (#[trigger] v.loops[i]).processed != v.quota {
        let i = choose|i: int| 0 <= i < workers && (#[trigger] v.loops[i]).processed != v.quota;
        let short = v.loops.update(i, WorkerLoop { processed: v.quota, ..v.loops[i] });
        lemma_total_update(v.loops, i, WorkerLoop { processed: v.quota, ..v.loops[i] });
        lemma_total_bound(short, v.quota as nat);
        assert(false);
    }
    assert forall|t: u32| #[trigger]
        occurrences(task_ids(v.collected_results()), t) == if 1 <= t <= workers * v.quota {
            1nat
        } else {
            0nat
        } by {
        lemma_occurrences_absent(v.in_hand, Some(t));
        assert(occurrences(task_ids(v.produced), t) + occurrences(v.in_hand, Some(t)) == if 1
            <= t <= v.taken() {
            1nat
        } else {
            0nat
        });
    }
}

/// When the workers divide the batch evenly and collection ends because the
/// result channel is disconnected, the collector has displayed exactly as
/// many results as the batch has tasks, every task of the batch occurs in
/// them exactly once, and nothing else does.
pub proof fn lemma_even_batch_is_collected_whole(v: PipelineView)
    requires
        v.inv(),
        v.total_tasks as nat % v.loops.len() == 0,
        v.ending == Some(Ending::Disconnected),
    ensures
        v.collected == v.total_tasks,
        v.collected_results().len() == v.total_tasks,
        v.pending.len() == 0,
        forall|t: u32| #[trigger]
            occurrences(task_ids(v.collected_results()), t) == if 1 <= t <= v.total_tasks {
                1nat
            } else {
                0nat
            },
        forall|k: int|
            0 <= k < v.collected_results().len() ==> 1 <= (#[trigger] v.collected_results()[k]).worker_id
                <= v.loops.len(),
{
    lemma_disconnect_after_all_quotas(v);
    let config = BatchConfig { total_tasks: v.total_tasks, total_workers: v.loops.len() as u32 };
    lemma_plan_adds_up(config);
}

} // verus!
