//! Runs of the pipeline: sequences of steps from the start of a batch, how
//! long they can be, and what holds at the end of every one of them.

use vstd::prelude::*;
use crate::collector::Ending;
use crate::config::BatchConfig;
use crate::counting::{lemma_occurrences_bound, lemma_occurrences_update, occurrences};
use crate::model::{
    initial,
    lemma_close_inv,
    lemma_collect_inv,
    lemma_disconnect_after_all_quotas,
    lemma_drain_inv,
    lemma_ending_inv,
    lemma_even_batch_is_collected_whole,
    lemma_finish_inv,
    lemma_initial_inv,
    lemma_results_name_sent_tasks,
    lemma_some_step_is_possible,
    lemma_send_inv,
    lemma_take_inv,
    task_ids,
    PipelineView,
};
use crate::worker::WorkerLoop;

verus! {

/// One step of the pipeline. Workers are counted from zero.
pub enum Step {
    /// The dispatcher sends the next task.
    Send,
    /// The dispatcher closes the task queue and lets go of the result
    /// channel.
    Close,
    /// A worker takes the oldest waiting task.
    Take(int),
    /// A worker is told that the queue is closed and empty.
    Drain(int),
    /// A worker processes the task it holds and sends the result.
    Finish(int),
    /// The collector displays a result.
    Collect,
    /// The collector ends because the result channel is disconnected.
    Disconnect,
    /// The collector ends because the timeout elapsed.
    TimeOut,
}

/// Whether the pipeline can take `step` in the state `v`.
pub open spec fn enabled(v: PipelineView, step: Step) -> bool {
    match step {
        Step::Send => v.can_send(),
        Step::Close => v.can_close(),
        Step::Take(i) => v.can_take(i),
        Step::Drain(i) => v.can_drain(i),
        Step::Finish(i) => v.can_finish(i),
        Step::Collect => v.can_collect(),
        Step::Disconnect => v.can_disconnect(),
        Step::TimeOut => v.can_time_out(),
    }
}

/// The state that `step` leaves the pipeline in.
pub open spec fn after(v: PipelineView, step: Step) -> PipelineView {
    match step {
        Step::Send => v.after_send(),
        Step::Close => v.after_close(),
        Step::Take(i) => v.after_take(i),
        Step::Drain(i) => v.after_drain(i),
        Step::Finish(i) => v.after_finish(i),
        Step::Collect => v.after_collect(),
        Step::Disconnect => v.after_ending(Ending::Disconnected),
        Step::TimeOut => v.after_ending(Ending::TimedOut),
    }
}

/// Whether each of `steps`, taken in order from the state `v`, is one the
/// pipeline can take.
pub open spec fn is_run(v: PipelineView, steps: Seq<Step>) -> bool
    decreases steps.len(),
{
    steps.len() == 0 || (enabled(v, steps[0]) && is_run(after(v, steps[0]), steps.drop_first()))
}

/// The state that `steps`, taken in order from the state `v`, leave the
/// pipeline in.
pub open spec fn end_of(v: PipelineView, steps: Seq<Step>) -> PipelineView
    decreases steps.len(),
{
    if steps.len() == 0 {
        v
    } else {
        end_of(after(v, steps[0]), steps.drop_first())
    }
}

/// No step of `steps` is the timeout.
pub open spec fn timeout_free(steps: Seq<Step>) -> bool {
    forall|k: int| 0 <= k < steps.len() ==> #[trigger] steps[k] != Step::TimeOut
}

/// Nothing can happen in the state `v` but, at most, the timeout.
pub open spec fn at_rest(v: PipelineView) -> bool {
    forall|step: Step| #[trigger] enabled(v, step) ==> step == Step::TimeOut
}

/// For each loop, whether the queue has told it that no task will come.
pub open spec fn drained_flags(loops: Seq<WorkerLoop>) -> Seq<bool> {
    loops.map_values(|l: WorkerLoop| l.drained)
}

/// A bound on the number of steps that the pipeline can still take: four
/// for each task not yet sent, three for each that waits, two for each in
/// the hand of a worker, one for each result not yet displayed, one for the
/// closing, one for each worker that has not been told of the end of the
/// queue, and one for the end of collection.
pub open spec fn steps_left(v: PipelineView) -> int {
    4 * (v.total_tasks - v.sent) + 3 * v.pending.len() + 2 * (v.in_hand.len() - occurrences(
        v.in_hand,
        None,
    )) + (v.produced.len() - v.collected) + (if v.closed {
        0int
    } else {
        1int
    }) + occurrences(drained_flags(v.loops), false) + (if v.ending.is_none() {
        1int
    } else {
        0int
    })
}

/// Every step keeps the invariant.
pub proof fn lemma_step_inv(v: PipelineView, step: Step)
    requires
        v.inv(),
        enabled(v, step),
    ensures
        after(v, step).inv(),
{
    match step {
        Step::Send => lemma_send_inv(v),
        Step::Close => lemma_close_inv(v),
        Step::Take(i) => lemma_take_inv(v, i),
        Step::Drain(i) => lemma_drain_inv(v, i),
        Step::Finish(i) => lemma_finish_inv(v, i),
        Step::Collect => lemma_collect_inv(v),
        Step::Disconnect => lemma_ending_inv(v, Ending::Disconnected),
        Step::TimeOut => lemma_ending_inv(v, Ending::TimedOut),
    }
}

/// Every step uses up one of the steps that are left, and never more are
/// used than there were.
pub proof fn lemma_step_uses_one(v: PipelineView, step: Step)
    requires
        v.inv(),
        enabled(v, step),
    ensures
        steps_left(after(v, step)) == steps_left(v) - 1,
        steps_left(after(v, step)) >= 0,
{
    let w = after(v, step);
    lemma_step_inv(v, step);
    lemma_occurrences_bound(w.in_hand, None);
    match step {
        Step::Take(i) => {
            lemma_occurrences_update(v.in_hand, i, Some(v.pending[0]), None);
        },
        Step::Drain(i) => {
            assert(drained_flags(w.loops) =~= drained_flags(v.loops).update(i, true));
            lemma_occurrences_update(drained_flags(v.loops), i, true, false);
        },
        Step::Finish(i) => {
            assert(drained_flags(w.loops) =~= drained_flags(v.loops));
            lemma_occurrences_update(v.in_hand, i, None, None);
        },
        _ => {},
    }
}

/// A run keeps the invariant, and is as long as the number of steps it
/// uses up.
pub proof fn lemma_run_inv(v: PipelineView, steps: Seq<Step>)
    requires
        v.inv(),
        is_run(v, steps),
    ensures
        end_of(v, steps).inv(),
        steps.len() + steps_left(end_of(v, steps)) == steps_left(v),
        steps_left(end_of(v, steps)) >= 0,
    decreases steps.len(),
{
    if steps.len() == 0 {
        lemma_occurrences_bound(v.in_hand, None);
    } else {
        lemma_step_inv(v, steps[0]);
        lemma_step_uses_one(v, steps[0]);
        lemma_run_inv(after(v, steps[0]), steps.drop_first());
    }
}

/// Every run of a batch comes to an end: it has at most four steps for each
/// task, one for each worker, and two more.
pub proof fn lemma_every_run_is_bounded(config: BatchConfig, steps: Seq<Step>)
    requires
        config.total_workers > 0,
        is_run(initial(config), steps),
    ensures
        steps.len() <= 4 * config.total_tasks + config.total_workers + 2,
{
    let v = initial(config);
    lemma_initial_inv(config);
    lemma_run_inv(v, steps);
    lemma_occurrences_bound(drained_flags(v.loops), false);
    lemma_occurrences_bound(v.in_hand, None);
}

/// In every run of a batch, no result names a task that had not been sent,
/// nor a worker that is not in the pool.
pub proof fn lemma_run_results_name_sent_tasks(config: BatchConfig, steps: Seq<Step>)
    requires
        config.total_workers > 0,
        is_run(initial(config), steps),
    ensures
        forall|k: int|
            0 <= k < end_of(initial(config), steps).produced.len() ==> 1 <= (#[trigger] end_of(
                initial(config),
                steps,
            ).produced[k]).task_id <= end_of(initial(config), steps).sent,
        forall|k: int|
            0 <= k < end_of(initial(config), steps).produced.len() ==> 1 <= (#[trigger] end_of(
                initial(config),
                steps,
            ).produced[k]).worker_id <= config.total_workers,
        end_of(initial(config), steps).sent <= config.total_tasks,
{
    lemma_initial_inv(config);
    lemma_run_inv(initial(config), steps);
    lemma_run_keeps_the_batch(initial(config), steps);
    lemma_results_name_sent_tasks(end_of(initial(config), steps));
}

/// A run changes neither the size of the batch, nor the quota, nor the
/// number of workers.
pub proof fn lemma_run_keeps_the_batch(v: PipelineView, steps: Seq<Step>)
    requires
        v.in_hand.len() == v.loops.len(),
        is_run(v, steps),
    ensures
        end_of(v, steps).total_tasks == v.total_tasks,
        end_of(v, steps).quota == v.quota,
        end_of(v, steps).loops.len() == v.loops.len(),
        end_of(v, steps).in_hand.len() == v.loops.len(),
    decreases steps.len(),
{
    if steps.len() > 0 {
        lemma_run_keeps_the_batch(after(v, steps[0]), steps.drop_first());
    }
}

proof fn lemma_no_timeout_without_its_step(v: PipelineView, steps: Seq<Step>)
    requires
        v.ending != Some(Ending::TimedOut),
        is_run(v, steps),
        timeout_free(steps),
    ensures
        end_of(v, steps).ending != Some(Ending::TimedOut),
    decreases steps.len(),
{
    if steps.len() > 0 {
        assert(steps[0] != Step::TimeOut);
        assert forall|k: int| 0 <= k < steps.drop_first().len() implies (
        #[trigger] steps.drop_first()[k]) != Step::TimeOut by {
            assert(steps.drop_first()[k] == steps[k + 1]);
        }
        lemma_no_timeout_without_its_step(after(v, steps[0]), steps.drop_first());
    }
}

/// A run of a batch in which the timeout never elapses, taken as far as it
/// goes, ends with the disconnect.
pub proof fn lemma_run_without_timeout_ends_with_disconnect(
    config: BatchConfig,
    steps: Seq<Step>,
)
    requires
        config.total_workers > 0,
        is_run(initial(config), steps),
        timeout_free(steps),
        at_rest(end_of(initial(config), steps)),
    ensures
        end_of(initial(config), steps).ending == Some(Ending::Disconnected),
{
    let end = end_of(initial(config), steps);
    lemma_initial_inv(config);
    lemma_run_inv(initial(config), steps);
    lemma_no_timeout_without_its_step(initial(config), steps);
    if end.ending.is_none() {
        lemma_some_step_is_possible(end);
        assert(!enabled(end, Step::Send));
        assert(!enabled(end, Step::Close));
        assert(!enabled(end, Step::Collect));
        assert(!enabled(end, Step::Disconnect));
        let i = choose|i: int| end.can_take(i) || end.can_drain(i) || end.can_finish(i);
        assert(!enabled(end, Step::Take(i)));
        assert(!enabled(end, Step::Drain(i)));
        assert(!enabled(end, Step::Finish(i)));
    }
}

/// In every run of a batch that ends with the disconnect, every worker has
/// filled its quota, the collector has displayed workers times quota
/// results, which name the first that many tasks once each and no other,
/// and the rest of the batch waits in the queue for good.
pub proof fn lemma_run_to_disconnect(config: BatchConfig, steps: Seq<Step>)
    requires
        config.total_workers > 0,
        is_run(initial(config), steps),
        end_of(initial(config), steps).ending == Some(Ending::Disconnected),
    ensures
        ({
            let end = end_of(initial(config), steps);
            let covered = config.total_workers * (config.total_tasks / config.total_workers);
            &&& end.collected == covered
            &&& end.collected_results() == end.produced
            &&& end.pending.len() == config.total_tasks as nat % config.total_workers as nat
            &&& forall|t: u32| #[trigger]
                occurrences(task_ids(end.collected_results()), t) == if 1 <= t <= covered {
                    1nat
                } else {
                    0nat
                }
        }),
{
    let end = end_of(initial(config), steps);
    lemma_initial_inv(config);
    lemma_run_inv(initial(config), steps);
    lemma_run_keeps_the_batch(initial(config), steps);
    lemma_disconnect_after_all_quotas(end);
}

/// In every run of a batch that the workers divide evenly and that ends
/// with the disconnect, the collector has displayed exactly as many results
/// as the batch has tasks, and the results name every task of the batch
/// once and nothing else, each with a worker of the pool.
pub proof fn lemma_run_of_even_batch(config: BatchConfig, steps: Seq<Step>)
    requires
        config.total_workers > 0,
        config.total_tasks % config.total_workers == 0,
        is_run(initial(config), steps),
        end_of(initial(config), steps).ending == Some(Ending::Disconnected),
    ensures
        ({
            let end = end_of(initial(config), steps);
            &&& end.collected == config.total_tasks
            &&& end.collected_results().len() == config.total_tasks
            &&& forall|t: u32| #[trigger]
                occurrences(task_ids(end.collected_results()), t) == if 1 <= t
                    <= config.total_tasks {
                    1nat
                } else {
                    0nat
                }
            &&& forall|k: int|
                0 <= k < end.collected_results().len() ==> 1 <= (
                #[trigger] end.collected_results()[k]).worker_id <= config.total_workers
        }),
{
    let end = end_of(initial(config), steps);
    lemma_initial_inv(config);
    lemma_run_inv(initial(config), steps);
    lemma_run_keeps_the_batch(initial(config), steps);
    lemma_even_batch_is_collected_whole(end);
}

} // verus!
