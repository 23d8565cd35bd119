use batch_workers::collector::Ending;
use batch_workers::config::{BatchConfig, ConfigError};
use batch_workers::model::Completion;
use batch_workers::pipeline::Pipeline;
use batch_workers::worker::{create_worker, WorkerLoop};

fn pipeline(total_tasks: u32, total_workers: u32) -> Pipeline {
    match Pipeline::new(BatchConfig { total_tasks, total_workers }) {
        Ok(pipeline) => pipeline,
        Err(e) => panic!("refused: {:?}", e),
    }
}

fn send_all_and_close(p: &mut Pipeline) {
    while p.send_next() {}
    assert!(p.close());
}

/// Lets the workers take turns, each taking and finishing one task per
/// round, and the collector display what has come, until nothing moves.
fn run_in_turns(p: &mut Pipeline) -> Vec<String> {
    let mut lines = Vec::new();
    loop {
        let before = (p.pending(), p.produced().len(), p.collected(), p.ending());
        let mut left = 0;
        for i in 0..p.workers() {
            p.receive(i);
        }
        for i in 0..p.workers() {
            p.finish(i);
            if p.worker_loop(i).unwrap().is_running() {
                left += 1;
            }
        }
        while let Some(line) = p.collect() {
            lines.push(line);
        }
        if left == 0 && before == (p.pending(), p.produced().len(), p.collected(), p.ending()) {
            return lines;
        }
    }
}

fn times_named(results: &[Completion], task_id: u32) -> usize {
    results.iter().filter(|c| c.task_id == task_id).count()
}

fn assert_no_result_for_an_unsent_task(p: &Pipeline) {
    for c in p.produced() {
        assert!(1 <= c.task_id && c.task_id <= p.sent());
        assert!(1 <= c.worker_id && c.worker_id as usize <= p.workers());
    }
}

#[test]
fn pipeline_starts_with_nothing_sent() {
    let p = pipeline(10, 5);
    assert_eq!(p.total_tasks(), 10);
    assert_eq!(p.quota(), 2);
    assert_eq!(p.workers(), 5);
    assert_eq!(p.sent(), 0);
    assert_eq!(p.pending(), 0);
    assert!(!p.is_closed());
    assert!(p.produced().is_empty());
    assert_eq!(p.collected(), 0);
    assert_eq!(p.ending(), None);
    for i in 0..5 {
        assert_eq!(
            p.worker_loop(i),
            Some(WorkerLoop {
                worker: create_worker(i as u32 + 1),
                quota: 2,
                processed: 0,
                drained: false
            })
        );
        assert_eq!(p.holding(i), None);
    }
    assert_eq!(p.worker_loop(5), None);
    assert_eq!(p.holding(5), None);
}

#[test]
fn pipeline_without_workers_is_refused() {
    assert!(matches!(
        Pipeline::new(BatchConfig { total_tasks: 10, total_workers: 0 }),
        Err(ConfigError::NoWorkers)
    ));
    assert!(matches!(
        Pipeline::new(BatchConfig { total_tasks: 0, total_workers: 0 }),
        Err(ConfigError::NoWorkers)
    ));
}

#[test]
fn ten_tasks_for_five_workers_end_with_the_disconnect() {
    let mut p = pipeline(10, 5);
    send_all_and_close(&mut p);
    assert_eq!(p.sent(), 10);
    let lines = run_in_turns(&mut p);
    assert_eq!(lines.len(), 11);
    for (k, line) in lines[..10].iter().enumerate() {
        let worker = k % 5 + 1;
        let task = k + 1;
        assert_eq!(
            *line,
            format!(
                "Result => Worker {} processed Task {} with payload: Task {}",
                worker, task, task
            )
        );
    }
    assert_eq!(lines[10], "results channel disconnected");
    assert_eq!(p.ending(), Some(Ending::Disconnected));
    assert_eq!(p.collected(), 10);
    assert_eq!(p.pending(), 0);
    for i in 0..5 {
        assert_eq!(p.worker_loop(i).unwrap().processed, 2);
        assert!(!p.worker_loop(i).unwrap().drained);
    }
    for task_id in 0..=12 {
        let expected = if 1 <= task_id && task_id <= 10 { 1 } else { 0 };
        assert_eq!(times_named(p.produced(), task_id), expected);
    }
}

#[test]
fn seven_tasks_for_five_workers_leave_two_in_the_queue() {
    let mut p = pipeline(7, 5);
    assert_eq!(p.quota(), 1);
    send_all_and_close(&mut p);
    let lines = run_in_turns(&mut p);
    assert_eq!(lines.len(), 6);
    assert_eq!(lines[5], "results channel disconnected");
    assert_eq!(p.ending(), Some(Ending::Disconnected));
    assert_eq!(p.collected(), 5);
    assert_eq!(p.pending(), 2);
    for task_id in 1..=5 {
        assert_eq!(times_named(p.produced(), task_id), 1);
    }
    assert_eq!(times_named(p.produced(), 6), 0);
    assert_eq!(times_named(p.produced(), 7), 0);
    for i in 0..5 {
        assert_eq!(p.receive(i), None);
        assert_eq!(p.finish(i), None);
    }
    assert_eq!(p.pending(), 2);
}

#[test]
fn more_workers_than_tasks_process_nothing() {
    let mut p = pipeline(3, 5);
    assert_eq!(p.quota(), 0);
    send_all_and_close(&mut p);
    for i in 0..5 {
        assert_eq!(p.receive(i), None);
    }
    assert_eq!(p.collect(), Some(String::from("results channel disconnected")));
    assert_eq!(p.pending(), 3);
    assert!(p.produced().is_empty());
    assert_eq!(p.collected(), 0);
}

#[test]
fn an_empty_batch_ends_with_the_disconnect() {
    let mut p = pipeline(0, 3);
    assert!(!p.send_next());
    assert_eq!(p.collect(), None);
    assert!(p.close());
    assert_eq!(p.collect(), Some(String::from("results channel disconnected")));
    assert_eq!(p.ending(), Some(Ending::Disconnected));
    assert_eq!(p.collected(), 0);
}

#[test]
fn results_come_in_the_order_in_which_workers_finish() {
    let mut p = pipeline(4, 2);
    assert!(p.send_next());
    assert!(p.send_next());
    assert_eq!(p.receive(1), Some(1));
    assert_eq!(p.receive(0), Some(2));
    assert_eq!(p.holding(1), Some(1));
    assert_eq!(p.holding(0), Some(2));
    assert_eq!(p.receive(0), None);
    assert_eq!(p.holding(0), Some(2));
    assert_eq!(p.finish(0), Some(Completion { worker_id: 1, task_id: 2 }));
    assert_eq!(p.holding(0), None);
    assert_eq!(p.receive(0), None);
    assert_eq!(p.worker_loop(0).unwrap().processed, 1);
    assert!(!p.worker_loop(0).unwrap().drained);
    assert!(p.send_next());
    assert_eq!(p.receive(0), Some(3));
    assert_eq!(p.finish(0), Some(Completion { worker_id: 1, task_id: 3 }));
    assert_eq!(p.finish(0), None);
    assert!(!p.worker_loop(0).unwrap().is_running());
    assert_eq!(p.finish(1), Some(Completion { worker_id: 2, task_id: 1 }));
    assert!(!p.close());
    assert!(p.send_next());
    assert!(!p.send_next());
    assert!(p.close());
    assert!(!p.close());
    assert_eq!(p.receive(1), Some(4));
    assert_eq!(p.finish(1), Some(Completion { worker_id: 2, task_id: 4 }));
    assert_eq!(
        *p.produced(),
        vec![
            Completion { worker_id: 1, task_id: 2 },
            Completion { worker_id: 1, task_id: 3 },
            Completion { worker_id: 2, task_id: 1 },
            Completion { worker_id: 2, task_id: 4 },
        ]
    );
    let mut lines = Vec::new();
    while let Some(line) = p.collect() {
        lines.push(line);
    }
    assert_eq!(
        lines,
        vec![
            "Result => Worker 1 processed Task 2 with payload: Task 2",
            "Result => Worker 1 processed Task 3 with payload: Task 3",
            "Result => Worker 2 processed Task 1 with payload: Task 1",
            "Result => Worker 2 processed Task 4 with payload: Task 4",
            "results channel disconnected",
        ]
    );
    assert_eq!(p.collected(), 4);
    for task_id in 1..=4 {
        assert_eq!(times_named(p.produced(), task_id), 1);
    }
}

#[test]
fn closing_before_every_task_is_sent_does_nothing() {
    let mut p = pipeline(3, 1);
    assert!(p.send_next());
    assert!(!p.close());
    assert!(!p.is_closed());
    assert_eq!(p.sent(), 1);
    assert!(p.send_next());
    assert!(p.send_next());
    assert!(p.close());
    assert!(p.is_closed());
    assert!(!p.send_next());
    assert_eq!(p.sent(), 3);
}

#[test]
fn a_worker_waits_on_an_open_and_empty_queue() {
    let mut p = pipeline(2, 1);
    assert_eq!(p.receive(0), None);
    assert_eq!(
        p.worker_loop(0),
        Some(WorkerLoop { worker: create_worker(1), quota: 2, processed: 0, drained: false })
    );
    assert!(p.send_next());
    assert_eq!(p.pending(), 1);
    assert_eq!(p.receive(0), Some(1));
    assert_eq!(p.pending(), 0);
    assert_eq!(p.receive(7), None);
    assert_eq!(p.finish(7), None);
}

#[test]
fn no_result_names_a_task_that_was_not_sent() {
    let mut p = pipeline(6, 3);
    assert_no_result_for_an_unsent_task(&p);
    let mut step = 0usize;
    while p.ending().is_none() {
        match step % 4 {
            0 => {
                p.send_next();
            }
            1 => {
                p.receive(step % 3);
                p.receive((step + 1) % 3);
            }
            2 => {
                p.finish((step / 4) % 3);
                p.finish(step % 3);
            }
            _ => {
                p.close();
                p.collect();
            }
        }
        assert_no_result_for_an_unsent_task(&p);
        assert!(p.collected() <= p.produced().len());
        step += 1;
        assert!(step < 1000);
    }
    assert_eq!(p.ending(), Some(Ending::Disconnected));
    assert_eq!(p.collected(), 6);
    for task_id in 1..=6 {
        assert_eq!(times_named(p.produced(), task_id), 1);
    }
}

#[test]
fn a_worker_delayed_beyond_the_timeout_loses_its_result() {
    let mut p = pipeline(10, 5);
    send_all_and_close(&mut p);
    let mut lines = Vec::new();
    for i in 0..5 {
        assert_eq!(p.receive(i), Some(i as u32 + 1));
    }
    for i in 1..5 {
        assert!(p.finish(i).is_some());
        assert_eq!(p.receive(i), Some(i as u32 + 5));
        assert!(p.finish(i).is_some());
    }
    while let Some(line) = p.collect() {
        lines.push(line);
    }
    assert_eq!(lines.len(), 8);
    assert_eq!(p.ending(), None);
    assert_eq!(p.time_out(), Some(String::from("no more results within the timeout window")));
    assert_eq!(p.ending(), Some(Ending::TimedOut));
    assert_eq!(p.finish(0), Some(Completion { worker_id: 1, task_id: 1 }));
    assert_eq!(p.receive(0), Some(10));
    assert_eq!(p.finish(0), Some(Completion { worker_id: 1, task_id: 10 }));
    assert_eq!(p.produced().len(), 10);
    assert_eq!(p.collect(), None);
    assert_eq!(p.time_out(), None);
    assert_eq!(p.collected(), 8);
    assert_eq!(p.ending(), Some(Ending::TimedOut));
    for i in 0..5 {
        assert!(!p.worker_loop(i).unwrap().is_running());
    }
}

#[test]
fn no_timeout_while_a_result_waits() {
    let mut p = pipeline(1, 1);
    assert!(p.send_next());
    assert_eq!(p.receive(0), Some(1));
    assert!(p.finish(0).is_some());
    assert_eq!(p.time_out(), None);
    assert_eq!(p.ending(), None);
    assert_eq!(
        p.collect(),
        Some(String::from("Result => Worker 1 processed Task 1 with payload: Task 1"))
    );
    assert_eq!(p.time_out(), Some(String::from("no more results within the timeout window")));
}

#[test]
fn no_timeout_once_every_sender_is_gone() {
    let mut p = pipeline(1, 1);
    send_all_and_close(&mut p);
    assert_eq!(p.receive(0), Some(1));
    assert!(p.finish(0).is_some());
    assert!(p.collect().is_some());
    assert_eq!(p.time_out(), None);
    assert_eq!(p.collect(), Some(String::from("results channel disconnected")));
    assert_eq!(p.collect(), None);
    assert_eq!(p.time_out(), None);
    assert_eq!(p.ending(), Some(Ending::Disconnected));
}

#[test]
fn a_worker_below_its_quota_leaves_when_the_queue_ends() {
    let mut p = pipeline(4, 2);
    send_all_and_close(&mut p);
    for id in 1..=2 {
        assert_eq!(p.receive(0), Some(id));
        assert!(p.finish(0).is_some());
    }
    assert_eq!(p.receive(1), Some(3));
    assert_eq!(p.collect().is_some(), true);
    assert_eq!(p.collect().is_some(), true);
    assert_eq!(p.collect(), None);
    assert!(p.finish(1).is_some());
    assert_eq!(p.receive(1), Some(4));
    assert!(p.finish(1).is_some());
    assert_eq!(p.receive(1), None);
    assert!(!p.worker_loop(1).unwrap().drained);
    let mut lone = pipeline(1, 1);
    send_all_and_close(&mut lone);
    assert_eq!(lone.receive(0), Some(1));
    assert!(lone.finish(0).is_some());
    assert_eq!(lone.receive(0), None);
    assert!(!lone.worker_loop(0).unwrap().drained);
}

#[test]
fn every_even_batch_is_collected_whole() {
    for total_workers in 1..6u32 {
        for quota in 0..4u32 {
            let total_tasks = total_workers * quota;
            let mut p = pipeline(total_tasks, total_workers);
            send_all_and_close(&mut p);
            let lines = run_in_turns(&mut p);
            assert_eq!(lines.len() as u32, total_tasks + 1);
            assert_eq!(p.ending(), Some(Ending::Disconnected));
            assert_eq!(p.collected() as u32, total_tasks);
            for task_id in 0..total_tasks + 2 {
                let expected = if 1 <= task_id && task_id <= total_tasks { 1 } else { 0 };
                assert_eq!(times_named(p.produced(), task_id), expected);
            }
        }
    }
}

#[test]
fn every_batch_leaves_what_the_quotas_do_not_cover() {
    for total_workers in 1..6u32 {
        for total_tasks in 0..14u32 {
            let mut p = pipeline(total_tasks, total_workers);
            send_all_and_close(&mut p);
            run_in_turns(&mut p);
            let quota = total_tasks / total_workers;
            assert_eq!(p.ending(), Some(Ending::Disconnected));
            assert_eq!(p.collected() as u32, total_workers * quota);
            assert_eq!(p.pending() as u32, total_tasks % total_workers);
            for i in 0..p.workers() {
                assert_eq!(p.worker_loop(i).unwrap().processed, quota);
            }
        }
    }
}

#[test]
fn a_run_takes_no_more_steps_than_four_a_task_one_a_worker_and_two() {
    for total_workers in 1..5u32 {
        for total_tasks in 0..9u32 {
            let mut p = pipeline(total_tasks, total_workers);
            let mut steps = 0u32;
            loop {
                let mut moved = 0u32;
                if p.send_next() {
                    moved += 1;
                }
                if p.close() {
                    moved += 1;
                }
                for i in 0..p.workers() {
                    let drained = p.worker_loop(i).unwrap().drained;
                    if p.receive(i).is_some() || p.worker_loop(i).unwrap().drained != drained {
                        moved += 1;
                    }
                    if p.finish(i).is_some() {
                        moved += 1;
                    }
                }
                if p.collect().is_some() {
                    moved += 1;
                }
                if moved == 0 {
                    break;
                }
                steps += moved;
            }
            assert_eq!(p.ending(), Some(Ending::Disconnected));
            assert!(steps <= 4 * total_tasks + total_workers + 2);
            let covered = total_workers * (total_tasks / total_workers);
            let told = (0..p.workers()).filter(|i| p.worker_loop(*i).unwrap().drained).count();
            assert_eq!(steps, total_tasks + 1 + 3 * covered + told as u32 + 1);
        }
    }
}
