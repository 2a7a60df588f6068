use smoke::channel::{DeliveryError, ExecutionFailure, Slot};
use smoke::scheduling::{Scheduler, SyncScheduler};
use smoke::task::{collect_results, Task, TaskSender};
use std::sync::atomic::{AtomicUsize, Ordering};
use std::sync::Arc;
use std::time::{Duration, Instant};

/// Holds the caller up for `millis` milliseconds.
fn pause(millis: u64) {
    let started = Instant::now();
    while started.elapsed() < Duration::from_millis(millis) {
        std::hint::spin_loop();
    }
}

fn delay(millis: u64) -> Task<()> {
    Task::new(move |sender| {
        pause(millis);
        sender.send(())
    })
}

#[test]
fn task_create() {
    let _ = Task::new(|sender| sender.send(10));
}

#[test]
fn wait() {
    let task = Task::new(|sender| sender.send(10));
    assert_eq!(task.wait().unwrap(), 10);
}

#[test]
fn await_result() {
    let task = Task::new(|sender| sender.send(10));
    assert_eq!(task.async_(|result| result.unwrap()).wait().unwrap(), 10);
}

#[test]
fn wait_then() {
    fn increment(value: i32) -> Task<i32> {
        delay(10).map(move |_| value + 1)
    }
    assert_eq!(
        4,
        increment(0)
            .then(|r| increment(r.unwrap()))
            .then(|r| increment(r.unwrap()))
            .then(|r| increment(r.unwrap()))
            .wait()
            .unwrap()
    );
}

#[test]
fn async_then() {
    fn increment(value: i32) -> Task<i32> {
        delay(1).map(move |_| value + 1)
    }
    let result = increment(0)
        .then(|r| increment(r.unwrap()))
        .then(|r| increment(r.unwrap()))
        .then(|r| increment(r.unwrap()))
        .async_(|result| {
            assert_eq!(4, result.unwrap());
            123
        })
        .wait();
    assert_eq!(123, result.unwrap());
}

#[test]
#[should_panic]
fn wait_no_result_match() {
    let task = Task::<i32>::new(|_| Ok(()));
    task.wait().unwrap();
}

#[test]
#[should_panic]
fn wait_no_result_unwrap() {
    let task = Task::<i32>::new(|_| Ok(()));
    task.wait().unwrap();
}

#[test]
fn wait_without_send_is_a_failure() {
    let task = Task::<i32>::new(|_| Ok(()));
    assert_eq!(task.wait(), Err(ExecutionFailure));
}

#[test]
fn delayed_hello() {
    let started = Instant::now();
    let result = delay(10).map(|_| "hello").wait();
    assert_eq!(result, Ok("hello"));
    assert!(started.elapsed() >= Duration::from_millis(10));
}

#[test]
fn send_fills_an_empty_slot() {
    let mut slot = Slot::new();
    assert!(TaskSender::new(&mut slot).send(7).is_ok());
    assert_eq!(slot.take(), Ok(7));
}

#[test]
fn send_to_a_closed_slot_hands_the_value_back() {
    let mut slot: Slot<i32> = Slot::closed();
    match TaskSender::new(&mut slot).send(7) {
        Err(DeliveryError(value)) => assert_eq!(value, 7),
        Ok(()) => panic!("a closed slot took a value"),
    }
    assert_eq!(slot.take(), Err(ExecutionFailure));
}

#[test]
fn send_to_a_full_slot_hands_the_value_back() {
    let mut slot = Slot::new();
    assert!(TaskSender::new(&mut slot).send(1).is_ok());
    match TaskSender::new(&mut slot).send(2) {
        Err(DeliveryError(value)) => assert_eq!(value, 2),
        Ok(()) => panic!("a full slot took a second value"),
    }
    assert_eq!(slot.take(), Ok(1));
}

#[test]
fn map_sees_the_failure_of_its_source() {
    let task = Task::<i32>::new(|_| Ok(())).map(|result| match result {
        Ok(value) => value,
        Err(ExecutionFailure) => -1,
    });
    assert_eq!(task.wait(), Ok(-1));
}

#[test]
fn then_runs_the_continuation_after_the_antecedent() {
    let steps = Arc::new(AtomicUsize::new(0));
    let first = steps.clone();
    let second = steps.clone();
    let task = Task::new(move |sender| {
        assert_eq!(first.fetch_add(1, Ordering::SeqCst), 0);
        sender.send(5)
    })
    .then(move |result| {
        assert_eq!(second.fetch_add(1, Ordering::SeqCst), 1);
        let value = result.unwrap();
        Task::new(move |sender| sender.send(value * 2))
    });
    assert_eq!(steps.load(Ordering::SeqCst), 0);
    assert_eq!(task.wait(), Ok(10));
    assert_eq!(steps.load(Ordering::SeqCst), 2);
}

#[test]
fn then_passes_on_the_failure_of_the_next_task() {
    let task = Task::new(|sender| sender.send(1)).then(|_| Task::<i32>::new(|_| Ok(())));
    assert_eq!(task.wait(), Err(ExecutionFailure));
}

#[test]
fn all_is_aligned_with_its_input() {
    fn slow(value: i32, millis: u64) -> Task<i32> {
        delay(millis).map(move |_| value)
    }
    let task = Task::all(4, vec![slow(0, 30), slow(1, 1), slow(2, 10)]);
    assert_eq!(task.wait(), Ok(vec![0, 1, 2]));
}

#[test]
fn all_with_one_place_still_runs_every_task() {
    let tasks: Vec<Task<i32>> = (0..5).map(|n| Task::new(move |sender| sender.send(n))).collect();
    assert_eq!(Task::all(1, tasks).wait(), Ok(vec![0, 1, 2, 3, 4]));
}

#[test]
fn all_fails_fast() {
    let ran = Arc::new(AtomicUsize::new(0));
    let seen = ran.clone();
    let failing = Task::<i32>::new(|_| Ok(()));
    let fine = Task::new(move |sender| {
        seen.fetch_add(1, Ordering::SeqCst);
        sender.send(1)
    });
    assert_eq!(Task::all(4, vec![failing, fine]).wait(), Err(ExecutionFailure));
    assert_eq!(ran.load(Ordering::SeqCst), 1);
}

#[test]
fn all_without_a_place_runs_nothing() {
    let ran = Arc::new(AtomicUsize::new(0));
    let seen = ran.clone();
    let task = Task::new(move |sender| {
        seen.fetch_add(1, Ordering::SeqCst);
        sender.send(1)
    });
    assert_eq!(Task::all(0, vec![task]).wait(), Err(ExecutionFailure));
    assert_eq!(ran.load(Ordering::SeqCst), 0);
}

#[test]
fn all_of_nothing_is_empty() {
    assert_eq!(Task::<i32>::all(0, Vec::new()).wait(), Ok(Vec::new()));
}

#[test]
fn schedule_hands_back_the_result() {
    let handle = Task::new(|sender| sender.send("done")).schedule(SyncScheduler);
    assert_eq!(handle.wait(), Ok("done"));
    let handle = SyncScheduler.run(Task::<i32>::new(|_| Ok(())));
    assert_eq!(handle.wait(), Err(ExecutionFailure));
}

#[test]
fn results_are_collected_fail_fast() {
    assert_eq!(collect_results(vec![Ok(1), Ok(2), Ok(3)]), Ok(vec![1, 2, 3]));
    assert_eq!(collect_results(vec![Ok(1), Err(ExecutionFailure), Ok(3)]), Err(ExecutionFailure));
    assert_eq!(collect_results(Vec::<Result<i32, ExecutionFailure>>::new()), Ok(Vec::new()));
}
