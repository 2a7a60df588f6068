use smoke::scheduling::{SyncScheduler, ThreadPoolScheduler, ThreadScheduler};
use smoke::task::Task;
use std::time::{Duration, Instant};

/// Holds the caller up for `millis` milliseconds.
fn pause(millis: u64) {
    let started = Instant::now();
    while started.elapsed() < Duration::from_millis(millis) {
        std::hint::spin_loop();
    }
}

fn delay(millis: u64) -> Task<()> {
    Task::new(move |sender| {
        pause(millis);
        sender.send(())
    })
}

/// creates a task that will pass.
fn create_ok_task() -> Task<i32> {
    delay(1).map(|_| 1)
}

/// creates a task that will panic.
fn create_panic_task() -> Task<i32> {
    delay(1).then(|_| {
        Task::new(|_| {
            panic!("boom");
        })
    })
}

#[test]
fn sync_scheduler_create() {
    let _ = SyncScheduler;
}

#[test]
fn sync_scheduler_run_ok_task() {
    let scheduler = SyncScheduler;
    let task = create_ok_task();
    match task.schedule(scheduler).wait() {
        Ok(result) => assert_eq!(1, result),
        Err(_) => { /* .. */ }
    }
}

#[test]
#[should_panic]
fn sync_scheduler_run_panic_task() {
    let scheduler = SyncScheduler;
    let task = create_panic_task();
    match task.schedule(scheduler).wait() {
        Ok(result) => assert_eq!(1, result),
        Err(_) => { /* .. */ }
    }
}

#[test]
fn sync_scheduler_run_from_task() {
    let scheduler = SyncScheduler;
    let task = create_ok_task();
    match task.schedule(scheduler).wait() {
        Ok(result) => assert_eq!(1, result),
        Err(_) => { /* .. */ }
    }
}

#[test]
fn thread_scheduler_create() {
    let _ = ThreadScheduler::new();
}

#[test]
fn thread_scheduler_run_ok_task() {
    let scheduler = ThreadScheduler::new();
    let task = create_ok_task();
    match task.schedule(scheduler).wait() {
        Ok(result) => assert_eq!(1, result),
        Err(_) => { /* .. */ }
    }
}

#[test]
fn thread_scheduler_run_from_task() {
    let scheduler = ThreadScheduler::new();
    let task = create_ok_task();
    match task.schedule(scheduler).wait() {
        Ok(result) => assert_eq!(1, result),
        Err(_) => { /* .. */ }
    }
}

#[test]
fn thread_pool_scheduler_create() {
    let _ = ThreadPoolScheduler::new(4);
}

#[test]
fn thread_pool_scheduler_run_ok_task() {
    let scheduler = ThreadPoolScheduler::new(4);
    let task = create_ok_task();
    match task.schedule(scheduler).wait() {
        Ok(result) => assert_eq!(1, result),
        Err(_) => { /* .. */ }
    }
}

#[test]
fn thread_pool_scheduler_run_from_task() {
    let scheduler = ThreadPoolScheduler::new(4);
    let task = create_ok_task();
    match task.schedule(scheduler).wait() {
        Ok(result) => assert_eq!(1, result),
        Err(_) => { /* .. */ }
    }
}

#[test]
fn every_backend_resolves_to_the_value() {
    assert_eq!(create_ok_task().schedule(SyncScheduler).wait(), Ok(1));
    assert_eq!(create_ok_task().schedule(ThreadScheduler::new()).wait(), Ok(1));
    assert_eq!(create_ok_task().schedule(ThreadPoolScheduler::new(4)).wait(), Ok(1));
}

#[test]
fn a_pool_without_a_place_starts_nothing() {
    let task = Task::new(|sender| sender.send(1));
    assert!(task.schedule(ThreadPoolScheduler::new(0)).wait().is_err());
}
