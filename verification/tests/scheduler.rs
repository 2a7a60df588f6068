use smoke::channel::ExecutionFailure;
use smoke::scheduler::{Backend, Scheduler};
use std::time::{Duration, Instant};

/// Holds the caller up for `millis` milliseconds.
fn pause(millis: u64) {
    let started = Instant::now();
    while started.elapsed() < Duration::from_millis(millis) {
        std::hint::spin_loop();
    }
}

#[test]
fn create_thread() {
    let _ = Scheduler::new(8);
}

#[test]
fn create_thread_sequential_result() {
    let scheduler = Scheduler::new(8);
    let handles: Vec<_> = (0..10)
        .map(|n| {
            scheduler.run(move || {
                pause(100);
                n
            })
        })
        .collect();
    let results: Vec<_> = handles.into_iter().map(|handle| handle.wait().unwrap()).collect();
    let mut idx = 0;
    for n in results {
        assert_eq!(n, idx);
        idx += 1;
    }
}

#[test]
fn create_thread_sleep_join() {
    let scheduler = Scheduler::new(8);
    let handle = scheduler.run(|| {
        pause(100);
        10
    });
    assert_eq!(handle.wait().unwrap(), 10);
}

#[test]
fn each_backend_is_what_it_was_made_as() {
    assert_eq!(Scheduler::new(8).backend(), Backend::ThreadPool(8));
    assert_eq!(Scheduler::threadpool(2).backend(), Backend::ThreadPool(2));
    assert_eq!(Scheduler::sync().backend(), Backend::Sync);
    assert_eq!(Scheduler::thread().backend(), Backend::Thread);
}

#[test]
fn each_backend_runs_the_closure() {
    assert_eq!(Scheduler::sync().run(|| 1).wait(), Ok(1));
    assert_eq!(Scheduler::thread().run(|| 2).wait(), Ok(2));
    assert_eq!(Scheduler::threadpool(3).run(|| 3).wait(), Ok(3));
}

#[test]
fn a_pool_without_a_place_never_runs_the_closure() {
    assert_eq!(Scheduler::threadpool(0).run(|| 3).wait(), Err(ExecutionFailure));
}
