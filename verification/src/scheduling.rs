//! Schedulers for tasks: the backends that stand for the ways in which a
//! task is run, and the handle on which its result is awaited. Whatever the
//! backend, a scheduled task has run to its end when `run` returns, and the
//! handle holds what it delivered.
use crate::channel::{first_of, DeliveryError, ExecutionFailure, Receiver, Slot};
use crate::task::{Task, TaskSender};
use crate::threadpool::ThreadPool;
use vstd::prelude::*;

verus! {

/// A one-time wait token for one scheduled task.
pub struct WaitHandle<T> {
    receiver: Receiver<T>,
}

impl<T> View for WaitHandle<T> {
    type V = Seq<T>;

    /// What the task delivered: one value, or nothing.
    closed spec fn view(&self) -> Seq<T> {
        self.receiver@
    }
}

impl<T: Send + 'static> WaitHandle<T> {
    fn new(receiver: Receiver<T>) -> (handle: WaitHandle<T>)
        ensures
            handle@ == receiver@,
    {
        WaitHandle { receiver }
    }

    /// Waits for the task's result: the value it delivered, or the failure
    /// when it delivered none.
    pub fn wait(self) -> (result: Result<T, ExecutionFailure>)
        ensures
            result == first_of(self@),
    {
        let mut receiver = self.receiver;
        receiver.recv()
    }
}

/// Runs `task` to its end on the calling thread and hands back what it left
/// in a fresh slot.
fn drive<T: Send + 'static>(task: Task<T>) -> (handle: WaitHandle<T>)
    requires
        task.ready(),
    ensures
        exists|s: TaskSender<T>, r: Result<(), DeliveryError<T>>|
            {
                &&& *s.slot is Empty
                &&& #[trigger] task.yields(s, r)
                &&& handle@ == (*final(s.slot)).pending()
            },
{
    let mut slot: Slot<T> = Slot::new();
    let sender = TaskSender { slot: &mut slot };
    let ghost started = sender;
    assert(task.accepts(sender));
    let r = task.func.call(sender);
    assert(task.yields(started, r));
    WaitHandle::new(Receiver::from_slot(slot))
}

/// What all schedulers have in common.
pub trait Scheduler {
    /// Whether this scheduler ever starts the work it is given.
    spec fn admits(&self) -> bool;

    /// Schedules a task. The handle resolves to what one run of the task
    /// delivered; on a scheduler that starts nothing it resolves to nothing.
    fn run<T: Send + 'static>(&self, task: Task<T>) -> (handle: WaitHandle<T>)
        requires
            task.ready(),
        ensures
            self.admits() ==> exists|s: TaskSender<T>, r: Result<(), DeliveryError<T>>|
                {
                    &&& *s.slot is Empty
                    &&& #[trigger] task.yields(s, r)
                    &&& handle@ == (*final(s.slot)).pending()
                },
            !self.admits() ==> handle@ == Seq::<T>::empty(),
    ;
}

/// Runs each task on the calling thread, before `run` returns.
pub struct SyncScheduler;

impl Scheduler for SyncScheduler {
    open spec fn admits(&self) -> bool {
        true
    }

    fn run<T: Send + 'static>(&self, task: Task<T>) -> (handle: WaitHandle<T>) {
        drive(task)
    }
}

/// Stands for a thread of its own for each task, with nothing to bound how
/// many there are.
pub struct ThreadScheduler;

impl ThreadScheduler {
    /// Creates a new thread scheduler.
    pub fn new() -> ThreadScheduler {
        ThreadScheduler
    }
}

impl Scheduler for ThreadScheduler {
    open spec fn admits(&self) -> bool {
        true
    }

    fn run<T: Send + 'static>(&self, task: Task<T>) -> (handle: WaitHandle<T>) {
        drive(task)
    }
}

/// Stands for a pool that never has more than a fixed number of tasks in
/// progress. Each task is submitted to a pool of that size and runs if the
/// pool admits it; a pool without a place admits nothing.
pub struct ThreadPoolScheduler {
    threads: usize,
}

impl ThreadPoolScheduler {
    /// The bound on the tasks in progress.
    pub closed spec fn threads(&self) -> nat {
        self.threads as nat
    }

    /// Creates a scheduler whose pool runs at most `threads` tasks at once.
    pub fn new(threads: usize) -> (scheduler: ThreadPoolScheduler)
        ensures
            scheduler.threads() == threads,
    {
        ThreadPoolScheduler { threads }
    }
}

impl Scheduler for ThreadPoolScheduler {
    /// A pool without a single place never starts anything.
    open spec fn admits(&self) -> bool {
        self.threads() > 0
    }

    fn run<T: Send + 'static>(&self, task: Task<T>) -> (handle: WaitHandle<T>) {
        let mut pool: ThreadPool<Task<T>> = ThreadPool::new(self.threads);
        match pool.spawn(task) {
            Some(job) => {
                let handle = drive(job);
                let _ = pool.complete();
                handle
            },
            None => WaitHandle::new(Receiver::new()),
        }
    }
}

} // verus!
