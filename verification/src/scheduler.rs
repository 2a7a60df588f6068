//! The scheduler for plain closures: one value that stands for one of the
//! three ways in which work is run.
use crate::channel::{Receiver, Slot};
use crate::handle::Handle;
use crate::threadpool::ThreadPool;
use vstd::prelude::*;

verus! {

/// How a scheduler runs the work it is given.
#[derive(Clone, Copy, Debug, PartialEq, Eq, Structural)]
pub enum Backend {
    /// On the calling thread, before `run` returns.
    Sync,
    /// On a thread of its own for each unit of work.
    Thread,
    /// On a pool that has this many places.
    ThreadPool(usize),
}

/// Executes closures and hands back the handles to wait on. Copies of a
/// scheduler stand for the same backend.
#[derive(Clone, Copy, Debug)]
pub struct Scheduler {
    backend: Backend,
}

impl Scheduler {
    /// The backend that was chosen when the scheduler was made.
    pub closed spec fn kind(&self) -> Backend {
        self.backend
    }

    /// Whether this scheduler ever starts the work it is given: a pool
    /// without a place does not.
    pub open spec fn admits(&self) -> bool {
        match self.kind() {
            Backend::ThreadPool(threads) => threads > 0,
            _ => true,
        }
    }

    /// Creates a scheduler that runs work on a pool with `threads` places.
    pub fn new(threads: usize) -> (scheduler: Scheduler)
        ensures
            scheduler.kind() == Backend::ThreadPool(threads),
    {
        Scheduler { backend: Backend::ThreadPool(threads) }
    }

    /// Creates a scheduler that runs work on the calling thread.
    pub fn sync() -> (scheduler: Scheduler)
        ensures
            scheduler.kind() == Backend::Sync,
    {
        Scheduler { backend: Backend::Sync }
    }

    /// Creates a scheduler that gives each unit of work its own thread.
    pub fn thread() -> (scheduler: Scheduler)
        ensures
            scheduler.kind() == Backend::Thread,
    {
        Scheduler { backend: Backend::Thread }
    }

    /// Creates a scheduler that runs work on a pool with `threads` places.
    pub fn threadpool(threads: usize) -> (scheduler: Scheduler)
        ensures
            scheduler.kind() == Backend::ThreadPool(threads),
    {
        Scheduler::new(threads)
    }

    /// The backend of this scheduler.
    pub fn backend(&self) -> (backend: Backend)
        ensures
            backend == self.kind(),
    {
        self.backend
    }

    /// Runs `func` and hands back the handle that resolves to its value. On a
    /// pool without a place the work never starts and the handle resolves to
    /// nothing.
    pub fn run<T: Send + 'static, F: FnOnce() -> T + Send + 'static>(&self, func: F) -> (handle:
        Handle<T>)
        requires
            func.requires(()),
        ensures
            self.admits() ==> exists|value: T| #[trigger]
                func.ensures((), value) && handle@ == seq![value],
            !self.admits() ==> handle@ == Seq::<T>::empty(),
    {
        let places = match self.backend {
            Backend::ThreadPool(threads) => threads,
            _ => 1,
        };
        let mut pool: ThreadPool<F> = ThreadPool::new(places);
        match pool.spawn(func) {
            Some(job) => {
                let value = job();
                let _ = pool.complete();
                Handle::new(Receiver::from_slot(Slot::Full(value)))
            },
            None => Handle::new(Receiver::new()),
        }
    }
}

} // verus!
