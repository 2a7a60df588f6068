//! The operation queue: bounded concurrency that can be paused.
use std::collections::VecDeque;
use vstd::prelude::*;

verus! {

/// A queue of operations of which at most `concurrency` are in progress. It
/// decides which operation may start. While the queue is paused nothing
/// starts; operations in progress run on. Whoever drives the queue starts each
/// operation it hands out and reports back when one is done.
pub struct Queue<J> {
    queue: VecDeque<J>,
    concurrency: u32,
    active: u32,
    paused: bool,
}

impl<J> Queue<J> {
    /// The operations that wait, oldest first.
    pub closed spec fn queued(&self) -> Seq<J> {
        self.queue@
    }

    /// How many operations may be in progress at once.
    pub closed spec fn concurrency(&self) -> nat {
        self.concurrency as nat
    }

    /// How many operations are in progress.
    pub closed spec fn active(&self) -> nat {
        self.active as nat
    }

    /// Whether the queue is paused.
    pub closed spec fn is_paused(&self) -> bool {
        self.paused
    }

    /// The queue's invariant: no more operations are in progress than the
    /// limit allows.
    pub open spec fn wf(&self) -> bool {
        self.active() <= self.concurrency()
    }

    /// No operation waits without a reason: the queue is paused, or the limit
    /// is reached. Submitting and finishing keep it so; a resume may leave more
    /// than one place free, and then `process` fills them one by one.
    pub open spec fn settled(&self) -> bool {
        self.queued().len() > 0 && !self.is_paused() ==> self.active() >= self.concurrency()
    }

    /// The next start from a queue with these waiting operations, this many
    /// in progress, this limit and this pause flag: whether there is one.
    pub open spec fn may_start(queued: Seq<J>, active: nat, concurrency: nat, paused: bool) -> bool {
        queued.len() > 0 && active < concurrency && !paused
    }

    /// The outcome of one attempt to start an operation, on a queue with the
    /// given waiting operations and number in progress: the oldest waiting
    /// operation is handed out if the queue may start one, and nothing changes
    /// otherwise.
    pub open spec fn attempt(
        queued: Seq<J>,
        active: nat,
        concurrency: nat,
        paused: bool,
        after: Self,
        operation: Option<J>,
    ) -> bool {
        &&& after.concurrency() == concurrency
        &&& after.is_paused() == paused
        &&& if Self::may_start(queued, active, concurrency, paused) {
            &&& operation == Some(queued[0])
            &&& after.queued() == queued.skip(1)
            &&& after.active() == active + 1
        } else {
            &&& operation is None
            &&& after.queued() == queued
            &&& after.active() == active
        }
    }

    /// Creates a queue that has at most `concurrency` operations in progress.
    pub fn new(concurrency: u32) -> (queue: Queue<J>)
        ensures
            queue.wf(),
            queue.settled(),
            queue.concurrency() == concurrency,
            queue.active() == 0,
            !queue.is_paused(),
            queue.queued() == Seq::<J>::empty(),
    {
        Queue { queue: VecDeque::new(), concurrency, active: 0, paused: false }
    }

    /// The number of operations that wait.
    pub fn pending(&self) -> (n: usize)
        ensures
            n == self.queued().len(),
    {
        self.queue.len()
    }

    /// The number of operations in progress.
    pub fn running(&self) -> (n: u32)
        ensures
            n == self.active(),
    {
        self.active
    }

    /// Whether the queue is paused.
    pub fn paused(&self) -> (paused: bool)
        ensures
            paused == self.is_paused(),
    {
        self.paused
    }

    /// Pauses the queue: until it is resumed no operation starts.
    pub fn pause(&mut self)
        ensures
            final(self).is_paused(),
            final(self).settled(),
            final(self).queued() == old(self).queued(),
            final(self).active() == old(self).active(),
            final(self).concurrency() == old(self).concurrency(),
    {
        self.paused = true;
    }

    /// Resumes the queue and tries to start the next operation. One attempt
    /// is made, so at most one operation is handed out.
    pub fn resume(&mut self) -> (operation: Option<J>)
        ensures
            Self::attempt(
                old(self).queued(),
                old(self).active(),
                old(self).concurrency(),
                false,
                *final(self),
                operation,
            ),
            old(self).wf() ==> final(self).wf(),
    {
        self.paused = false;
        self.process()
    }

    /// Submits an operation behind those that wait, and tries to start the
    /// oldest waiting operation. On a settled queue that is the submitted
    /// operation itself, if anything starts at all.
    pub fn run(&mut self, operation: J) -> (start: Option<J>)
        ensures
            Self::attempt(
                old(self).queued().push(operation),
                old(self).active(),
                old(self).concurrency(),
                old(self).is_paused(),
                *final(self),
                start,
            ),
            old(self).wf() ==> final(self).wf(),
            old(self).settled() ==> final(self).settled(),
            old(self).settled() && start is Some ==> start == Some(operation) && final(self).queued() == old(self).queued(),
    {
        self.queue.push_back(operation);
        let start = self.process();
        proof {
            if old(self).settled() && start is Some {
                assert(old(self).queued().len() == 0);
                assert(self.queued() =~= old(self).queued());
            }
        }
        start
    }

    fn increment(&mut self)
        requires
            old(self).active < u32::MAX,
        ensures
            final(self).active == old(self).active + 1,
            final(self).queue == old(self).queue,
            final(self).concurrency == old(self).concurrency,
            final(self).paused == old(self).paused,
    {
        self.active += 1;
    }

    fn decrement(&mut self)
        requires
            old(self).active > 0,
        ensures
            final(self).active == old(self).active - 1,
            final(self).queue == old(self).queue,
            final(self).concurrency == old(self).concurrency,
            final(self).paused == old(self).paused,
    {
        self.active -= 1;
    }

    /// Tries to start the next operation: hands out the oldest waiting one if
    /// the queue is not paused and the limit is not reached, and does nothing
    /// otherwise.
    pub fn process(&mut self) -> (operation: Option<J>)
        ensures
            Self::attempt(
                old(self).queued(),
                old(self).active(),
                old(self).concurrency(),
                old(self).is_paused(),
                *final(self),
                operation,
            ),
            old(self).wf() ==> final(self).wf(),
            old(self).settled() ==> final(self).settled(),
    {
        if self.queue.len() > 0 && self.active < self.concurrency && !self.paused {
            let operation = self.queue.pop_front();
            self.increment();
            operation
        } else {
            None
        }
    }

    /// Reports that an operation in progress is done, and tries to start the
    /// oldest waiting operation in its place.
    pub fn done(&mut self) -> (next: Option<J>)
        requires
            old(self).active() > 0,
        ensures
            Self::attempt(
                old(self).queued(),
                (old(self).active() - 1) as nat,
                old(self).concurrency(),
                old(self).is_paused(),
                *final(self),
                next,
            ),
            old(self).wf() ==> final(self).wf(),
            old(self).wf() && old(self).settled() ==> final(self).settled(),
    {
        self.decrement();
        self.process()
    }
}

} // verus!
