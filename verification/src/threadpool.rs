//! The bounded pool: which submitted job may start, and when.
use std::collections::VecDeque;
use vstd::prelude::*;

verus! {

/// A bounded-concurrency work queue. It decides which job may start: jobs run
/// in the order they were submitted, and never more of them at once than the
/// bound allows. Whoever drives the pool starts each job it hands out and
/// reports back when one has finished.
pub struct ThreadPool<J> {
    queue: VecDeque<J>,
    bound: usize,
    active: usize,
}

impl<J> ThreadPool<J> {
    /// The jobs waiting for a free place, oldest first.
    pub closed spec fn queued(&self) -> Seq<J> {
        self.queue@
    }

    /// How many jobs may run at once.
    pub closed spec fn bound(&self) -> nat {
        self.bound as nat
    }

    /// How many jobs are running.
    pub closed spec fn active(&self) -> nat {
        self.active as nat
    }

    /// The pool's invariant: no more jobs run than the bound allows, and a job
    /// waits only while every place is taken.
    pub open spec fn wf(&self) -> bool {
        &&& self.active() <= self.bound()
        &&& self.queued().len() > 0 ==> self.active() == self.bound()
    }

    /// The outcome of one attempt to start a job, on a pool with the given
    /// waiting jobs and number of running jobs: the oldest waiting job is
    /// handed out if a place is free, and nothing changes otherwise.
    pub open spec fn attempt(
        queued: Seq<J>,
        active: nat,
        bound: nat,
        after: Self,
        job: Option<J>,
    ) -> bool {
        &&& after.bound() == bound
        &&& if queued.len() > 0 && active < bound {
            &&& job == Some(queued[0])
            &&& after.queued() == queued.skip(1)
            &&& after.active() == active + 1
        } else {
            &&& job is None
            &&& after.queued() == queued
            &&& after.active() == active
        }
    }

    /// Creates a pool that runs at most `bound` jobs at once.
    pub fn new(bound: usize) -> (pool: ThreadPool<J>)
        ensures
            pool.wf(),
            pool.bound() == bound,
            pool.active() == 0,
            pool.queued() == Seq::<J>::empty(),
    {
        ThreadPool { queue: VecDeque::new(), bound, active: 0 }
    }

    /// The number of jobs that are running.
    pub fn running(&self) -> (n: usize)
        ensures
            n == self.active(),
    {
        self.active
    }

    /// The number of jobs that wait for a place.
    pub fn pending(&self) -> (n: usize)
        ensures
            n == self.queued().len(),
    {
        self.queue.len()
    }

    fn increment(&mut self)
        requires
            old(self).active < usize::MAX,
        ensures
            final(self).active == old(self).active + 1,
            final(self).queue == old(self).queue,
            final(self).bound == old(self).bound,
    {
        self.active += 1;
    }

    fn decrement(&mut self)
        requires
            old(self).active > 0,
        ensures
            final(self).active == old(self).active - 1,
            final(self).queue == old(self).queue,
            final(self).bound == old(self).bound,
    {
        self.active -= 1;
    }

    /// Tries to start the next job: hands out the oldest waiting job if a
    /// place is free, and does nothing otherwise. On a pool that keeps its
    /// invariant there is never anything to do.
    pub fn process(&mut self) -> (job: Option<J>)
        ensures
            Self::attempt(
                old(self).queued(),
                old(self).active(),
                old(self).bound(),
                *final(self),
                job,
            ),
            old(self).wf() ==> final(self).wf() && job is None,
    {
        if self.queue.len() > 0 && self.active < self.bound {
            let job = self.queue.pop_front();
            self.increment();
            job
        } else {
            None
        }
    }

    /// Submits a job behind those that wait, and tries to start the oldest
    /// waiting job. On a pool that keeps its invariant the job is handed
    /// straight back when a place is free, and waits its turn otherwise.
    pub fn spawn(&mut self, job: J) -> (start: Option<J>)
        ensures
            Self::attempt(
                old(self).queued().push(job),
                old(self).active(),
                old(self).bound(),
                *final(self),
                start,
            ),
            old(self).wf() ==> final(self).wf(),
            old(self).wf() ==> if old(self).active() < old(self).bound() {
                &&& start == Some(job)
                &&& final(self).queued() == old(self).queued()
                &&& final(self).active() == old(self).active() + 1
            } else {
                &&& start is None
                &&& final(self).queued() == old(self).queued().push(job)
                &&& final(self).active() == old(self).active()
            },
    {
        self.queue.push_back(job);
        let start = self.process();
        proof {
            if old(self).wf() && old(self).active() < old(self).bound() {
                assert(old(self).queued().len() == 0);
                assert(self.queued() =~= old(self).queued());
            }
        }
        start
    }

    /// Reports that a running job has finished. The place it leaves goes to
    /// the oldest waiting job, which is handed out to be started. Each report
    /// brings the pool one job closer to idle.
    pub fn complete(&mut self) -> (next: Option<J>)
        requires
            old(self).active() > 0,
        ensures
            Self::attempt(
                old(self).queued(),
                (old(self).active() - 1) as nat,
                old(self).bound(),
                *final(self),
                next,
            ),
            old(self).wf() ==> final(self).wf(),
            old(self).wf() ==> final(self).queued().len() + final(self).active() + 1 == old(self).queued().len() + old(self).active(),
            old(self).wf() ==> if old(self).queued().len() > 0 {
                &&& next == Some(old(self).queued()[0])
                &&& final(self).queued() == old(self).queued().skip(1)
                &&& final(self).active() == old(self).active()
            } else {
                &&& next is None
                &&& final(self).queued() == old(self).queued()
                &&& final(self).active() == old(self).active() - 1
            },
    {
        self.decrement();
        self.process()
    }
}

} // verus!
