//! Tasks: deferred computations that deliver exactly one value.
use crate::channel::{
    collected, delivery, handover, values_of, DeliveryError, ExecutionFailure, Receiver, Slot,
};
use crate::scheduling::{Scheduler, SyncScheduler, ThreadScheduler, WaitHandle};
use crate::threadpool::ThreadPool;
use std::collections::VecDeque;
use vstd::prelude::*;

verus! {

/// The sending half of a task's channel. Sending consumes it, so a task can
/// deliver at most once.
pub struct TaskSender<'a, T> {
    /// The slot that the receiving side reads once the task is done.
    pub slot: &'a mut Slot<T>,
}

impl<'a, T> TaskSender<'a, T> {
    /// The sender for a slot.
    pub fn new(slot: &'a mut Slot<T>) -> (sender: TaskSender<'a, T>)
        ensures
            *sender.slot == *old(slot),
            *final(sender.slot) == *final(slot),
    {
        TaskSender { slot }
    }

    /// Delivers the task's value. Fails, handing the value back, when the slot
    /// is not waiting for one.
    pub fn send(self, value: T) -> (r: Result<(), DeliveryError<T>>)
        ensures
            delivery(*old(self.slot), *final(self.slot), value, r),
    {
        let TaskSender { slot } = self;
        match slot {
            Slot::Empty => {
                *slot = Slot::Full(value);
                Ok(())
            },
            _ => Err(DeliveryError(value)),
        }
    }
}

/// A boxed single-call closure: what a task runs when it is driven.
pub trait TaskFunc<T>: Send {
    /// Whether the closure may be called with this sender.
    spec fn pre(&self, sender: TaskSender<T>) -> bool;

    /// Whether a call with this sender may end with `r`.
    spec fn post(&self, sender: TaskSender<T>, r: Result<(), DeliveryError<T>>) -> bool;

    /// Runs the closure.
    fn call<'a>(self: Box<Self>, sender: TaskSender<'a, T>) -> (r: Result<(), DeliveryError<T>>)
        requires
            self.pre(sender),
        ensures
            self.post(sender, r),
    ;
}

impl<T, F> TaskFunc<T> for F where
    F: for <'a>FnOnce(TaskSender<'a, T>) -> Result<(), DeliveryError<T>> + Send,
 {
    open spec fn pre(&self, sender: TaskSender<T>) -> bool {
        self.requires((sender,))
    }

    open spec fn post(&self, sender: TaskSender<T>, r: Result<(), DeliveryError<T>>) -> bool {
        self.ensures((sender,), r)
    }

    fn call<'a>(self: Box<Self>, sender: TaskSender<'a, T>) -> (r: Result<(), DeliveryError<T>>) {
        let func = *self;
        func(sender)
    }
}

/// A deferred computation that, when driven, delivers one value.
#[verifier::reject_recursive_types(T)]
pub struct Task<T> {
    /// The closure that resolves the task.
    pub func: Box<dyn TaskFunc<T>>,
}

impl<T: Send + 'static> Task<T> {
    /// Whether the closure may be called with this sender.
    pub open spec fn accepts(&self, sender: TaskSender<T>) -> bool {
        self.func.pre(sender)
    }

    /// Whether a run of the closure on this sender may end with `r`. The
    /// sender's slot holds the state the run started from and, as its final
    /// value, the state the run left behind.
    pub open spec fn yields(&self, sender: TaskSender<T>, r: Result<(), DeliveryError<T>>) -> bool {
        self.func.post(sender, r)
    }

    /// The task can be driven: its closure takes any sender whose slot is
    /// waiting for a value.
    pub open spec fn ready(&self) -> bool {
        forall|s: TaskSender<T>| *s.slot is Empty ==> #[trigger] self.accepts(s)
    }

    /// Creates a task from the closure that resolves it.
    pub fn new<F>(func: F) -> (task: Task<T>) where
        F: for <'a>FnOnce(TaskSender<'a, T>) -> Result<(), DeliveryError<T>> + Send + 'static,

        ensures
            forall|s: TaskSender<T>| #[trigger] task.accepts(s) == func.requires((s,)),
            forall|s: TaskSender<T>, r: Result<(), DeliveryError<T>>| #[trigger]
                task.yields(s, r) == func.ensures((s,), r),
    {
        Task { func: Box::new(func) }
    }

    /// Schedules the task on the given scheduler and hands back the handle to
    /// wait on.
    pub fn schedule<S: Scheduler>(self, scheduler: S) -> (handle: WaitHandle<T>)
        requires
            self.ready(),
        ensures
            scheduler.admits() ==> exists|s: TaskSender<T>, r: Result<(), DeliveryError<T>>|
                {
                    &&& *s.slot is Empty
                    &&& #[trigger] self.yields(s, r)
                    &&& handle@ == (*final(s.slot)).pending()
                },
            !scheduler.admits() ==> handle@ == Seq::<T>::empty(),
    {
        scheduler.run(self)
    }

    /// Drives the task on the calling thread and returns what it delivered,
    /// or the failure when it ended without delivering.
    pub fn wait(self) -> (result: Result<T, ExecutionFailure>)
        requires
            self.ready(),
        ensures
            exists|s: TaskSender<T>, r: Result<(), DeliveryError<T>>|
                {
                    &&& *s.slot is Empty
                    &&& #[trigger] self.yields(s, r)
                    &&& result == (*final(s.slot)).outcome()
                },
    {
        SyncScheduler.run(self).wait()
    }

    /// A task that drives this one and delivers what `func` makes of its
    /// result. `func` is handed the raw result, the failure included, and is
    /// called only once that result exists.
    pub fn map<U, F>(self, func: F) -> (task: Task<U>) where
        U: Send + 'static,
        F: FnOnce(Result<T, ExecutionFailure>) -> U + Send + 'static,

        requires
            self.ready(),
            forall|s: TaskSender<T>, r: Result<(), DeliveryError<T>>|
                *s.slot is Empty && #[trigger] self.yields(s, r) ==> func.requires(
                    ((*final(s.slot)).outcome(),),
                ),
        ensures
            forall|s: TaskSender<U>| #[trigger] task.accepts(s),
            forall|out: TaskSender<U>, done: Result<(), DeliveryError<U>>| #[trigger]
                task.yields(out, done) ==> exists|
                    s: TaskSender<T>,
                    r: Result<(), DeliveryError<T>>,
                    value: U,
                |
                    {
                        &&& *s.slot is Empty
                        &&& #[trigger] self.yields(s, r)
                        &&& #[trigger] func.ensures(((*final(s.slot)).outcome(),), value)
                        &&& delivery(*out.slot, *final(out.slot), value, done)
                    },
    {
        let closure = move |out: TaskSender<U>| -> (done: Result<(), DeliveryError<U>>)
            ensures
                exists|s: TaskSender<T>, r: Result<(), DeliveryError<T>>, value: U|
                    {
                        &&& *s.slot is Empty
                        &&& #[trigger] self.yields(s, r)
                        &&& #[trigger] func.ensures(((*final(s.slot)).outcome(),), value)
                        &&& delivery(*old(out.slot), *final(out.slot), value, done)
                    },
            {
                let result = ThreadScheduler.run(self).wait();
                let value = func(result);
                out.send(value)
            };
        Task::new(closure)
    }

    /// Sequential composition: a task that drives this one, hands its result
    /// to `func` to obtain the next task, drives that one, and passes on what it
    /// delivered. When the next task delivers nothing, neither does this one.
    pub fn then<U, F>(self, func: F) -> (task: Task<U>) where
        U: Send + 'static,
        F: FnOnce(Result<T, ExecutionFailure>) -> Task<U> + Send + 'static,

        requires
            self.ready(),
            forall|s: TaskSender<T>, r: Result<(), DeliveryError<T>>|
                *s.slot is Empty && #[trigger] self.yields(s, r) ==> func.requires(
                    ((*final(s.slot)).outcome(),),
                ),
            forall|s: TaskSender<T>, r: Result<(), DeliveryError<T>>, next: Task<U>|
                #![trigger self.yields(s, r), next.ready()]
                {
                    &&& *s.slot is Empty
                    &&& self.yields(s, r)
                    &&& func.ensures(((*final(s.slot)).outcome(),), next)
                } ==> next.ready(),
        ensures
            forall|s: TaskSender<U>| #[trigger] task.accepts(s),
            forall|out: TaskSender<U>, done: Result<(), DeliveryError<U>>| #[trigger]
                task.yields(out, done) ==> exists|
                    s: TaskSender<T>,
                    r: Result<(), DeliveryError<T>>,
                    next: Task<U>,
                    s2: TaskSender<U>,
                    r2: Result<(), DeliveryError<U>>,
                |
                    {
                        &&& *s.slot is Empty
                        &&& #[trigger] self.yields(s, r)
                        &&& func.ensures(((*final(s.slot)).outcome(),), next)
                        &&& *s2.slot is Empty
                        &&& #[trigger] next.yields(s2, r2)
                        &&& handover(
                            *out.slot,
                            *final(out.slot),
                            (*final(s2.slot)).outcome(),
                            done,
                        )
                    },
    {
        let closure = move |out: TaskSender<U>| -> (done: Result<(), DeliveryError<U>>)
            ensures
                exists|
                    s: TaskSender<T>,
                    r: Result<(), DeliveryError<T>>,
                    next: Task<U>,
                    s2: TaskSender<U>,
                    r2: Result<(), DeliveryError<U>>,
                |
                    {
                        &&& *s.slot is Empty
                        &&& #[trigger] self.yields(s, r)
                        &&& func.ensures(((*final(s.slot)).outcome(),), next)
                        &&& *s2.slot is Empty
                        &&& #[trigger] next.yields(s2, r2)
                        &&& handover(
                            *old(out.slot),
                            *final(out.slot),
                            (*final(s2.slot)).outcome(),
                            done,
                        )
                    },
            {
                let first = ThreadScheduler.run(self).wait();
                let next = func(first);
                let second = ThreadScheduler.run(next).wait();
                match second {
                    Ok(value) => out.send(value),
                    Err(_) => Ok(()),
                }
            };
        Task::new(closure)
    }

    /// Runs the task to its end, applies `func` to its result, and hands back
    /// the handle on which the result of `func` is awaited.
    pub fn async_<U, F>(self, func: F) -> (handle: WaitHandle<U>) where
        U: Send + 'static,
        F: FnOnce(Result<T, ExecutionFailure>) -> U + Send + 'static,

        requires
            self.ready(),
            forall|s: TaskSender<T>, r: Result<(), DeliveryError<T>>|
                *s.slot is Empty && #[trigger] self.yields(s, r) ==> func.requires(
                    ((*final(s.slot)).outcome(),),
                ),
        ensures
            exists|s: TaskSender<T>, r: Result<(), DeliveryError<T>>, value: U|
                {
                    &&& *s.slot is Empty
                    &&& #[trigger] self.yields(s, r)
                    &&& #[trigger] func.ensures(((*final(s.slot)).outcome(),), value)
                    &&& handle@ == seq![value]
                },
    {
        ThreadScheduler.run(self.map(func))
    }

    /// Fan-out and fan-in: a task that runs all of `tasks` on a pool with
    /// `threads` places and delivers their values in the order of `tasks`.
    /// Every task is run; if one of them delivers nothing, neither does this
    /// one. A pool without a place runs none of them.
    pub fn all(threads: usize, tasks: Vec<Task<T>>) -> (task: Task<Vec<T>>)
        requires
            forall|i: int| 0 <= i < tasks.len() ==> (#[trigger] tasks[i]).ready(),
        ensures
            forall|s: TaskSender<Vec<T>>| #[trigger] task.accepts(s),
            forall|out: TaskSender<Vec<T>>, done: Result<(), DeliveryError<Vec<T>>>| #[trigger]
                task.yields(out, done) ==> exists|
                    runs: Seq<TaskSender<T>>,
                    ends: Seq<Result<(), DeliveryError<T>>>,
                    outcomes: Seq<Result<T, ExecutionFailure>>,
                    result: Result<Vec<T>, ExecutionFailure>,
                |
                    #![trigger collected(outcomes, result), runs.len(), ends.len()]
                    {
                        &&& runs.len() == tasks.len()
                        &&& ends.len() == tasks.len()
                        &&& outcomes.len() == tasks.len()
                        &&& forall|i: int|
                            #![trigger runs[i]]
                            0 <= i < tasks.len() ==> if threads > 0 {
                                &&& *runs[i].slot is Empty
                                &&& tasks[i].yields(runs[i], ends[i])
                                &&& outcomes[i] == (*final(runs[i].slot)).outcome()
                            } else {
                                outcomes[i] is Err
                            }
                        &&& collected(outcomes, result)
                        &&& handover(*out.slot, *final(out.slot), result, done)
                    },
    {
        let closure = move |out: TaskSender<Vec<T>>| -> (done: Result<
            (),
            DeliveryError<Vec<T>>,
        >)
            ensures
                exists|
                    runs: Seq<TaskSender<T>>,
                    ends: Seq<Result<(), DeliveryError<T>>>,
                    outcomes: Seq<Result<T, ExecutionFailure>>,
                    result: Result<Vec<T>, ExecutionFailure>,
                |
                    #![trigger collected(outcomes, result), runs.len(), ends.len()]
                    {
                        &&& runs.len() == tasks.len()
                        &&& ends.len() == tasks.len()
                        &&& outcomes.len() == tasks.len()
                        &&& forall|i: int|
                            #![trigger runs[i]]
                            0 <= i < tasks.len() ==> if threads > 0 {
                                &&& *runs[i].slot is Empty
                                &&& tasks[i].yields(runs[i], ends[i])
                                &&& outcomes[i] == (*final(runs[i].slot)).outcome()
                            } else {
                                outcomes[i] is Err
                            }
                        &&& collected(outcomes, result)
                        &&& handover(*old(out.slot), *final(out.slot), result, done)
                    },
            {
                match gather(threads, tasks) {
                    Ok(values) => out.send(values),
                    Err(_) => Ok(()),
                }
            };
        Task::new(closure)
    }
}

/// Fan-in is aligned with its input: where a pool with at least one place
/// ran `tasks` as `runs`, and every run of task `i` delivers `expected[i]`,
/// the collected result is `expected`, index for index, whatever the order in
/// which the tasks came to an end.
pub proof fn lemma_all_is_index_aligned<T: Send + 'static>(
    tasks: Seq<Task<T>>,
    runs: Seq<TaskSender<T>>,
    ends: Seq<Result<(), DeliveryError<T>>>,
    outcomes: Seq<Result<T, ExecutionFailure>>,
    result: Result<Vec<T>, ExecutionFailure>,
    expected: Seq<T>,
)
    requires
        runs.len() == tasks.len(),
        ends.len() == tasks.len(),
        outcomes.len() == tasks.len(),
        expected.len() == tasks.len(),
        forall|i: int|
            #![trigger runs[i]]
            0 <= i < tasks.len() ==> {
                &&& *runs[i].slot is Empty
                &&& tasks[i].yields(runs[i], ends[i])
                &&& outcomes[i] == (*final(runs[i].slot)).outcome()
            },
        collected(outcomes, result),
        forall|i: int, s: TaskSender<T>, r: Result<(), DeliveryError<T>>|
            #![trigger tasks[i].yields(s, r)]
            0 <= i < tasks.len() && *s.slot is Empty && tasks[i].yields(s, r) ==> *final(s.slot)
                == Slot::Full(expected[i]),
    ensures
        result is Ok,
        result->Ok_0@ == expected,
{
    assert forall|i: int| 0 <= i < outcomes.len() implies (#[trigger] outcomes[i]).is_ok()
        && outcomes[i]->Ok_0 == expected[i] by {
        assert(*runs[i].slot is Empty);
    }
    assert(values_of(outcomes) =~= expected);
}

/// Fan-in fails fast: where one of the collected outcomes is a failure, the
/// result is the failure, whatever the other tasks delivered.
pub proof fn lemma_all_fails_fast<T>(
    outcomes: Seq<Result<T, ExecutionFailure>>,
    result: Result<Vec<T>, ExecutionFailure>,
    i: int,
)
    requires
        collected(outcomes, result),
        0 <= i < outcomes.len(),
        outcomes[i] is Err,
    ensures
        result is Err,
{
}

/// Collects results fail-fast: the values of `outcomes`, index for index,
/// when every one of them is a value, and the failure when one is not.
pub fn collect_results<T>(outcomes: Vec<Result<T, ExecutionFailure>>) -> (result: Result<
    Vec<T>,
    ExecutionFailure,
>)
    ensures
        collected(outcomes@, result),
{
    let mut pending = Receiver::from_vec(outcomes);
    let mut values: Vec<T> = Vec::new();
    let ghost mut seen: Seq<Result<T, ExecutionFailure>> = Seq::empty();
    loop
        invariant
            seen + pending@ == outcomes@,
            values@ == values_of(seen),
            forall|i: int| 0 <= i < seen.len() ==> (#[trigger] seen[i]) is Ok,
        ensures
            pending@.len() == 0,
            seen == outcomes@,
            values@ == values_of(seen),
            forall|i: int| 0 <= i < seen.len() ==> (#[trigger] seen[i]) is Ok,
        decreases pending@.len(),
    {
        let ghost before = seen;
        let ghost rest = pending@;
        match pending.recv() {
            Err(_) => {
                assert(seen =~= outcomes@);
                break ;
            },
            Ok(outcome) => {
                assert(outcome == outcomes@[before.len() as int]) by {
                    assert((before + rest)[before.len() as int] == rest[0]);
                }
                match outcome {
                    Ok(value) => {
                        values.push(value);
                        proof {
                            seen = before.push(outcome);
                            assert(seen + pending@ =~= before + rest);
                            assert(values@ =~= values_of(seen));
                        }
                    },
                    Err(_) => {
                        assert(outcomes@[before.len() as int] is Err);
                        return Err(ExecutionFailure);
                    },
                }
            },
        }
    }
    Ok(values)
}

/// Marks an index in a quantified fact.
spec fn nth(i: int) -> bool {
    true
}

/// Runs `tasks` on a pool with `threads` places, oldest first, and collects
/// what they delivered in the order of `tasks`.
fn gather<T: Send + 'static>(threads: usize, tasks: Vec<Task<T>>) -> (result: Result<
    Vec<T>,
    ExecutionFailure,
>)
    requires
        forall|i: int| 0 <= i < tasks.len() ==> (#[trigger] tasks[i]).ready(),
    ensures
        exists|
            runs: Seq<TaskSender<T>>,
            ends: Seq<Result<(), DeliveryError<T>>>,
            outcomes: Seq<Result<T, ExecutionFailure>>,
        |
            #![trigger collected(outcomes, result), runs.len(), ends.len()]
            {
                &&& runs.len() == tasks.len()
                &&& ends.len() == tasks.len()
                &&& outcomes.len() == tasks.len()
                &&& forall|i: int|
                    #![trigger runs[i]]
                    0 <= i < tasks.len() ==> if threads > 0 {
                        &&& *runs[i].slot is Empty
                        &&& tasks[i].yields(runs[i], ends[i])
                        &&& outcomes[i] == (*final(runs[i].slot)).outcome()
                    } else {
                        outcomes[i] is Err
                    }
                &&& collected(outcomes, result)
            },
{
    let ghost all = tasks@;
    let count = tasks.len();
    let mut pool: ThreadPool<Task<T>> = ThreadPool::new(threads);
    let mut running: VecDeque<Task<T>> = VecDeque::new();
    for task in it: tasks
        invariant
            it.seq() == all,
            pool.wf(),
            pool.bound() == threads,
            running@.len() == pool.active(),
            running@ + pool.queued() == all.take(it.index() as int),
    {
        let ghost before = running@ + pool.queued();
        assert(task == all[it.index() as int]);
        match pool.spawn(task) {
            Some(job) => {
                running.push_back(job);
            },
            None => {},
        }
        assert(running@ + pool.queued() =~= before.push(task));
        assert(all.take(it.index() + 1) =~= all.take(it.index() as int).push(task));
    }
    assert(all.take(all.len() as int) =~= all);
    let mut results: Vec<Result<T, ExecutionFailure>> = Vec::new();
    loop
        invariant
            all == tasks@,
            count == all.len(),
            forall|i: int| 0 <= i < all.len() ==> (#[trigger] all[i]).ready(),
            pool.wf(),
            pool.bound() == threads,
            running@.len() == pool.active(),
            results@.len() <= all.len(),
            results@.len() > 0 ==> threads > 0,
            running@ + pool.queued() == all.skip(results@.len() as int),
            forall|i: int|
                #![trigger nth(i)]
                nth(i) && 0 <= i < results@.len() ==> exists|
                    s: TaskSender<T>,
                    r: Result<(), DeliveryError<T>>,
                |
                    {
                        &&& *s.slot is Empty
                        &&& #[trigger] all[i].yields(s, r)
                        &&& results@[i] == (*final(s.slot)).outcome()
                    },
        ensures
            running@.len() == 0,
        decreases pool.queued().len() + pool.active(),
    {
        let ghost waiting = running@ + pool.queued();
        let ghost reached = results@;
        let ghost done = results@.len() as int;
        match running.pop_front() {
            None => {
                break ;
            },
            Some(job) => {
                assert(done < all.len() && job == all[done]) by {
                    assert(waiting.len() == all.len() - done);
                    assert(waiting[0] == job);
                    assert(all.skip(done)[0] == all[done]);
                }
                let result = job.wait();
                let next = pool.complete();
                match next {
                    Some(job) => {
                        running.push_back(job);
                    },
                    None => {},
                }
                assert(running@ + pool.queued() =~= all.skip(done + 1)) by {
                    assert(waiting.skip(1) =~= all.skip(done + 1));
                    assert(running@ + pool.queued() =~= waiting.skip(1));
                }
                results.push(result);
                proof {
                    assert forall|i: int| #![trigger nth(i)] nth(i) && 0 <= i < done + 1 implies exists|
                        s: TaskSender<T>,
                        r: Result<(), DeliveryError<T>>,
                    |
                        {
                            &&& *s.slot is Empty
                            &&& #[trigger] all[i].yields(s, r)
                            &&& results@[i] == (*final(s.slot)).outcome()
                        } by {
                        if i < done {
                            assert(results@[i] == reached[i]);
                        }
                    }
                }
            },
        }
    }
    proof {
        if threads > 0 {
            assert(results@.len() == all.len()) by {
                if pool.queued().len() > 0 {
                    assert(pool.active() == pool.bound());
                }
                assert(all.skip(results@.len() as int).len() == 0);
            }
        } else {
            assert(results@.len() == 0);
        }
    }
    let ghost outcomes = results@;
    let ghost done = results@.len();
    while results.len() < count
        invariant
            count == all.len(),
            done <= results@.len() <= count,
            results@.take(done as int) == outcomes,
            forall|i: int| done <= i < results@.len() ==> (#[trigger] results@[i]) is Err,
        decreases count - results@.len(),
    {
        let ghost before = results@;
        results.push(Err(ExecutionFailure));
        assert(results@.take(done as int) =~= before.take(done as int));
    }
    let ghost total = results@;
    let result = collect_results(results);
    proof {
        assert(total.take(done as int) =~= outcomes);
        let pairs = Seq::new(
            all.len(),
            |i: int|
                choose|s: TaskSender<T>, r: Result<(), DeliveryError<T>>|
                    {
                        &&& *s.slot is Empty
                        &&& #[trigger] all[i].yields(s, r)
                        &&& outcomes[i] == (*final(s.slot)).outcome()
                    },
        );
        let runs = Seq::new(all.len(), |i: int| pairs[i].0);
        let ends = Seq::new(all.len(), |i: int| pairs[i].1);
        assert forall|i: int| #![trigger runs[i]] 0 <= i < tasks.len() implies if threads > 0 {
            &&& *runs[i].slot is Empty
            &&& tasks[i].yields(runs[i], ends[i])
            &&& total[i] == (*final(runs[i].slot)).outcome()
        } else {
            total[i] is Err
        } by {
            if threads > 0 {
                assert(nth(i));
                assert(total[i] == total.take(done as int)[i]);
            }
        }
        assert(runs.len() == tasks.len() && ends.len() == tasks.len() && total.len()
            == tasks.len());
    }
    result
}

} // verus!
