//! Streams: deferred computations that deliver zero or more values.
use crate::channel::{
    delivery, foldable, folds, range_items, relay, selects, transforms, DeliveryError, Receiver,
    StreamSender,
};
use crate::task::{Task, TaskSender};
use std::ops::Range;
use vstd::multiset::Multiset;
use vstd::prelude::*;
use vstd::seq_lib::lemma_multiset_commutative;

verus! {

/// A boxed single-call producer: what a stream runs when it is driven.
pub trait StreamFunc<T>: Send {
    /// Whether the producer may be called with this sender.
    spec fn pre(&self, sender: &mut StreamSender<T>) -> bool;

    /// Whether a call with this sender may end with `r`.
    spec fn post(&self, sender: &mut StreamSender<T>, r: Result<(), DeliveryError<T>>) -> bool;

    /// Runs the producer. The contract speaks of every reference that holds
    /// the sender's value, since a reference is reborrowed on its way in.
    fn call(self: Box<Self>, sender: &mut StreamSender<T>) -> (r: Result<(), DeliveryError<T>>)
        requires
            forall|s: &mut StreamSender<T>| *s == *sender ==> #[trigger] self.pre(s),
        ensures
            exists|s: &mut StreamSender<T>|
                *s == *old(sender) && *final(s) == *final(sender) && #[trigger] self.post(s, r),
    ;
}

impl<T, F> StreamFunc<T> for F where
    F: for <'a>FnOnce(&'a mut StreamSender<T>) -> Result<(), DeliveryError<T>> + Send,
 {
    open spec fn pre(&self, sender: &mut StreamSender<T>) -> bool {
        self.requires((sender,))
    }

    open spec fn post(&self, sender: &mut StreamSender<T>, r: Result<(), DeliveryError<T>>) -> bool {
        self.ensures((sender,), r)
    }

    fn call(self: Box<Self>, sender: &mut StreamSender<T>) -> (r: Result<(), DeliveryError<T>>) {
        let func = *self;
        let ghost spec_func = func;
        assert forall|s: &mut StreamSender<T>| *s == *sender implies func.requires((s,)) by {
            assert(func.pre(s));
        }
        let r = func(sender);
        assert(forall|s: &mut StreamSender<T>|
            #![trigger spec_func.ensures((s,), r)]
            spec_func.ensures((s,), r) ==> spec_func.post(s, r));
        r
    }
}

/// A deferred computation that, when driven, delivers zero or more values.
#[verifier::reject_recursive_types(T)]
pub struct Stream<T> {
    /// The producer that emits this stream's values.
    pub func: Box<dyn StreamFunc<T>>,
}

impl<T: Send + 'static> Stream<T> {
    /// Whether the producer may be called with this sender.
    pub open spec fn accepts(&self, sender: &mut StreamSender<T>) -> bool {
        self.func.pre(sender)
    }

    /// Whether a run of the producer on this sender may end with `r`. The
    /// sender holds the state it started from and, as its final value, the
    /// state it was left in.
    pub open spec fn yields(
        &self,
        sender: &mut StreamSender<T>,
        r: Result<(), DeliveryError<T>>,
    ) -> bool {
        self.func.post(sender, r)
    }

    /// The stream can be driven: its producer takes any fresh sender.
    pub open spec fn ready(&self) -> bool {
        forall|s: &mut StreamSender<T>| s.is_fresh() ==> #[trigger] self.accepts(s)
    }

    /// Creates a stream from the producer that emits its values.
    pub fn output<F>(func: F) -> (stream: Stream<T>) where
        F: for <'a>FnOnce(&'a mut StreamSender<T>) -> Result<(), DeliveryError<T>> + Send + 'static,

        ensures
            forall|s: &mut StreamSender<T>| #[trigger] stream.accepts(s) == func.requires((s,)),
            forall|s: &mut StreamSender<T>, r: Result<(), DeliveryError<T>>| #[trigger]
                stream.yields(s, r) == func.ensures((s,), r),
    {
        Stream { func: Box::new(func) }
    }

    /// Creates a stream from the producer that emits its values.
    pub fn new<F>(func: F) -> (stream: Stream<T>) where
        F: for <'a>FnOnce(&'a mut StreamSender<T>) -> Result<(), DeliveryError<T>> + Send + 'static,

        ensures
            forall|s: &mut StreamSender<T>| #[trigger] stream.accepts(s) == func.requires((s,)),
            forall|s: &mut StreamSender<T>, r: Result<(), DeliveryError<T>>| #[trigger]
                stream.yields(s, r) == func.ensures((s,), r),
    {
        Stream::output(func)
    }

    /// Drives the stream as `read` does, with room for `bound` values between
    /// producer and consumer. The bound changes when the producer may run
    /// ahead, never what is delivered or in which order.
    pub fn read_bounded(self, bound: usize) -> (receiver: Receiver<T>)
        requires
            self.ready(),
        ensures
            exists|s: &mut StreamSender<T>, r: Result<(), DeliveryError<T>>|
                {
                    &&& s.is_fresh()
                    &&& #[trigger] self.yields(s, r)
                    &&& receiver@ == final(s).sent()
                },
    {
        self.read()
    }

    /// Drives the stream to its end and hands over what it delivered, in the
    /// order it was sent.
    pub fn read(self) -> (receiver: Receiver<T>)
        requires
            self.ready(),
        ensures
            exists|s: &mut StreamSender<T>, r: Result<(), DeliveryError<T>>|
                {
                    &&& s.is_fresh()
                    &&& #[trigger] self.yields(s, r)
                    &&& receiver@ == final(s).sent()
                },
    {
        let mut sender = StreamSender::new();
        assert forall|s: &mut StreamSender<T>| *s == sender implies #[trigger] self.func.pre(s) by {
            assert(self.accepts(s));
        }
        let r = self.func.call(&mut sender);
        proof {
            let s = choose|s: &mut StreamSender<T>|
                s.is_fresh() && *final(s) == sender && #[trigger] self.func.post(s, r);
            assert(self.yields(s, r));
        }
        sender.into_receiver()
    }

    /// A stream of those values of this one for which `func` answers yes.
    pub fn filter<F>(self, func: F) -> (stream: Stream<T>) where
        F: Fn(&T) -> bool + Send + 'static,

        requires
            self.ready(),
            forall|s: &mut StreamSender<T>, r: Result<(), DeliveryError<T>>, i: int|
                #![trigger self.yields(s, r), final(s).sent()[i]]
                s.is_fresh() && self.yields(s, r) && 0 <= i < final(s).sent().len()
                    ==> func.requires((&final(s).sent()[i],)),
        ensures
            forall|s: &mut StreamSender<T>| #[trigger] stream.accepts(s),
            forall|out: &mut StreamSender<T>, done: Result<(), DeliveryError<T>>| #[trigger]
                stream.yields(out, done) ==> exists|
                    s: &mut StreamSender<T>,
                    r: Result<(), DeliveryError<T>>,
                    kept: Seq<T>,
                |
                    {
                        &&& s.is_fresh()
                        &&& #[trigger] self.yields(s, r)
                        &&& #[trigger] selects(func, final(s).sent(), kept)
                        &&& final(out).is_open() == out.is_open()
                        &&& relay(out.sent(), out.is_open(), final(out).sent(), kept, done)
                    },
    {
        let producer =
            move |out: &mut StreamSender<T>| -> (done: Result<(), DeliveryError<T>>)
                ensures
                    exists|s: &mut StreamSender<T>, r: Result<(), DeliveryError<T>>, kept: Seq<T>|
                        {
                            &&& s.is_fresh()
                            &&& #[trigger] self.yields(s, r)
                            &&& #[trigger] selects(func, final(s).sent(), kept)
                            &&& final(out).is_open() == old(out).is_open()
                            &&& relay(
                                old(out).sent(),
                                old(out).is_open(),
                                final(out).sent(),
                                kept,
                                done,
                            )
                        },
                {
                    let items = self.read();
                    let kept = items.filter(&func);
                    kept.forward(out)
                };
        Stream::output(producer)
    }

    /// A stream of the images under `func` of the values of this one.
    pub fn map<F, U>(self, func: F) -> (stream: Stream<U>) where
        U: Send + 'static,
        F: Fn(T) -> U + Send + 'static,

        requires
            self.ready(),
            forall|s: &mut StreamSender<T>, r: Result<(), DeliveryError<T>>, i: int|
                #![trigger self.yields(s, r), final(s).sent()[i]]
                s.is_fresh() && self.yields(s, r) && 0 <= i < final(s).sent().len()
                    ==> func.requires((final(s).sent()[i],)),
        ensures
            forall|s: &mut StreamSender<U>| #[trigger] stream.accepts(s),
            forall|out: &mut StreamSender<U>, done: Result<(), DeliveryError<U>>| #[trigger]
                stream.yields(out, done) ==> exists|
                    s: &mut StreamSender<T>,
                    r: Result<(), DeliveryError<T>>,
                    images: Seq<U>,
                |
                    {
                        &&& s.is_fresh()
                        &&& #[trigger] self.yields(s, r)
                        &&& #[trigger] transforms(func, final(s).sent(), images)
                        &&& final(out).is_open() == out.is_open()
                        &&& relay(out.sent(), out.is_open(), final(out).sent(), images, done)
                    },
    {
        let producer = move |out: &mut StreamSender<U>| -> (done: Result<(), DeliveryError<U>>)
            ensures
                exists|s: &mut StreamSender<T>, r: Result<(), DeliveryError<T>>, images: Seq<U>|
                    {
                        &&& s.is_fresh()
                        &&& #[trigger] self.yields(s, r)
                        &&& #[trigger] transforms(func, final(s).sent(), images)
                        &&& final(out).is_open() == old(out).is_open()
                        &&& relay(
                            old(out).sent(),
                            old(out).is_open(),
                            final(out).sent(),
                            images,
                            done,
                        )
                    },
            {
                let items = self.read();
                let images = items.map(&func);
                images.forward(out)
            };
        Stream::output(producer)
    }

    /// Reduces the stream to one value: a task that drives the stream to its
    /// end, folds what it delivered from the left, in the order of arrival and
    /// starting from `init`, and delivers the result.
    pub fn fold<F>(self, init: T, func: F) -> (task: Task<T>) where
        F: Fn(T, T) -> T + Send + 'static,

        requires
            self.ready(),
            forall|s: &mut StreamSender<T>, r: Result<(), DeliveryError<T>>|
                s.is_fresh() && #[trigger] self.yields(s, r) ==> foldable(func, init, final(s).sent()),
        ensures
            forall|s: TaskSender<T>| #[trigger] task.accepts(s),
            forall|out: TaskSender<T>, done: Result<(), DeliveryError<T>>| #[trigger]
                task.yields(out, done) ==> exists|
                    s: &mut StreamSender<T>,
                    r: Result<(), DeliveryError<T>>,
                    acc: T,
                |
                    {
                        &&& s.is_fresh()
                        &&& #[trigger] self.yields(s, r)
                        &&& #[trigger] folds(func, init, final(s).sent(), acc)
                        &&& delivery(*out.slot, *final(out.slot), acc, done)
                    },
    {
        let closure = move |out: TaskSender<T>| -> (done: Result<(), DeliveryError<T>>)
            ensures
                exists|s: &mut StreamSender<T>, r: Result<(), DeliveryError<T>>, acc: T|
                    {
                        &&& s.is_fresh()
                        &&& #[trigger] self.yields(s, r)
                        &&& #[trigger] folds(func, init, final(s).sent(), acc)
                        &&& delivery(*old(out.slot), *final(out.slot), acc, done)
                    },
            {
                let items = self.read();
                let acc = items.fold(init, &func);
                out.send(acc)
            };
        Task::new(closure)
    }

    /// Fan-in: a stream that drives every one of `streams` and delivers all
    /// their values. Each source keeps its own order; here the sources come one
    /// after the other, in the order of `streams`.
    pub fn merge(streams: Vec<Stream<T>>) -> (stream: Stream<T>)
        requires
            forall|i: int| 0 <= i < streams.len() ==> (#[trigger] streams[i]).ready(),
        ensures
            forall|s: &mut StreamSender<T>| #[trigger] stream.accepts(s),
            forall|out: &mut StreamSender<T>, done: Result<(), DeliveryError<T>>| #[trigger]
                stream.yields(out, done) ==> exists|
                    runs: Seq<&mut StreamSender<T>>,
                    ends: Seq<Result<(), DeliveryError<T>>>,
                    parts: Seq<Seq<T>>,
                |
                    #![trigger parts.flatten(), runs.len(), ends.len()]
                    {
                        &&& runs.len() == streams.len()
                        &&& ends.len() == streams.len()
                        &&& parts.len() == streams.len()
                        &&& forall|i: int|
                            #![trigger runs[i]]
                            0 <= i < streams.len() ==> {
                                &&& runs[i].is_fresh()
                                &&& streams[i].yields(runs[i], ends[i])
                                &&& parts[i] == final(runs[i]).sent()
                            }
                        &&& final(out).is_open() == out.is_open()
                        &&& relay(
                            out.sent(),
                            out.is_open(),
                            final(out).sent(),
                            parts.flatten(),
                            done,
                        )
                    },
    {
        let producer = move |out: &mut StreamSender<T>| -> (done: Result<(), DeliveryError<T>>)
            ensures
                exists|
                    runs: Seq<&mut StreamSender<T>>,
                    ends: Seq<Result<(), DeliveryError<T>>>,
                    parts: Seq<Seq<T>>,
                |
                    #![trigger parts.flatten(), runs.len(), ends.len()]
                    {
                        &&& runs.len() == streams.len()
                        &&& ends.len() == streams.len()
                        &&& parts.len() == streams.len()
                        &&& forall|i: int|
                            #![trigger runs[i]]
                            0 <= i < streams.len() ==> {
                                &&& runs[i].is_fresh()
                                &&& streams[i].yields(runs[i], ends[i])
                                &&& parts[i] == final(runs[i]).sent()
                            }
                        &&& final(out).is_open() == old(out).is_open()
                        &&& relay(
                            old(out).sent(),
                            old(out).is_open(),
                            final(out).sent(),
                            parts.flatten(),
                            done,
                        )
                    },
            {
                let items = drain(streams);
                items.forward(out)
            };
        Stream::output(producer)
    }
}

impl Stream<i32> {
    /// A stream of the integers from `start` up to, not including, `end`.
    pub fn range(start: i32, end: i32) -> (stream: Stream<i32>)
        ensures
            forall|s: &mut StreamSender<i32>| #[trigger] stream.accepts(s),
            forall|out: &mut StreamSender<i32>, done: Result<(), DeliveryError<i32>>| #[trigger]
                stream.yields(out, done) ==> {
                    &&& final(out).is_open() == out.is_open()
                    &&& relay(
                        out.sent(),
                        out.is_open(),
                        final(out).sent(),
                        range_items(start, end),
                        done,
                    )
                },
    {
        let producer = move |out: &mut StreamSender<i32>| -> (done: Result<(), DeliveryError<i32>>)
            ensures
                final(out).is_open() == old(out).is_open(),
                relay(
                    old(out).sent(),
                    old(out).is_open(),
                    final(out).sent(),
                    range_items(start, end),
                    done,
                ),
            {
                Receiver::from_range(start, end).forward(out)
            };
        Stream::output(producer)
    }
}

/// What can be turned into a stream of its items.
pub trait ToStream<T: Send + 'static>: Sized {
    /// The items, in the order in which the stream delivers them.
    spec fn items(&self) -> Seq<T>;

    /// Converts `self` into the stream of its items.
    fn to_stream(self) -> (stream: Stream<T>)
        ensures
            forall|s: &mut StreamSender<T>| #[trigger] stream.accepts(s),
            forall|out: &mut StreamSender<T>, done: Result<(), DeliveryError<T>>| #[trigger]
                stream.yields(out, done) ==> {
                    &&& final(out).is_open() == out.is_open()
                    &&& relay(out.sent(), out.is_open(), final(out).sent(), self.items(), done)
                },
    ;
}

impl<T: Send + 'static> ToStream<T> for Vec<T> {
    open spec fn items(&self) -> Seq<T> {
        self@
    }

    fn to_stream(self) -> (stream: Stream<T>) {
        let producer = move |out: &mut StreamSender<T>| -> (done: Result<(), DeliveryError<T>>)
            ensures
                final(out).is_open() == old(out).is_open(),
                relay(old(out).sent(), old(out).is_open(), final(out).sent(), self@, done),
            {
                Receiver::from_vec(self).forward(out)
            };
        Stream::output(producer)
    }
}

impl ToStream<i32> for Range<i32> {
    open spec fn items(&self) -> Seq<i32> {
        range_items(self.start, self.end)
    }

    fn to_stream(self) -> (stream: Stream<i32>) {
        Stream::range(self.start, self.end)
    }
}

/// The values of all of `parts` as a multiset.
pub open spec fn union_of<T>(parts: Seq<Seq<T>>) -> Multiset<T>
    decreases parts.len(),
{
    if parts.len() == 0 {
        Multiset::empty()
    } else {
        union_of(parts.drop_last()).add(parts.last().to_multiset())
    }
}

/// Where the values of source `i` begin in what a merge of `parts` delivers.
pub open spec fn offset_of<T>(parts: Seq<Seq<T>>, i: int) -> int {
    parts.take(i).flatten().len() as int
}

/// A merge neither drops nor duplicates. Read through a fresh sender, a
/// merge of sources that delivered `parts` delivers, as a multiset, exactly
/// the values of its sources.
pub proof fn lemma_merge_is_union<T>(
    parts: Seq<Seq<T>>,
    delivered: Seq<T>,
    done: Result<(), DeliveryError<T>>,
)
    requires
        relay(Seq::<T>::empty(), true, delivered, parts.flatten(), done),
    ensures
        done is Ok,
        delivered.to_multiset() =~= union_of(parts),
{
    assert(delivered =~= parts.flatten());
    lemma_flatten_is_union(parts);
}

/// The values of `parts` laid end to end are, as a multiset, the values of
/// all the parts.
pub proof fn lemma_flatten_is_union<T>(parts: Seq<Seq<T>>)
    ensures
        parts.flatten().to_multiset() =~= union_of(parts),
    decreases parts.len(),
{
    if parts.len() == 0 {
        assert(parts.flatten() =~= Seq::<T>::empty());
        Seq::<T>::empty().to_multiset_ensures();
        assert(Seq::<T>::empty().to_multiset().len() == 0);
        assert(parts.flatten().to_multiset() =~= Multiset::<T>::empty());
    } else {
        let front = parts.drop_last();
        lemma_flatten_is_union(front);
        front.lemma_flatten_push(parts.last());
        assert(front.push(parts.last()) =~= parts);
        lemma_multiset_commutative(front.flatten(), parts.last());
    }
}

/// The merge of two sources `a` and `b` delivers, as a multiset, the values
/// of `a` together with those of `b`.
pub proof fn lemma_merge_of_two<T>(a: Seq<T>, b: Seq<T>)
    ensures
        seq![a, b].flatten() =~= a + b,
        seq![a, b].flatten().to_multiset() =~= a.to_multiset().add(b.to_multiset()),
{
    let parts = seq![a, b];
    assert(parts.drop_last() =~= seq![a]);
    seq![a].lemma_flatten_one_element();
    seq![a].lemma_flatten_push(b);
    assert(seq![a].push(b) =~= parts);
    lemma_multiset_commutative(a, b);
}

/// A merge keeps each source's own order: the values of source `i` stand in
/// what is delivered as one block, in the order in which the source sent them.
pub proof fn lemma_merge_keeps_order<T>(parts: Seq<Seq<T>>, i: int)
    requires
        0 <= i < parts.len(),
    ensures
        0 <= offset_of(parts, i),
        offset_of(parts, i) + parts[i].len() <= parts.flatten().len(),
        parts.flatten().subrange(offset_of(parts, i), offset_of(parts, i) + parts[i].len())
            =~= parts[i],
    decreases parts.len(),
{
    let front = parts.drop_last();
    front.lemma_flatten_push(parts.last());
    assert(front.push(parts.last()) =~= parts);
    if i == parts.len() - 1 {
        assert(parts.take(i) =~= front);
    } else {
        lemma_merge_keeps_order(front, i);
        assert(front.take(i) =~= parts.take(i));
    }
}

/// `out` is an interleaving of `parts`: it is made of the values of all the
/// parts, each part's values in the part's own order, and nothing else. Read
/// from the back: the last value of `out` is the last value of some part, and
/// the rest of `out` interleaves what is left.
pub open spec fn interleaves<T>(parts: Seq<Seq<T>>, out: Seq<T>) -> bool
    decreases out.len(),
{
    if out.len() == 0 {
        forall|i: int| 0 <= i < parts.len() ==> (#[trigger] parts[i]).len() == 0
    } else {
        exists|i: int|
            0 <= i < parts.len() && (#[trigger] parts[i]).len() > 0 && parts[i].last()
                == out.last() && interleaves(
                parts.update(i, parts[i].drop_last()),
                out.drop_last(),
            )
    }
}

/// Parts without values hold nothing.
proof fn lemma_union_of_empty_parts<T>(parts: Seq<Seq<T>>)
    requires
        forall|i: int| 0 <= i < parts.len() ==> (#[trigger] parts[i]).len() == 0,
    ensures
        union_of(parts) =~= Multiset::<T>::empty(),
    decreases parts.len(),
{
    if parts.len() > 0 {
        lemma_union_of_empty_parts(parts.drop_last());
        assert(parts.last() == parts[parts.len() - 1]);
        assert(parts.last() =~= Seq::<T>::empty());
        Seq::<T>::empty().to_multiset_ensures();
        assert(Seq::<T>::empty().to_multiset().len() == 0);
        assert(parts.last().to_multiset() =~= Multiset::<T>::empty());
    }
}

/// One more value at the end of one part is one more value in the union.
proof fn lemma_union_of_longer_part<T>(parts: Seq<Seq<T>>, i: int, value: T)
    requires
        0 <= i < parts.len(),
    ensures
        union_of(parts.update(i, parts[i].push(value))) =~= union_of(parts).insert(value),
    decreases parts.len(),
{
    let longer = parts.update(i, parts[i].push(value));
    if i == parts.len() - 1 {
        assert(longer.drop_last() =~= parts.drop_last());
        assert(longer.last() == parts.last().push(value));
        vstd::seq_lib::to_multiset_build(parts.last(), value);
    } else {
        lemma_union_of_longer_part(parts.drop_last(), i, value);
        assert(longer.drop_last() =~= parts.drop_last().update(i, parts[i].push(value)));
        assert(longer.last() == parts.last());
    }
}

/// An interleaving neither drops nor duplicates: it holds, as a multiset,
/// exactly the values of its parts. This is so whatever the order in which
/// the sources of a merge get to send.
pub proof fn lemma_interleaving_is_union<T>(parts: Seq<Seq<T>>, out: Seq<T>)
    requires
        interleaves(parts, out),
    ensures
        out.to_multiset() =~= union_of(parts),
    decreases out.len(),
{
    if out.len() == 0 {
        lemma_union_of_empty_parts(parts);
        out.to_multiset_ensures();
        assert(out.to_multiset().len() == 0);
        assert(out.to_multiset() =~= Multiset::<T>::empty());
    } else {
        let i = choose|i: int|
            0 <= i < parts.len() && (#[trigger] parts[i]).len() > 0 && parts[i].last()
                == out.last() && interleaves(
                parts.update(i, parts[i].drop_last()),
                out.drop_last(),
            );
        let shorter = parts.update(i, parts[i].drop_last());
        lemma_interleaving_is_union(shorter, out.drop_last());
        lemma_union_of_longer_part(shorter, i, out.last());
        assert(parts[i].drop_last().push(out.last()) =~= parts[i]);
        assert(shorter.update(i, shorter[i].push(out.last())) =~= parts);
        vstd::seq_lib::to_multiset_build(out.drop_last(), out.last());
        assert(out.drop_last().push(out.last()) =~= out);
    }
}

/// A part without values changes nothing about an interleaving.
proof fn lemma_interleaves_with_empty_part<T>(parts: Seq<Seq<T>>, out: Seq<T>)
    requires
        interleaves(parts, out),
    ensures
        interleaves(parts.push(Seq::<T>::empty()), out),
    decreases out.len(),
{
    let more = parts.push(Seq::<T>::empty());
    if out.len() == 0 {
        assert forall|i: int| 0 <= i < more.len() implies (#[trigger] more[i]).len() == 0 by {
            if i < parts.len() {
                assert(more[i] == parts[i]);
            }
        }
    } else {
        let i = choose|i: int|
            0 <= i < parts.len() && (#[trigger] parts[i]).len() > 0 && parts[i].last()
                == out.last() && interleaves(
                parts.update(i, parts[i].drop_last()),
                out.drop_last(),
            );
        lemma_interleaves_with_empty_part(parts.update(i, parts[i].drop_last()), out.drop_last());
        assert(more[i] == parts[i]);
        assert(more.update(i, more[i].drop_last()) =~= parts.update(
            i,
            parts[i].drop_last(),
        ).push(Seq::<T>::empty()));
    }
}

/// The values of one more part, put behind an interleaving of the others,
/// make an interleaving of all of them.
proof fn lemma_interleaves_with_last_part<T>(parts: Seq<Seq<T>>, out: Seq<T>, part: Seq<T>)
    requires
        interleaves(parts, out),
    ensures
        interleaves(parts.push(part), out + part),
    decreases part.len(),
{
    if part.len() == 0 {
        lemma_interleaves_with_empty_part(parts, out);
        assert(part =~= Seq::<T>::empty());
        assert(out + part =~= out);
    } else {
        lemma_interleaves_with_last_part(parts, out, part.drop_last());
        let more = parts.push(part);
        let all = out + part;
        let i = parts.len() as int;
        assert(more[i] == part);
        assert(all.last() == part.last());
        assert(all.drop_last() =~= out + part.drop_last());
        assert(more.update(i, more[i].drop_last()) =~= parts.push(part.drop_last()));
    }
}

/// What sources laid end to end deliver is one of their interleavings: the
/// one in which each source has sent all its values before the next begins.
pub proof fn lemma_flatten_interleaves<T>(parts: Seq<Seq<T>>)
    ensures
        interleaves(parts, parts.flatten()),
    decreases parts.len(),
{
    if parts.len() == 0 {
        assert(parts.flatten() =~= Seq::<T>::empty());
    } else {
        let front = parts.drop_last();
        lemma_flatten_interleaves(front);
        lemma_interleaves_with_last_part(front, front.flatten(), parts.last());
        front.lemma_flatten_push(parts.last());
        assert(front.push(parts.last()) =~= parts);
    }
}

/// Marks an index in a quantified fact.
spec fn nth(i: int) -> bool {
    true
}

/// Drives every one of `streams`, in order, and collects what they delivered.
fn drain<T: Send + 'static>(streams: Vec<Stream<T>>) -> (items: Receiver<T>)
    requires
        forall|i: int| 0 <= i < streams.len() ==> (#[trigger] streams[i]).ready(),
    ensures
        exists|
            runs: Seq<&mut StreamSender<T>>,
            ends: Seq<Result<(), DeliveryError<T>>>,
            parts: Seq<Seq<T>>,
        |
            #![trigger parts.flatten(), runs.len(), ends.len()]
            {
                &&& runs.len() == streams.len()
                &&& ends.len() == streams.len()
                &&& parts.len() == streams.len()
                &&& forall|i: int|
                    #![trigger runs[i]]
                    0 <= i < streams.len() ==> {
                        &&& runs[i].is_fresh()
                        &&& streams[i].yields(runs[i], ends[i])
                        &&& parts[i] == final(runs[i]).sent()
                    }
                &&& items@ == parts.flatten()
            },
{
    let ghost all = streams@;
    let mut items: Receiver<T> = Receiver::new();
    let ghost mut parts: Seq<Seq<T>> = Seq::empty();
    for stream in it: streams
        invariant
            it.seq() == all,
            forall|i: int| 0 <= i < all.len() ==> (#[trigger] all[i]).ready(),
            parts.len() == it.index(),
            items@ == parts.flatten(),
            forall|i: int|
                #![trigger nth(i)]
                nth(i) && 0 <= i < parts.len() ==> exists|
                    s: &mut StreamSender<T>,
                    r: Result<(), DeliveryError<T>>,
                |
                    {
                        &&& s.is_fresh()
                        &&& #[trigger] all[i].yields(s, r)
                        &&& parts[i] == final(s).sent()
                    },
    {
        let ghost before = parts;
        assert(stream == all[it.index() as int]);
        let part = stream.read();
        proof {
            parts = before.push(part@);
            before.lemma_flatten_push(part@);
            assert forall|i: int| #![trigger nth(i)] nth(i) && 0 <= i < parts.len() implies exists|
                s: &mut StreamSender<T>,
                r: Result<(), DeliveryError<T>>,
            |
                s.is_fresh() && #[trigger] all[i].yields(s, r) && parts[i] == final(s).sent() by {
                if i < before.len() {
                    assert(parts[i] == before[i]);
                }
            }
        }
        items.append(part);
    }
    proof {
        let pairs = Seq::new(
            all.len(),
            |i: int|
                choose|s: &mut StreamSender<T>, r: Result<(), DeliveryError<T>>|
                    s.is_fresh() && #[trigger] all[i].yields(s, r) && parts[i] == final(s).sent(),
        );
        let runs = Seq::new(all.len(), |i: int| pairs[i].0);
        let ends = Seq::new(all.len(), |i: int| pairs[i].1);
        assert forall|i: int| #![trigger runs[i]] 0 <= i < streams.len() implies runs[i].is_fresh()
            && streams[i].yields(runs[i], ends[i]) && parts[i] == final(runs[i]).sent() by {
            assert(nth(i));
        }
        assert(runs.len() == streams.len() && ends.len() == streams.len());
    }
    items
}

} // verus!
