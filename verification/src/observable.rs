//! Observers and the subject that notifies them.
use crate::action::{Action, BoxedSignal};
use vstd::prelude::*;

verus! {

/// Three callbacks: for the next value, for an error, and for the end.
#[verifier::reject_recursive_types(T)]
pub struct Observer<T> {
    onnext: Action<T>,
    onerror: Box<dyn BoxedSignal>,
    onend: Box<dyn BoxedSignal>,
}

impl<T: Send + 'static> Observer<T> {
    /// Whether the callback for the next value may be called with `value`.
    pub closed spec fn next_accepts(&self, value: T) -> bool {
        self.onnext.accepts(value)
    }

    /// Whether a call of the callback for the next value with `value` meets
    /// what its closure ensures.
    pub closed spec fn next_completes(&self, value: T) -> bool {
        self.onnext.completes(value)
    }

    /// Whether the callback for an error may be called.
    pub closed spec fn error_accepts(&self) -> bool {
        self.onerror.pre()
    }

    /// Whether a call of the callback for an error meets what its closure
    /// ensures.
    pub closed spec fn error_completes(&self) -> bool {
        self.onerror.post()
    }

    /// Whether the callback for the end may be called.
    pub closed spec fn end_accepts(&self) -> bool {
        self.onend.pre()
    }

    /// Whether a call of the callback for the end meets what its closure
    /// ensures.
    pub closed spec fn end_completes(&self) -> bool {
        self.onend.post()
    }

    /// An observer made of the three closures.
    pub fn new<Next, Error, End>(onnext: Next, onerror: Error, onend: End) -> (observer:
        Observer<T>) where
        Next: Fn(T) + Send + 'static,
        Error: Fn() + Send + 'static,
        End: Fn() + Send + 'static,

        ensures
            forall|value: T| #[trigger]
                observer.next_accepts(value) == onnext.requires((value,)),
            forall|value: T| #[trigger]
                observer.next_completes(value) == onnext.ensures((value,), ()),
            observer.error_accepts() == onerror.requires(()),
            observer.error_completes() == onerror.ensures((), ()),
            observer.end_accepts() == onend.requires(()),
            observer.end_completes() == onend.ensures((), ()),
    {
        Observer { onnext: Action::new(onnext), onerror: Box::new(onerror), onend: Box::new(onend) }
    }
}

/// The observers of a source of values, in the order in which they
/// subscribed.
#[verifier::reject_recursive_types(T)]
pub struct Subject<T> {
    observers: Vec<Observer<T>>,
}

impl<T: Send + Clone + 'static> Subject<T> {
    /// The observers that have subscribed.
    pub closed spec fn subscribers(&self) -> Seq<Observer<T>> {
        self.observers@
    }

    /// A subject without observers.
    pub fn new() -> (subject: Subject<T>)
        ensures
            subject.subscribers() == Seq::<Observer<T>>::empty(),
    {
        Subject { observers: Vec::new() }
    }

    /// Hands a clone of `value` to every observer, in the order in which they
    /// subscribed.
    pub fn onnext(&self, value: T)
        requires
            forall|i: int, v: T|
                0 <= i < self.subscribers().len() && cloned(value, v)
                    ==> #[trigger] self.subscribers()[i].next_accepts(v),
        ensures
            exists|copies: Seq<T>|
                #![trigger copies.len()]
                copies.len() == self.subscribers().len() && forall|i: int|
                    #![trigger copies[i]]
                    0 <= i < copies.len() ==> cloned(value, copies[i])
                        && self.subscribers()[i].next_completes(copies[i]),
    {
        let ghost mut copies: Seq<T> = Seq::empty();
        let mut i: usize = 0;
        while i < self.observers.len()
            invariant
                i <= self.observers@.len(),
                copies.len() == i,
                forall|k: int, v: T|
                    0 <= k < self.subscribers().len() && cloned(value, v)
                        ==> #[trigger] self.subscribers()[k].next_accepts(v),
                forall|k: int|
                    #![trigger copies[k]]
                    0 <= k < i ==> cloned(value, copies[k]) && self.subscribers()[k].next_completes(
                        copies[k],
                    ),
            decreases self.observers@.len() - i,
        {
            let copy = value.clone();
            assert(cloned(value, copy));
            assert(self.subscribers()[i as int].next_accepts(copy));
            self.observers[i].onnext.call(copy);
            proof {
                copies = copies.push(copy);
            }
            i = i + 1;
        }
    }

    /// Tells every observer of an error, in the order in which they
    /// subscribed.
    pub fn onerror(&self)
        requires
            forall|i: int|
                0 <= i < self.subscribers().len() ==> #[trigger] self.subscribers()[i].error_accepts(),
        ensures
            forall|i: int|
                0 <= i < self.subscribers().len() ==> #[trigger] self.subscribers()[i].error_completes(),
    {
        let mut i: usize = 0;
        while i < self.observers.len()
            invariant
                i <= self.observers@.len(),
                forall|k: int|
                    0 <= k < self.subscribers().len() ==> #[trigger] self.subscribers()[k].error_accepts(),
                forall|k: int|
                    0 <= k < i ==> #[trigger] self.subscribers()[k].error_completes(),
            decreases self.observers@.len() - i,
        {
            assert(self.subscribers()[i as int].error_accepts());
            self.observers[i].onerror.call();
            i = i + 1;
        }
    }

    /// Tells every observer of the end, in the order in which they subscribed.
    pub fn onend(&self)
        requires
            forall|i: int|
                0 <= i < self.subscribers().len() ==> #[trigger] self.subscribers()[i].end_accepts(),
        ensures
            forall|i: int|
                0 <= i < self.subscribers().len() ==> #[trigger] self.subscribers()[i].end_completes(),
    {
        let mut i: usize = 0;
        while i < self.observers.len()
            invariant
                i <= self.observers@.len(),
                forall|k: int|
                    0 <= k < self.subscribers().len() ==> #[trigger] self.subscribers()[k].end_accepts(),
                forall|k: int|
                    0 <= k < i ==> #[trigger] self.subscribers()[k].end_completes(),
            decreases self.observers@.len() - i,
        {
            assert(self.subscribers()[i as int].end_accepts());
            self.observers[i].onend.call();
            i = i + 1;
        }
    }

    /// Subscribes an observer made of the three closures, behind those
    /// already there, and returns its position among the subscribers.
    pub fn subscribe<Next, Error, End>(&mut self, onnext: Next, onerror: Error, onend: End) -> (at:
        usize) where
        Next: Fn(T) + Send + 'static,
        Error: Fn() + Send + 'static,
        End: Fn() + Send + 'static,

        ensures
            at == old(self).subscribers().len(),
            final(self).subscribers().len() == old(self).subscribers().len() + 1,
            final(self).subscribers().drop_last() == old(self).subscribers(),
            forall|value: T| #[trigger]
                final(self).subscribers().last().next_accepts(value) == onnext.requires(
                    (value,),
                ),
            forall|value: T| #[trigger]
                final(self).subscribers().last().next_completes(value) == onnext.ensures(
                    (value,),
                    (),
                ),
            final(self).subscribers().last().error_accepts() == onerror.requires(()),
            final(self).subscribers().last().error_completes() == onerror.ensures((), ()),
            final(self).subscribers().last().end_accepts() == onend.requires(()),
            final(self).subscribers().last().end_completes() == onend.ensures((), ()),
    {
        let at = self.observers.len();
        let observer = Observer::new(onnext, onerror, onend);
        self.observers.push(observer);
        assert(self.observers@.drop_last() =~= old(self).observers@);
        at
    }
}

} // verus!
