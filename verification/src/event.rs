//! Events: listeners that are called with every value that is emitted, and
//! listeners that are called with the next one only.
use crate::action::{Action, ActionOnce};
use std::collections::VecDeque;
use vstd::prelude::*;

verus! {

/// An event with its listeners, each kind in the order of registration.
#[verifier::reject_recursive_types(T)]
pub struct Event<T> {
    ons: Vec<Action<T>>,
    onces: VecDeque<ActionOnce<T>>,
}

impl<T: Clone + Send + 'static> Event<T> {
    /// The listeners that are called on every emit.
    pub closed spec fn listeners(&self) -> Seq<Action<T>> {
        self.ons@
    }

    /// The listeners that are called on the next emit and then dropped.
    pub closed spec fn once_listeners(&self) -> Seq<ActionOnce<T>> {
        self.onces@
    }

    /// An event without listeners.
    pub fn new() -> (event: Event<T>)
        ensures
            event.listeners() == Seq::<Action<T>>::empty(),
            event.once_listeners() == Seq::<ActionOnce<T>>::empty(),
    {
        Event { ons: Vec::new(), onces: VecDeque::new() }
    }

    /// Registers a listener for every emit, behind those already there.
    pub fn on<F>(&mut self, closure: F) where F: Fn(T) + Send + 'static
        ensures
            final(self).once_listeners() == old(self).once_listeners(),
            final(self).listeners().len() == old(self).listeners().len() + 1,
            final(self).listeners().drop_last() == old(self).listeners(),
            forall|value: T| #[trigger]
                final(self).listeners().last().accepts(value) == closure.requires((value,)),
            forall|value: T| #[trigger]
                final(self).listeners().last().completes(value) == closure.ensures((value,), ()),
    {
        self.ons.push(Action::new(closure));
        assert(self.ons@.drop_last() =~= old(self).ons@);
    }

    /// Registers a listener for the next emit only, behind those already
    /// there.
    pub fn once<F>(&mut self, closure: F) where F: FnOnce(T) + Send + 'static
        ensures
            final(self).listeners() == old(self).listeners(),
            final(self).once_listeners().len() == old(self).once_listeners().len() + 1,
            final(self).once_listeners().drop_last() == old(self).once_listeners(),
            forall|value: T| #[trigger]
                final(self).once_listeners().last().accepts(value) == closure.requires((value,)),
            forall|value: T| #[trigger]
                final(self).once_listeners().last().completes(value) == closure.ensures(
                    (value,),
                    (),
                ),
    {
        self.onces.push_back(ActionOnce::new(closure));
        assert(self.onces@.drop_last() =~= old(self).onces@);
    }

    /// Emits `value`: calls every listener with a clone of it, first those
    /// for every emit and then those for one emit, each kind in the order of
    /// registration. The listeners for one emit are dropped.
    pub fn emit(&mut self, value: T)
        requires
            forall|i: int, v: T|
                #![trigger old(self).listeners()[i].accepts(v)]
                0 <= i < old(self).listeners().len() && cloned(value, v)
                    ==> old(self).listeners()[i].accepts(v),
            forall|i: int, v: T|
                #![trigger old(self).once_listeners()[i].accepts(v)]
                0 <= i < old(self).once_listeners().len() && cloned(value, v)
                    ==> old(self).once_listeners()[i].accepts(v),
        ensures
            final(self).listeners() == old(self).listeners(),
            final(self).once_listeners() == Seq::<ActionOnce<T>>::empty(),
            exists|copies: Seq<T>, once_copies: Seq<T>|
                #![trigger copies.len(), once_copies.len()]
                {
                    &&& copies.len() == old(self).listeners().len()
                    &&& once_copies.len() == old(self).once_listeners().len()
                    &&& forall|i: int|
                        #![trigger copies[i]]
                        0 <= i < copies.len() ==> {
                            &&& cloned(value, copies[i])
                            &&& old(self).listeners()[i].completes(copies[i])
                        }
                    &&& forall|i: int|
                        #![trigger once_copies[i]]
                        0 <= i < once_copies.len() ==> {
                            &&& cloned(value, once_copies[i])
                            &&& old(self).once_listeners()[i].completes(once_copies[i])
                        }
                },
    {
        let ghost ons = self.ons@;
        let ghost onces = self.onces@;
        let total = self.onces.len();
        assert forall|k: int, v: T|
            0 <= k < ons.len() && cloned(value, v) implies #[trigger] ons[k].accepts(v) by {
            assert(old(self).listeners()[k].accepts(v));
        }
        assert forall|k: int, v: T|
            0 <= k < onces.len() && cloned(value, v) implies #[trigger] onces[k].accepts(v) by {
            assert(old(self).once_listeners()[k].accepts(v));
        }
        let ghost mut copies: Seq<T> = Seq::empty();
        let ghost mut once_copies: Seq<T> = Seq::empty();
        let mut i: usize = 0;
        while i < self.ons.len()
            invariant
                self.ons@ == ons,
                self.onces@ == onces,
                i <= ons.len(),
                copies.len() == i,
                forall|k: int, v: T|
                    0 <= k < ons.len() && cloned(value, v) ==> #[trigger] ons[k].accepts(v),
                forall|k: int|
                    #![trigger copies[k]]
                    0 <= k < i ==> cloned(value, copies[k]) && ons[k].completes(copies[k]),
            decreases ons.len() - i,
        {
            let copy = value.clone();
            assert(cloned(value, copy));
            self.ons[i].call(copy);
            proof {
                copies = copies.push(copy);
            }
            i = i + 1;
        }
        let mut done: usize = 0;
        loop
            invariant
                self.ons@ == ons,
                total == onces.len(),
                done + self.onces@.len() == onces.len(),
                once_copies.len() == done,
                self.onces@ == onces.skip(done as int),
                forall|k: int, v: T|
                    0 <= k < onces.len() && cloned(value, v) ==> #[trigger] onces[k].accepts(v),
                forall|k: int|
                    #![trigger once_copies[k]]
                    0 <= k < done ==> cloned(value, once_copies[k]) && onces[k].completes(
                        once_copies[k],
                    ),
            ensures
                self.ons@ == ons,
                self.onces@.len() == 0,
                done == onces.len(),
                once_copies.len() == done,
                forall|k: int|
                    #![trigger once_copies[k]]
                    0 <= k < done ==> cloned(value, once_copies[k]) && onces[k].completes(
                        once_copies[k],
                    ),
            decreases self.onces@.len(),
        {
            match self.onces.pop_front() {
                None => {
                    break ;
                },
                Some(once) => {
                    assert(once == onces[done as int]) by {
                        assert(onces.skip(done as int)[0] == onces[done as int]);
                    }
                    let copy = value.clone();
                    assert(cloned(value, copy));
                    once.call(copy);
                    proof {
                        once_copies = once_copies.push(copy);
                    }
                    assert(self.onces@ =~= onces.skip(done + 1));
                    done = done + 1;
                },
            }
        }
        proof {
            assert(self.onces@ =~= Seq::<ActionOnce<T>>::empty());
            assert(copies.len() == old(self).listeners().len());
            assert(once_copies.len() == old(self).once_listeners().len());
        }
    }
}

} // verus!
