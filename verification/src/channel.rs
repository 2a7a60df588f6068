//! The channel discipline: a one-shot slot for tasks, a collecting sender for
//! streams, and the receiving end both hand over.
use std::collections::VecDeque;
use vstd::prelude::*;

verus! {

/// A send could not be delivered because no receiver was there to take it.
/// The undelivered value is handed back.
#[derive(Debug)]
pub struct DeliveryError<T>(pub T);

/// Scheduled work ended without producing a value.
#[derive(Debug, Clone, Copy, PartialEq, Eq, Structural)]
pub struct ExecutionFailure;

/// The state of a single-value channel.
pub enum Slot<T> {
    /// A receiver is waiting and nothing has been delivered yet.
    Empty,
    /// The one value has been delivered.
    Full(T),
    /// The receiver has gone away.
    Closed,
}

impl<T> Slot<T> {
    /// What a receiver finds in the slot once the producer is done.
    pub open spec fn outcome(self) -> Result<T, ExecutionFailure> {
        match self {
            Slot::Full(value) => Ok(value),
            _ => Err(ExecutionFailure),
        }
    }

    /// The slot as the pending items of a receiver: one item or none.
    pub open spec fn pending(self) -> Seq<T> {
        match self {
            Slot::Full(value) => seq![value],
            _ => Seq::empty(),
        }
    }

    /// A slot with a receiver waiting on it.
    pub fn new() -> (slot: Slot<T>)
        ensures
            slot is Empty,
    {
        Slot::Empty
    }

    /// A slot whose receiver is already gone.
    pub fn closed() -> (slot: Slot<T>)
        ensures
            slot is Closed,
    {
        Slot::Closed
    }

    /// Consumes the slot on the receiving side.
    pub fn take(self) -> (r: Result<T, ExecutionFailure>)
        ensures
            r == self.outcome(),
    {
        match self {
            Slot::Full(value) => Ok(value),
            _ => Err(ExecutionFailure),
        }
    }
}

/// What a single wait on a receiver with these pending values returns.
pub open spec fn first_of<T>(pending: Seq<T>) -> Result<T, ExecutionFailure> {
    if pending.len() > 0 {
        Ok(pending[0])
    } else {
        Err(ExecutionFailure)
    }
}

/// The effect of passing on a result through a slot: a value is sent, a
/// failure leaves the slot untouched.
pub open spec fn handover<T>(
    before: Slot<T>,
    after: Slot<T>,
    result: Result<T, ExecutionFailure>,
    r: Result<(), DeliveryError<T>>,
) -> bool {
    match result {
        Ok(value) => delivery(before, after, value, r),
        Err(_) => after == before && r is Ok,
    }
}

/// The values of a sequence of results, read where every one of them is `Ok`.
pub open spec fn values_of<T>(outcomes: Seq<Result<T, ExecutionFailure>>) -> Seq<T> {
    Seq::new(outcomes.len(), |i: int| outcomes[i]->Ok_0)
}

/// Fail-fast collection: `result` holds the values of `outcomes`, index for
/// index, when all of them are `Ok`, and is the failure as soon as one is not.
pub open spec fn collected<T>(
    outcomes: Seq<Result<T, ExecutionFailure>>,
    result: Result<Vec<T>, ExecutionFailure>,
) -> bool {
    if forall|i: int| 0 <= i < outcomes.len() ==> (#[trigger] outcomes[i]) is Ok {
        result is Ok && result->Ok_0@ == values_of(outcomes)
    } else {
        result is Err
    }
}

/// The effect of one send on a slot: delivery into an empty slot, otherwise a
/// failure that returns the value and leaves the slot as it was.
pub open spec fn delivery<T>(
    before: Slot<T>,
    after: Slot<T>,
    value: T,
    r: Result<(), DeliveryError<T>>,
) -> bool {
    if before is Empty {
        after == Slot::Full(value) && r is Ok
    } else {
        after == before && r == Err::<(), DeliveryError<T>>(DeliveryError(value))
    }
}

/// The effect of forwarding `items` in order through a stream sender that had
/// already sent `before`: everything goes through while the receiver is
/// there; without one the first item comes back as the failure.
pub open spec fn relay<T>(
    before: Seq<T>,
    open: bool,
    after: Seq<T>,
    items: Seq<T>,
    r: Result<(), DeliveryError<T>>,
) -> bool {
    if open || items.len() == 0 {
        after == before + items && r is Ok
    } else {
        after == before && r == Err::<(), DeliveryError<T>>(DeliveryError(items[0]))
    }
}

/// A waiter receives exactly what was sent: a value sent into a waiting slot
/// is what the receiving side finds, by `take` and through a receiver alike.
pub proof fn lemma_sent_value_is_received<T>(
    before: Slot<T>,
    after: Slot<T>,
    value: T,
    r: Result<(), DeliveryError<T>>,
)
    requires
        before is Empty,
        delivery(before, after, value, r),
    ensures
        r is Ok,
        after.outcome() == Ok::<T, ExecutionFailure>(value),
        first_of(after.pending()) == after.outcome(),
{
}

/// Without a send there is nothing to receive: a slot that was left waiting,
/// or whose receiver is gone, gives the failure.
pub proof fn lemma_nothing_sent_is_a_failure<T>(slot: Slot<T>)
    requires
        !(slot is Full),
    ensures
        slot.outcome() == Err::<T, ExecutionFailure>(ExecutionFailure),
        first_of(slot.pending()) == slot.outcome(),
{
}

/// Values arrive in the order of the sends: with a receiver there, sending
/// `first` and then `second` delivers `first + second` behind what was
/// delivered before.
pub proof fn lemma_sends_arrive_in_order<T>(
    before: Seq<T>,
    between: Seq<T>,
    after: Seq<T>,
    first: Seq<T>,
    second: Seq<T>,
    r1: Result<(), DeliveryError<T>>,
    r2: Result<(), DeliveryError<T>>,
)
    requires
        relay(before, true, between, first, r1),
        relay(between, true, after, second, r2),
    ensures
        after == before + first + second,
        relay(before, true, after, first + second, r2),
{
    assert(before + first + second =~= before + (first + second));
}

/// What is left of `items` when exactly the flagged ones are kept.
pub open spec fn pick<T>(items: Seq<T>, flags: Seq<bool>) -> Seq<T>
    decreases items.len(),
{
    if items.len() == 0 || flags.len() != items.len() {
        Seq::empty()
    } else if flags.last() {
        pick(items.drop_last(), flags.drop_last()).push(items.last())
    } else {
        pick(items.drop_last(), flags.drop_last())
    }
}

/// `kept` is `items` filtered by `func`: `func` gave one verdict per item, and
/// the items with a positive verdict were kept, in order.
pub open spec fn selects<T, F: Fn(&T) -> bool>(func: F, items: Seq<T>, kept: Seq<T>) -> bool {
    exists|flags: Seq<bool>|
        flags.len() == items.len() && (forall|i: int|
            0 <= i < items.len() ==> #[trigger] func.ensures((&items[i],), flags[i])) && kept
            == #[trigger] pick(items, flags)
}

/// `images` is `items` mapped by `func`, item for item.
pub open spec fn transforms<T, U, F: Fn(T) -> U>(func: F, items: Seq<T>, images: Seq<U>) -> bool {
    images.len() == items.len() && forall|i: int|
        0 <= i < items.len() ==> #[trigger] func.ensures((items[i],), images[i])
}

/// `accs` is a chain of accumulators over the first items of `items`: it
/// starts at `init`, and each next one is a result of `func` on the one before
/// and the next item.
pub open spec fn chains<T, F: Fn(T, T) -> T>(func: F, init: T, items: Seq<T>, accs: Seq<T>) -> bool {
    &&& 1 <= accs.len() <= items.len() + 1
    &&& accs[0] == init
    &&& forall|i: int|
        0 <= i < accs.len() - 1 ==> #[trigger] func.ensures((accs[i], items[i]), accs[i + 1])
}

/// `func` may be called at every step of every left fold of `items` from
/// `init`.
pub open spec fn foldable<T, F: Fn(T, T) -> T>(func: F, init: T, items: Seq<T>) -> bool {
    forall|accs: Seq<T>| #[trigger]
        chains(func, init, items, accs) && accs.len() <= items.len() ==> func.requires(
            (accs.last(), items[accs.len() - 1]),
        )
}

/// `acc` is the left fold of `items` by `func` from `init`: the end of a chain
/// of accumulators over all of `items`.
pub open spec fn folds<T, F: Fn(T, T) -> T>(func: F, init: T, items: Seq<T>, acc: T) -> bool {
    exists|accs: Seq<T>| #[trigger]
        chains(func, init, items, accs) && accs.len() == items.len() + 1 && accs.last() == acc
}

/// Picking by the verdicts of a predicate is filtering by it.
pub proof fn lemma_pick_is_filter<T>(items: Seq<T>, flags: Seq<bool>, keep: spec_fn(T) -> bool)
    requires
        flags.len() == items.len(),
        forall|i: int| 0 <= i < items.len() ==> #[trigger] flags[i] == keep(items[i]),
    ensures
        pick(items, flags) == items.filter(keep),
    decreases items.len(),
{
    reveal(Seq::filter);
    if items.len() > 0 {
        lemma_pick_is_filter(items.drop_last(), flags.drop_last(), keep);
    } else {
        assert(items =~= Seq::<T>::empty());
    }
}

/// Where the closure `func` computes the predicate `keep`, what a filter by
/// `func` keeps of `items` is `items.filter(keep)`.
pub proof fn lemma_selects_is_filter<T, F: Fn(&T) -> bool>(
    func: F,
    keep: spec_fn(T) -> bool,
    items: Seq<T>,
    kept: Seq<T>,
)
    requires
        selects(func, items, kept),
        forall|x: T, verdict: bool| #[trigger] func.ensures((&x,), verdict) ==> verdict == keep(x),
    ensures
        kept == items.filter(keep),
{
    let flags = choose|flags: Seq<bool>|
        flags.len() == items.len() && (forall|i: int|
            0 <= i < items.len() ==> #[trigger] func.ensures((&items[i],), flags[i])) && kept
            == #[trigger] pick(items, flags);
    assert forall|i: int| 0 <= i < items.len() implies #[trigger] flags[i] == keep(items[i]) by {
        assert(func.ensures((&items[i],), flags[i]));
    }
    lemma_pick_is_filter(items, flags, keep);
}

/// Where the closure `func` computes the function `image`, what a map by
/// `func` makes of `items` is `items.map_values(image)`.
pub proof fn lemma_transforms_is_map<T, U, F: Fn(T) -> U>(
    func: F,
    image: spec_fn(T) -> U,
    items: Seq<T>,
    images: Seq<U>,
)
    requires
        transforms(func, items, images),
        forall|x: T, y: U| #[trigger] func.ensures((x,), y) ==> y == image(x),
    ensures
        images == items.map_values(image),
{
    assert forall|i: int| 0 <= i < items.len() implies images[i] == image(items[i]) by {
        assert(func.ensures((items[i],), images[i]));
    }
    assert(images =~= items.map_values(image));
}

/// Where the closure `func` computes the function `step`, a fold of `items`
/// by `func` from `init` is `items.fold_left(init, step)`.
pub proof fn lemma_folds_is_fold_left<T, F: Fn(T, T) -> T>(
    func: F,
    step: spec_fn(T, T) -> T,
    init: T,
    items: Seq<T>,
    acc: T,
)
    requires
        folds(func, init, items, acc),
        forall|a: T, x: T, y: T| #[trigger] func.ensures((a, x), y) ==> y == step(a, x),
    ensures
        acc == items.fold_left(init, step),
{
    let accs = choose|accs: Seq<T>| #[trigger]
        chains(func, init, items, accs) && accs.len() == items.len() + 1 && accs.last() == acc;
    lemma_chain_is_fold_left(func, step, init, items, accs, items.len() as int);
    assert(items.take(items.len() as int) =~= items);
}

/// A chain of accumulators follows the left fold, prefix by prefix.
proof fn lemma_chain_is_fold_left<T, F: Fn(T, T) -> T>(
    func: F,
    step: spec_fn(T, T) -> T,
    init: T,
    items: Seq<T>,
    accs: Seq<T>,
    n: int,
)
    requires
        0 <= n <= items.len(),
        accs.len() == items.len() + 1,
        accs[0] == init,
        forall|i: int|
            0 <= i < items.len() ==> #[trigger] func.ensures((accs[i], items[i]), accs[i + 1]),
        forall|a: T, x: T, y: T| #[trigger] func.ensures((a, x), y) ==> y == step(a, x),
    ensures
        accs[n] == items.take(n).fold_left(init, step),
    decreases n,
{
    if n > 0 {
        lemma_chain_is_fold_left(func, step, init, items, accs, n - 1);
        assert(func.ensures((accs[n - 1], items[n - 1]), accs[n - 1 + 1]));
        assert(items.take(n).drop_last() =~= items.take(n - 1));
        assert(items.take(n).last() == items[n - 1]);
    } else {
        assert(items.take(0) =~= Seq::<T>::empty());
    }
}

/// The integers from `start` up to, not including, `end`.
pub open spec fn range_items(start: i32, end: i32) -> Seq<i32> {
    if start < end {
        Seq::new((end - start) as nat, |i: int| (start + i) as i32)
    } else {
        Seq::empty()
    }
}

/// The sending half of a stream's channel. It records, in order, every value
/// that was delivered.
pub struct StreamSender<T> {
    items: VecDeque<T>,
    open: bool,
}

impl<T> StreamSender<T> {
    /// The values delivered so far, oldest first.
    pub closed spec fn sent(&self) -> Seq<T> {
        self.items@
    }

    /// Whether a receiver is still there.
    pub closed spec fn is_open(&self) -> bool {
        self.open
    }

    /// A sender that has a receiver and has not sent anything yet.
    pub open spec fn is_fresh(&self) -> bool {
        self.is_open() && self.sent() == Seq::<T>::empty()
    }

    /// A fresh sender with a receiver attached.
    pub fn new() -> (sender: StreamSender<T>)
        ensures
            sender.is_fresh(),
    {
        StreamSender { items: VecDeque::new(), open: true }
    }

    /// A sender whose receiver is already gone: every send fails.
    pub fn disconnected() -> (sender: StreamSender<T>)
        ensures
            sender.sent() == Seq::<T>::empty(),
            !sender.is_open(),
    {
        StreamSender { items: VecDeque::new(), open: false }
    }

    /// Delivers one value, or hands it back when no receiver is there.
    pub fn send(&mut self, value: T) -> (r: Result<(), DeliveryError<T>>)
        ensures
            final(self).is_open() == old(self).is_open(),
            relay(old(self).sent(), old(self).is_open(), final(self).sent(), seq![value], r),
    {
        if self.open {
            self.items.push_back(value);
            assert(self.items@ =~= old(self).items@ + seq![value]);
            Ok(())
        } else {
            Err(DeliveryError(value))
        }
    }

    /// Hands the delivered values to the receiving side.
    pub fn into_receiver(self) -> (receiver: Receiver<T>)
        ensures
            receiver@ == self.sent(),
    {
        Receiver { items: self.items }
    }
}

/// The receiving half of a channel whose producer has finished: the values
/// that were delivered, to be taken in the order they were sent.
pub struct Receiver<T> {
    items: VecDeque<T>,
}

impl<T> View for Receiver<T> {
    type V = Seq<T>;

    closed spec fn view(&self) -> Seq<T> {
        self.items@
    }
}

impl<T> Receiver<T> {
    /// The receiving side of a one-shot slot.
    pub fn from_slot(slot: Slot<T>) -> (receiver: Receiver<T>)
        ensures
            receiver@ == slot.pending(),
    {
        let mut items = VecDeque::new();
        match slot {
            Slot::Full(value) => {
                items.push_back(value);
            },
            _ => {},
        }
        Receiver { items }
    }

    /// Takes the oldest pending value; fails once nothing is left.
    pub fn recv(&mut self) -> (r: Result<T, ExecutionFailure>)
        ensures
            r == first_of(old(self)@),
            r is Ok ==> final(self)@ == old(self)@.skip(1),
            r is Err ==> final(self)@ == old(self)@,
    {
        match self.items.pop_front() {
            Some(value) => Ok(value),
            None => Err(ExecutionFailure),
        }
    }

    /// Sends what is pending, oldest first, until a value cannot be delivered.
    pub fn forward(self, sender: &mut StreamSender<T>) -> (r: Result<(), DeliveryError<T>>)
        ensures
            final(sender).is_open() == old(sender).is_open(),
            relay(old(sender).sent(), old(sender).is_open(), final(sender).sent(), self@, r),
    {
        let mut pending = self.items;
        let ghost items = pending@;
        let ghost before = sender.sent();
        loop
            invariant
                items == self@,
                sender.is_open() == old(sender).is_open(),
                before == old(sender).sent(),
                sender.is_open() ==> sender.sent() + pending@ == before + items,
                !sender.is_open() ==> sender.sent() == before && pending@ == items,
            decreases pending@.len(),
        {
            let ghost sent_so_far = sender.sent();
            match pending.pop_front() {
                None => {
                    assert(sender.is_open() ==> sender.sent() =~= before + items);
                    assert(!sender.is_open() ==> before + items =~= before);
                    return Ok(());
                },
                Some(value) => {
                    match sender.send(value) {
                        Ok(()) => {
                            assert(sender.sent() + pending@ =~= sent_so_far + (seq![value]
                                + pending@));
                        },
                        Err(e) => {
                            return Err(e);
                        },
                    }
                },
            }
        }
    }

    /// Keeps the pending values for which `func` answers yes.
    pub fn filter<F: Fn(&T) -> bool>(self, func: &F) -> (kept: Receiver<T>)
        requires
            forall|i: int| 0 <= i < self@.len() ==> #[trigger] func.requires((&self@[i],)),
        ensures
            selects(*func, self@, kept@),
    {
        let mut pending = self.items;
        let ghost items = pending@;
        let mut kept: VecDeque<T> = VecDeque::new();
        let ghost mut flags: Seq<bool> = Seq::empty();
        let ghost mut seen: Seq<T> = Seq::empty();
        loop
            invariant
                items == self@,
                seen + pending@ == items,
                flags.len() == seen.len(),
                forall|i: int|
                    0 <= i < seen.len() ==> #[trigger] func.ensures((&seen[i],), flags[i]),
                kept@ == pick(seen, flags),
                forall|i: int| 0 <= i < items.len() ==> #[trigger] func.requires((&items[i],)),
            ensures
                selects(*func, self@, kept@),
            decreases pending@.len(),
        {
            let ghost rest = pending@;
            match pending.pop_front() {
                None => {
                    assert(seen =~= items);
                    break ;
                },
                Some(value) => {
                    assert(value == items[seen.len() as int]) by {
                        assert((seen + rest)[seen.len() as int] == value);
                    }
                    let keep = func(&value);
                    proof {
                        let next = seen.push(value);
                        let next_flags = flags.push(keep);
                        assert(next.drop_last() =~= seen);
                        assert(next_flags.drop_last() =~= flags);
                        assert(next + pending@ =~= seen + rest);
                        seen = next;
                        flags = next_flags;
                    }
                    if keep {
                        kept.push_back(value);
                    }
                },
            }
        }
        Receiver { items: kept }
    }

    /// Applies `func` to each pending value, oldest first.
    pub fn map<U, F: Fn(T) -> U>(self, func: &F) -> (images: Receiver<U>)
        requires
            forall|i: int| 0 <= i < self@.len() ==> #[trigger] func.requires((self@[i],)),
        ensures
            transforms(*func, self@, images@),
    {
        let mut pending = self.items;
        let mut images: VecDeque<U> = VecDeque::new();
        loop
            invariant
                images@.len() + pending@.len() == self@.len(),
                pending@ == self@.skip(images@.len() as int),
                forall|i: int|
                    0 <= i < images@.len() ==> #[trigger] func.ensures((self@[i],), images@[i]),
                forall|i: int| 0 <= i < self@.len() ==> #[trigger] func.requires((self@[i],)),
            ensures
                transforms(*func, self@, images@),
            decreases pending@.len(),
        {
            let ghost done = images@;
            match pending.pop_front() {
                None => {
                    break ;
                },
                Some(value) => {
                    assert(value == self@.skip(done.len() as int)[0]);
                    let image = func(value);
                    images.push_back(image);
                    assert(pending@ =~= self@.skip(images@.len() as int));
                },
            }
        }
        Receiver { items: images }
    }

    /// Folds the pending values from the left, oldest first, starting from
    /// `init`.
    pub fn fold<F: Fn(T, T) -> T>(self, init: T, func: &F) -> (acc: T)
        requires
            foldable(*func, init, self@),
        ensures
            folds(*func, init, self@, acc),
    {
        let mut pending = self.items;
        let mut acc = init;
        let ghost mut accs: Seq<T> = seq![init];
        loop
            invariant
                foldable(*func, init, self@),
                chains(*func, init, self@, accs),
                accs.len() + pending@.len() == self@.len() + 1,
                pending@ == self@.skip(accs.len() - 1),
                accs[accs.len() - 1] == acc,
            ensures
                folds(*func, init, self@, acc),
            decreases pending@.len(),
        {
            let ghost before = accs;
            let ghost k = accs.len() - 1;
            match pending.pop_front() {
                None => {
                    assert(accs.last() == acc);
                    break ;
                },
                Some(value) => {
                    assert(value == self@[k]) by {
                        assert(self@.skip(k)[0] == self@[k]);
                    }
                    assert(func.requires((before.last(), self@[before.len() - 1])));
                    acc = func(acc, value);
                    proof {
                        accs = before.push(acc);
                        assert(pending@ =~= self@.skip(k + 1));
                        assert forall|i: int| 0 <= i < accs.len() - 1 implies #[trigger] func.ensures(
                            (accs[i], self@[i]),
                            accs[i + 1],
                        ) by {
                            if i < before.len() - 1 {
                                assert(func.ensures((before[i], self@[i]), before[i + 1]));
                            }
                        }
                    }
                },
            }
        }
        acc
    }

    /// Puts the pending values of `other` behind those of `self`.
    pub fn append(&mut self, other: Receiver<T>)
        ensures
            final(self)@ == old(self)@ + other@,
    {
        let mut rest = other.items;
        self.items.append(&mut rest);
    }

    /// A receiver on which the values of `values` are pending, first to last.
    pub fn from_vec(values: Vec<T>) -> (receiver: Receiver<T>)
        ensures
            receiver@ == values@,
    {
        let mut rest = values;
        let mut items: VecDeque<T> = VecDeque::new();
        loop
            invariant
                rest@ + items@ == values@,
            ensures
                items@ == values@,
            decreases rest@.len(),
        {
            let ghost before = rest@;
            let ghost taken = items@;
            match rest.pop() {
                None => {
                    assert(items@ =~= values@);
                    break ;
                },
                Some(value) => {
                    items.push_front(value);
                    assert(rest@ + items@ =~= before + taken);
                },
            }
        }
        Receiver { items }
    }

    /// A receiver with nothing pending.
    pub fn new() -> (receiver: Receiver<T>)
        ensures
            receiver@ == Seq::<T>::empty(),
    {
        Receiver { items: VecDeque::new() }
    }

    /// Takes everything that is pending, oldest first.
    pub fn collect(self) -> (items: Vec<T>)
        ensures
            items@ == self@,
    {
        let mut pending = self.items;
        let mut items: Vec<T> = Vec::new();
        let ghost all = pending@;
        loop
            invariant
                items@ + pending@ == all,
            ensures
                items@ == all,
            decreases pending@.len(),
        {
            match pending.pop_front() {
                Some(value) => {
                    items.push(value);
                    assert(items@ + pending@ =~= all);
                },
                None => {
                    assert(items@ =~= all);
                    break ;
                },
            }
        }
        items
    }
}

impl Receiver<i32> {
    /// A receiver on which the integers from `start` up to, not including,
    /// `end` are pending.
    pub fn from_range(start: i32, end: i32) -> (receiver: Receiver<i32>)
        ensures
            receiver@ == range_items(start, end),
    {
        let mut items: VecDeque<i32> = VecDeque::new();
        let mut next = start;
        while next < end
            invariant
                start <= next <= end || (next == start && start > end),
                items@ == range_items(start, next),
            decreases end - next,
        {
            items.push_back(next);
            next = next + 1;
            assert(items@ =~= range_items(start, next));
        }
        assert(items@ =~= range_items(start, end));
        Receiver { items }
    }
}

} // verus!
