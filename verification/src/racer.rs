//! First caller wins: a flag that lets one action through.
use vstd::prelude::*;

verus! {

/// Lets the first action through and turns away every later one.
pub struct Racer {
    complete: bool,
}

impl Racer {
    /// Whether the race has been won.
    pub closed spec fn is_complete(&self) -> bool {
        self.complete
    }

    /// A race that nobody has won yet.
    pub fn new() -> (racer: Racer)
        ensures
            !racer.is_complete(),
    {
        Racer { complete: false }
    }

    /// Whether the race has been won.
    pub fn complete(&self) -> (won: bool)
        ensures
            won == self.is_complete(),
    {
        self.complete
    }

    /// Runs `action` if no action has run before. After the call the race is
    /// won either way.
    pub fn set<F: FnOnce() + Send + 'static>(&mut self, action: F)
        requires
            !old(self).is_complete() ==> action.requires(()),
        ensures
            final(self).is_complete(),
            !old(self).is_complete() ==> action.ensures((), ()),
    {
        if self.complete {
            return ;
        }
        self.complete = true;
        action();
    }
}

} // verus!
