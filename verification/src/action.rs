//! Boxed callbacks: a closure that runs once, and one that runs many times.
use vstd::prelude::*;

verus! {

/// A boxed closure that is called once, by value.
pub trait BoxedFnOnce<T, U>: Send {
    /// Whether the closure may be called with `arg`.
    spec fn pre(&self, arg: T) -> bool;

    /// Whether a call with `arg` may return `result`.
    spec fn post(&self, arg: T, result: U) -> bool;

    /// Calls the closure.
    fn call(self: Box<Self>, arg: T) -> (result: U)
        requires
            self.pre(arg),
        ensures
            self.post(arg, result),
    ;
}

impl<T, U, F> BoxedFnOnce<T, U> for F where F: FnOnce(T) -> U + Send {
    open spec fn pre(&self, arg: T) -> bool {
        self.requires((arg,))
    }

    open spec fn post(&self, arg: T, result: U) -> bool {
        self.ensures((arg,), result)
    }

    fn call(self: Box<Self>, arg: T) -> (result: U) {
        let func = *self;
        func(arg)
    }
}

/// A boxed closure that is called any number of times, by reference.
pub trait BoxedFn<T, U>: Send {
    /// Whether the closure may be called with `arg`.
    spec fn pre(&self, arg: T) -> bool;

    /// Whether a call with `arg` may return `result`.
    spec fn post(&self, arg: T, result: U) -> bool;

    /// Calls the closure.
    fn call(&self, arg: T) -> (result: U)
        requires
            self.pre(arg),
        ensures
            self.post(arg, result),
    ;
}

impl<T, U, F> BoxedFn<T, U> for F where F: Fn(T) -> U + Send {
    open spec fn pre(&self, arg: T) -> bool {
        self.requires((arg,))
    }

    open spec fn post(&self, arg: T, result: U) -> bool {
        self.ensures((arg,), result)
    }

    fn call(&self, arg: T) -> (result: U) {
        self(arg)
    }
}

/// A boxed closure without arguments that is called any number of times.
pub trait BoxedSignal: Send {
    /// Whether the closure may be called.
    spec fn pre(&self) -> bool;

    /// Whether a call meets what the closure ensures.
    spec fn post(&self) -> bool;

    /// Calls the closure.
    fn call(&self)
        requires
            self.pre(),
        ensures
            self.post(),
    ;
}

impl<F> BoxedSignal for F where F: Fn() + Send {
    open spec fn pre(&self) -> bool {
        self.requires(())
    }

    open spec fn post(&self) -> bool {
        self.ensures((), ())
    }

    fn call(&self) {
        self()
    }
}

/// A callback that can be called once.
#[verifier::reject_recursive_types(T)]
pub struct ActionOnce<T> {
    closure: Box<dyn BoxedFnOnce<T, ()>>,
}

impl<T: Send + 'static> ActionOnce<T> {
    /// Whether the callback may be called with `value`.
    pub closed spec fn accepts(&self, value: T) -> bool {
        self.closure.pre(value)
    }

    /// Whether a call with `value` meets what the callback's closure ensures.
    pub closed spec fn completes(&self, value: T) -> bool {
        self.closure.post(value, ())
    }

    /// Wraps a closure that is to be called once.
    pub fn new<F>(closure: F) -> (action: ActionOnce<T>) where F: FnOnce(T) + Send + 'static
        ensures
            forall|value: T| #[trigger] action.accepts(value) == closure.requires((value,)),
            forall|value: T| #[trigger] action.completes(value) == closure.ensures((value,), ()),
    {
        ActionOnce { closure: Box::new(closure) }
    }

    /// Calls the closure with `value`, and uses the callback up.
    pub fn call(self, value: T)
        requires
            self.accepts(value),
        ensures
            self.completes(value),
    {
        self.closure.call(value)
    }
}

/// A callback that can be called again and again.
#[verifier::reject_recursive_types(T)]
pub struct Action<T> {
    closure: Box<dyn BoxedFn<T, ()>>,
}

impl<T: Send + 'static> Action<T> {
    /// Whether the callback may be called with `value`.
    pub closed spec fn accepts(&self, value: T) -> bool {
        self.closure.pre(value)
    }

    /// Whether a call with `value` meets what the callback's closure ensures.
    pub closed spec fn completes(&self, value: T) -> bool {
        self.closure.post(value, ())
    }

    /// Wraps a closure that may be called many times.
    pub fn new<F>(closure: F) -> (action: Action<T>) where F: Fn(T) + Send + 'static
        ensures
            forall|value: T| #[trigger] action.accepts(value) == closure.requires((value,)),
            forall|value: T| #[trigger] action.completes(value) == closure.ensures((value,), ()),
    {
        Action { closure: Box::new(closure) }
    }

    /// Calls the closure with `value`.
    pub fn call(&self, value: T)
        requires
            self.accepts(value),
        ensures
            self.completes(value),
    {
        self.closure.call(value)
    }
}

} // verus!
