//! A small concurrency runtime: one-shot tasks and multi-value streams that
//! are built up declaratively and do nothing until they are driven, the
//! schedulers that drive them, and the bounded pool and queue that decide
//! which work may start.
//!
//! The library is the runtime's execution model. Every unit of work runs to
//! its end at the point where it is driven, so what a task or a stream
//! delivers is a function of its closures alone, and the contracts state it:
//! what `wait` returns, in which order a stream's values arrive, how `all`
//! aligns results with its input and how `merge` keeps every value. The
//! pool and the queue are state machines: they hand out the work that may
//! start and take the report that work has come to an end. Starting threads
//! for that work is left to the program that uses the library.
pub mod action;
pub mod channel;
pub mod event;
pub mod handle;
pub mod interval;
pub mod observable;
pub mod queue;
pub mod racer;
pub mod reading;
pub mod scheduler;
pub mod scheduling;
pub mod stream;
pub mod task;
pub mod threadpool;
