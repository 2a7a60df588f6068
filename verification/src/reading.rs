//! The decisions of a reader that pumps a byte source into events: whether a
//! read loop is to start, and what each read amounts to.
use vstd::prelude::*;

verus! {

/// An error with a message for the listener.
#[derive(Clone, Debug)]
pub struct Error {
    message: String,
}

impl View for Error {
    type V = Seq<char>;

    /// The message.
    closed spec fn view(&self) -> Seq<char> {
        self.message@
    }
}

impl Error {
    /// An error that carries `message`.
    pub fn new(message: &'static str) -> (error: Error)
        ensures
            error@ == message@,
    {
        Error { message: message.to_owned() }
    }

    /// The message of this error.
    pub fn message(&self) -> (message: &str)
        ensures
            message@ == self@,
    {
        self.message.as_str()
    }
}

/// What one read from the source amounts to.
pub enum ReadStep {
    /// The source gave these bytes, at least one: they go to the listeners
    /// for data.
    Data(Vec<u8>),
    /// The source is at its end.
    End,
    /// The read failed.
    Failed(Error),
}

/// Whether a reader is reading. A reader starts out idle; the first resume
/// starts its read loop, and the loop goes on until a pause, the end of the
/// source or a failed read.
pub struct Reading {
    reading: bool,
}

impl Reading {
    /// Whether the read loop is meant to go on.
    pub closed spec fn is_reading(&self) -> bool {
        self.reading
    }

    /// A reader that is idle.
    pub fn new() -> (state: Reading)
        ensures
            !state.is_reading(),
    {
        Reading { reading: false }
    }

    /// Whether the read loop is meant to go on: asked after each chunk has
    /// been handed to the listeners.
    pub fn reading(&self) -> (reading: bool)
        ensures
            reading == self.is_reading(),
    {
        self.reading
    }

    /// Stops the read loop after the read in progress.
    pub fn pause(&mut self)
        ensures
            !final(self).is_reading(),
    {
        self.reading = false;
    }

    /// Asks for reading to go on, and says whether a read loop has to be
    /// started: it has when the reader was idle.
    pub fn resume(&mut self) -> (start: bool)
        ensures
            final(self).is_reading(),
            start == !old(self).is_reading(),
    {
        if !self.reading {
            self.reading = true;
            true
        } else {
            false
        }
    }

    /// Says what a read amounts to: bytes are data, no bytes are the end of
    /// the source, and a failed read is reported with its message.
    pub fn classify(result: Result<Vec<u8>, ()>) -> (step: ReadStep)
        ensures
            match result {
                Ok(bytes) => if bytes@.len() > 0 {
                    step == ReadStep::Data(bytes)
                } else {
                    step is End
                },
                Err(_) => step is Failed && step->Failed_0@ == "error reading from the socket"@,
            },
    {
        match result {
            Ok(bytes) => {
                if bytes.len() > 0 {
                    ReadStep::Data(bytes)
                } else {
                    ReadStep::End
                }
            },
            Err(_) => ReadStep::Failed(Error::new("error reading from the socket")),
        }
    }
}

} // verus!
