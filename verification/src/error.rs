//! Why a resume did not hand back a state.

use vstd::prelude::*;
use vstd::string::*;

verus! {

/// What a panicking coroutine body left behind.
///
/// A panic carries an arbitrary value; the scheduler only ever reads the
/// message of one, so that is all that is kept.
#[derive(Debug, PartialEq)]
pub enum Payload {
    /// The panic carried a string.
    Message(String),
    /// The panic carried something that is not a string.
    Opaque,
}

/// The text that stands for a payload that is not a string.
pub open spec fn opaque_text() -> Seq<char> {
    "Box<Any>"@
}

impl Payload {
    /// The message of the panic as it appears in diagnostics.
    pub open spec fn text(&self) -> Seq<char> {
        match self {
            Payload::Message(s) => s@,
            Payload::Opaque => opaque_text(),
        }
    }

    /// The message of the panic, or `Box<Any>` where it carried no string.
    pub fn message(&self) -> (r: &str)
        ensures
            r@ == self.text(),
    {
        match self {
            Payload::Message(s) => s.as_str(),
            Payload::Opaque => "Box<Any>",
        }
    }
}

/// Why a resume failed.
#[derive(Debug, PartialEq)]
pub enum Error {
    /// The coroutine had already run to completion.
    Finished,
    /// The coroutine panicked during an earlier resume.
    Panicked,
    /// The coroutine panicked during this very resume; delivered once.
    Panicking(Payload),
    /// The coroutine is itself in the middle of resuming another one.
    Waiting,
}

impl Error {
    /// The short, fixed name of each kind of error.
    pub open spec fn description_text(&self) -> Seq<char> {
        match self {
            Error::Finished => "Finished"@,
            Error::Panicked => "Panicked"@,
            Error::Panicking(_) => "Panicking(..)"@,
            Error::Waiting => "Waiting"@,
        }
    }

    /// The name of the error followed, for a fresh panic, by its message in
    /// parentheses.
    pub open spec fn detail_text(&self) -> Seq<char> {
        match self {
            Error::Finished => "Finished"@,
            Error::Panicked => "Panicked"@,
            Error::Panicking(p) => "Panicking("@ + p.text() + ")"@,
            Error::Waiting => "Waiting"@,
        }
    }

    /// A short description that does not depend on the payload.
    pub fn description(&self) -> (r: &'static str)
        ensures
            r@ == self.description_text(),
    {
        match self {
            Error::Finished => "Finished",
            Error::Panicked => "Panicked",
            Error::Panicking(_) => "Panicking(..)",
            Error::Waiting => "Waiting",
        }
    }

    /// The error written out in full, a fresh panic with its message.
    pub fn detail(&self) -> (r: String)
        ensures
            r@ == self.detail_text(),
    {
        match self {
            Error::Panicking(p) => {
                let mut out = String::from_str("Panicking(");
                out.append(p.message());
                out.append(")");
                out
            },
            _ => String::from_str(self.description()),
        }
    }

    /// Whether the error carries the payload of a panic.
    pub fn carries_panic(&self) -> (r: bool)
        ensures
            r == (self is Panicking),
    {
        match self {
            Error::Panicking(_) => true,
            _ => false,
        }
    }
}

} // verus!
