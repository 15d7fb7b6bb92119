//! Errors of the message-stream operations.

use vstd::prelude::*;

use crate::text::{debug_quoted, debug_string};

verus! {

/// Why reading the message stream failed.
#[derive(Debug)]
pub enum Error {
    /// A payload that is not UTF-8, with the decoder's message.
    Utf8(String),
    /// The message bus refused a request, with its message.
    Nats(String),
}

impl Error {
    /// The text of the error: the variant's name with its message quoted,
    /// as `Debug` writes it.
    pub open spec fn text(&self) -> Seq<char> {
        match self {
            Error::Utf8(m) => "Utf8("@ + debug_quoted(m@) + ")"@,
            Error::Nats(m) => "Nats("@ + debug_quoted(m@) + ")"@,
        }
    }

    /// Writes the text of the error.
    pub fn to_string(&self) -> (r: String)
        ensures
            r@ == self.text(),
    {
        let (mut r, m) = match self {
            Error::Utf8(m) => (String::from_str("Utf8("), m),
            Error::Nats(m) => (String::from_str("Nats("), m),
        };
        let q = debug_string(m.as_str());
        r.append(q.as_str());
        r.append(")");
        r
    }
}

} // verus!
