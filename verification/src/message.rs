//! The application record that the examples send: a numbered text.
//!
//! How a record becomes bytes is left to a codec outside this crate; the
//! package format takes whatever bytes it is given.

use vstd::prelude::*;

verus! {

/// A numbered text message.
#[derive(Debug, Clone, PartialEq, Eq)]
pub struct Message {
    /// The message's number.
    pub id: u32,
    /// The message's text.
    pub content: String,
}

impl Message {
    /// A message with the given number and text.
    pub fn new(id: u32, content: String) -> (r: Message)
        ensures
            r.id == id,
            r.content == content,
    {
        Message { id, content }
    }
}

} // verus!
