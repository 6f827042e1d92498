//! The errors that a caller of the store can meet.

use vstd::prelude::*;
use vstd::string::*;

verus! {

/// Why a request to the store failed.
#[derive(Debug, PartialEq, Eq)]
pub enum StoreError {
    /// The storage engine failed to open, read or write. The text is the
    /// engine's own account of the failure.
    Engine(String),
    /// The store has stopped: it takes no further commands, and a request
    /// that was still waiting will never be answered.
    ChannelClosed,
}

/// The result of a request to the store.
pub type StoreResult<T> = Result<T, StoreError>;

impl Clone for StoreError {
    /// A copy of the error: the same kind, with the same text.
    fn clone(&self) -> (copy: Self)
        ensures
            copy == *self,
    {
        match self {
            StoreError::Engine(message) => StoreError::Engine(message.clone()),
            StoreError::ChannelClosed => StoreError::ChannelClosed,
        }
    }
}

impl StoreError {
    /// The text that describes the error.
    pub open spec fn text(&self) -> Seq<char> {
        match self {
            StoreError::Engine(message) => "storage engine: "@ + message@,
            StoreError::ChannelClosed => "store is closed"@,
        }
    }

    /// A line of text that describes the error.
    pub fn message(&self) -> (line: String)
        ensures
            line@ == self.text(),
    {
        match self {
            StoreError::Engine(message) => {
                let mut line = String::from_str("storage engine: ");
                line.append(message.as_str());
                line
            },
            StoreError::ChannelClosed => String::from_str("store is closed"),
        }
    }
}

/// What a caller gets whose reply slot may have been dropped unanswered: the
/// answer where there is one, and `ChannelClosed` where the store went away
/// first.
pub fn settle<T>(answer: Option<StoreResult<T>>) -> (outcome: StoreResult<T>)
    ensures
        outcome == match answer {
            Some(given) => given,
            None => Err(StoreError::ChannelClosed),
        },
{
    match answer {
        Some(given) => given,
        None => Err(StoreError::ChannelClosed),
    }
}

} // verus!
