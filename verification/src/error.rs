//! Typed error values used across the crate.

use vstd::prelude::*;
use crate::text::push_str;

verus! {

/// The crate-wide error type.
#[derive(Debug, Clone, PartialEq, Eq)]
pub enum Error {
    /// A configuration value was missing or invalid.
    Config(String),
    /// Authentication or token exchange failed.
    Auth(String),
    /// The platform returned an error response.
    Platform(String),
    /// The target node is not connected to the platform.
    NodeDisconnected,
    /// Any other error, with its message.
    Other(String),
}

/// The message an error displays.
pub open spec fn error_message(e: Error) -> Seq<char> {
    match e {
        Error::Config(m) => "configuration error: "@ + m@,
        Error::Auth(m) => "authentication error: "@ + m@,
        Error::Platform(m) => "platform error: "@ + m@,
        Error::NodeDisconnected => "the node is disconnected"@,
        Error::Other(m) => m@,
    }
}

impl Error {
    /// The human-readable message of this error.
    pub fn message(&self) -> (r: String)
        ensures
            r@ == error_message(*self),
    {
        match self {
            Error::Config(m) => {
                let mut s = String::new();
                push_str(&mut s, "configuration error: ");
                push_str(&mut s, m.as_str());
                s
            },
            Error::Auth(m) => {
                let mut s = String::new();
                push_str(&mut s, "authentication error: ");
                push_str(&mut s, m.as_str());
                s
            },
            Error::Platform(m) => {
                let mut s = String::new();
                push_str(&mut s, "platform error: ");
                push_str(&mut s, m.as_str());
                s
            },
            Error::NodeDisconnected => {
                let mut s = String::new();
                push_str(&mut s, "the node is disconnected");
                s
            },
            Error::Other(m) => m.clone(),
        }
    }
}

/// An error together with optional actionable hints.
///
/// Hints are rendered after the error message to guide the user toward a fix.
#[derive(Debug, Clone, PartialEq, Eq)]
pub struct HintedError {
    /// The underlying error.
    pub error: Error,
    /// Hints rendered, in order, after the error message.
    pub hints: Vec<String>,
}

impl HintedError {
    /// Wrap an [`Error`] with no hints.
    pub fn new(error: Error) -> (r: Self)
        ensures
            r.error == error,
            r.hints@.len() == 0,
    {
        HintedError { error, hints: Vec::new() }
    }

    /// Attach a hint, returning `self` for chaining.
    pub fn with_hint(self, hint: &str) -> (r: Self)
        ensures
            r.error == self.error,
            r.hints@.len() == self.hints@.len() + 1,
            r.hints@.take(self.hints@.len() as int) == self.hints@,
            r.hints@.last()@ == hint@,
    {
        let mut h = self;
        h.hints.push(crate::text::owned(hint));
        h
    }

    /// The error message followed by one `hint:` line per hint.
    pub fn message(&self) -> (r: String)
        ensures
            r@ == hinted_message(error_message(self.error), self.hints@.map_values(|h: String| h@)),
    {
        let mut s = self.error.message();
        let mut i: usize = 0;
        while i < self.hints.len()
            invariant
                i <= self.hints.len(),
                s@ == hinted_message(
                    error_message(self.error),
                    self.hints@.map_values(|h: String| h@).take(i as int),
                ),
            decreases self.hints.len() - i,
        {
            proof {
                let hs = self.hints@.map_values(|h: String| h@);
                assert(hs.take(i + 1).drop_last() =~= hs.take(i as int));
            }
            push_str(&mut s, "\nhint: ");
            push_str(&mut s, self.hints[i].as_str());
            i = i + 1;
        }
        proof {
            let hs = self.hints@.map_values(|h: String| h@);
            assert(hs.take(self.hints.len() as int) =~= hs);
        }
        s
    }
}

/// An error message followed by `\nhint: <hint>` for each hint.
pub open spec fn hinted_message(base: Seq<char>, hints: Seq<Seq<char>>) -> Seq<char>
    decreases hints.len(),
{
    if hints.len() == 0 {
        base
    } else {
        hinted_message(base, hints.drop_last()) + "\nhint: "@ + hints.last()
    }
}

} // verus!
