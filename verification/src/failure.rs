//! Refusals that a person reads.
use vstd::prelude::*;

verus! {

/// A refused request, with the message that explains it, and what it comes of where something
/// else failed first.
#[derive(Debug, Clone, PartialEq, Eq)]
pub struct Failure {
    pub message: String,
    pub cause: Option<String>,
}

/// What a [`Failure`] says.
pub struct FailureView {
    pub message: Seq<char>,
    pub cause: Option<Seq<char>>,
}

impl View for Failure {
    type V = FailureView;

    open spec fn view(&self) -> FailureView {
        FailureView {
            message: self.message@,
            cause: match self.cause {
                Some(cause) => Some(cause@),
                None => None,
            },
        }
    }
}

/// A failure that comes of nothing else.
pub open spec fn said(message: Seq<char>) -> FailureView {
    FailureView { message, cause: None }
}

/// A failure that comes of another.
pub open spec fn because(message: Seq<char>, cause: Seq<char>) -> FailureView {
    FailureView { message, cause: Some(cause) }
}

/// The failure of a message, where there is one.
pub open spec fn plainly(message: Option<Seq<char>>) -> Option<FailureView> {
    match message {
        Some(m) => Some(said(m)),
        None => None,
    }
}

/// What the outside gave when it was asked for a value: the value, or what went wrong.
#[derive(Debug, Clone, PartialEq, Eq)]
pub enum Reading<T> {
    Value(T),
    Fault(String),
}

impl Failure {
    /// A failure with the given message.
    pub fn new(message: &str) -> (f: Failure)
        ensures
            f@ == said(message@),
    {
        Failure { message: message.to_owned(), cause: None }
    }

    /// A failure with the given message.
    pub fn of(message: String) -> (f: Failure)
        ensures
            f@ == said(message@),
    {
        Failure { message, cause: None }
    }

    /// A failure with the given message that comes of another.
    pub fn caused(message: String, cause: String) -> (f: Failure)
        ensures
            f@ == because(message@, cause@),
    {
        Failure { message, cause: Some(cause) }
    }

    /// The message.
    pub fn to_text(&self) -> (s: String)
        ensures
            s@ == self@.message,
    {
        self.message.clone()
    }
}

} // verus!
