//! Failures: what went wrong, with the context it went wrong in.

use vstd::prelude::*;

use crate::text::{join, joined, Text};

verus! {

/// A failure as a chain of messages. The first is the outermost context, the
/// last is the cause.
pub struct Failure {
    pub messages: Vec<String>,
}

impl View for Failure {
    type V = Seq<Text>;

    open spec fn view(&self) -> Seq<Text> {
        self.messages.deep_view()
    }
}

impl DeepView for Failure {
    type V = Seq<Text>;

    open spec fn deep_view(&self) -> Seq<Text> {
        self@
    }
}

/// What a fallible operation gives, over views: a value or a chain of messages.
pub type Outcome<T> = Result<T, Seq<Text>>;

/// The view of a result.
pub open spec fn outcome<T: DeepView>(r: Result<T, Failure>) -> Outcome<T::V> {
    match r {
        Ok(v) => Ok(v.deep_view()),
        Err(e) => Err(e@),
    }
}

/// The chain with one message.
pub open spec fn failed(message: Text) -> Seq<Text> {
    seq![message]
}

/// The chain `cause` inside the context `message`.
pub open spec fn wrapped(message: Text, cause: Seq<Text>) -> Seq<Text> {
    seq![message] + cause
}

/// `r`, with its failure put into the context `message`.
pub open spec fn contextual<T>(r: Outcome<T>, message: Text) -> Outcome<T> {
    match r {
        Ok(v) => Ok(v),
        Err(e) => Err(wrapped(message, e)),
    }
}

/// A failure with one message.
pub fn fail(message: &str) -> (r: Failure)
    ensures
        r@ == failed(message@),
{
    let mut messages: Vec<String> = Vec::new();
    messages.push(message.to_owned());
    let r = Failure { messages };
    assert(r@ =~= failed(message@));
    r
}

impl Failure {
    /// This failure inside the context `message`.
    pub fn within(self, message: &str) -> (r: Failure)
        ensures
            r@ == wrapped(message@, self@),
    {
        let ghost before = self.messages.deep_view();
        let mut messages: Vec<String> = self.messages;
        messages.insert(0, message.to_owned());
        let r = Failure { messages };
        assert(r@ =~= wrapped(message@, before));
        r
    }

    /// The whole chain on one line, its messages separated by colons.
    pub fn chain_text(&self) -> (r: String)
        ensures
            r@ == joined(self@, ": "@),
    {
        join(&self.messages, ": ")
    }
}

/// `r`, with its failure put into the context `message`.
pub fn context<T: DeepView>(r: Result<T, Failure>, message: &str) -> (out: Result<T, Failure>)
    ensures
        outcome(out) == contextual(outcome(r), message@),
{
    match r {
        Ok(v) => Ok(v),
        Err(e) => Err(e.within(message)),
    }
}

} // verus!
