//! The error that ends the agent's start-up.

use vstd::prelude::*;
use vstd::string::StringExecFns;

verus! {

/// Anything that can go wrong while the agent hooks the process. It carries
/// a message for the operator and nothing else.
#[derive(Debug)]
pub struct HookError {
    message: String,
}

impl View for HookError {
    type V = Seq<char>;

    /// The message.
    closed spec fn view(&self) -> Seq<char> {
        self.message@
    }
}

impl HookError {
    /// An error with the message `msg`.
    pub fn new(msg: &str) -> (error: HookError)
        ensures
            error@ == msg@,
    {
        HookError { message: String::from_str(msg) }
    }

    /// An error that passes on what another component reported: the name of
    /// where it came from, a space, and the report itself.
    pub fn wrap(origin: &str, detail: &str) -> (error: HookError)
        ensures
            error@ == origin@ + " "@ + detail@,
    {
        let mut message = String::from_str(origin);
        message.append(" ");
        message.append(detail);
        HookError { message }
    }

    /// The message.
    pub fn message(&self) -> (text: &str)
        ensures
            text@ == self@,
    {
        self.message.as_str()
    }
}

} // verus!
