//! What handles a message on the bridge.

use crate::handlers::message::Message;
use vstd::prelude::*;

verus! {

/// Whether the handlers after this one shall see the message.
#[derive(Copy, Clone, Debug, PartialEq, Eq, Structural)]
pub enum HandleResult {
    Continue,
    Stop,
}

/// Something that handles messages. What it does with one, and whether it
/// stops it, is its own affair.
pub trait Handler {
    fn handle(&mut self, message: &Message) -> HandleResult;
}

/// What a chain does after one of its handlers has answered: it goes on to
/// the next handler unless this one stopped the message.
pub open spec fn goes_on(result: HandleResult) -> bool {
    result == HandleResult::Continue
}

impl HandleResult {
    /// Tells whether a chain goes on to its next handler after this answer.
    pub fn goes_on(self) -> (r: bool)
        ensures
            r == goes_on(self),
    {
        match self {
            HandleResult::Continue => true,
            HandleResult::Stop => false,
        }
    }
}

} // verus!
