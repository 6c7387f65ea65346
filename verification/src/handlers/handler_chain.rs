//! A list of handlers that handles a message by handing it down the list.

use crate::handlers::handler::{HandleResult, Handler};
use crate::handlers::message::Message;
use vstd::prelude::*;

verus! {

/// Handlers in the order in which they see a message.
pub struct HandlerChain {
    chain: Vec<Box<dyn Handler>>,
}

/// The handlers from the place `asked` on are in the one list what they are
/// in the other.
pub open spec fn same_from(
    after: Seq<Box<dyn Handler>>,
    before: Seq<Box<dyn Handler>>,
    asked: int,
) -> bool {
    &&& after.len() == before.len()
    &&& forall|i: int| asked <= i < before.len() ==> #[trigger] after[i] == before[i]
}

/// What a chain makes of a message: it hands the message to its first
/// `asked` handlers and to no other. It goes on from handler to handler as
/// long as they let it, so it has asked them all where it lets the message
/// go on, and at least one where it stops the message. The handlers that it
/// has not asked are as they were.
pub open spec fn handed_down(
    after: Seq<Box<dyn Handler>>,
    before: Seq<Box<dyn Handler>>,
    asked: int,
    answer: HandleResult,
) -> bool {
    &&& 0 <= asked <= before.len()
    &&& same_from(after, before, asked)
    &&& answer == HandleResult::Continue ==> asked == before.len()
    &&& answer == HandleResult::Stop ==> asked > 0
}

impl HandlerChain {
    /// The handlers in the order in which they see a message.
    pub closed spec fn handlers(&self) -> Seq<Box<dyn Handler>> {
        self.chain@
    }

    /// The number of handlers.
    pub open spec fn spec_len(&self) -> nat {
        self.handlers().len()
    }

    /// The chain without handlers.
    pub fn new() -> (r: Self)
        ensures
            r.spec_len() == 0,
    {
        HandlerChain { chain: Vec::new() }
    }

    /// The number of handlers.
    pub fn len(&self) -> (n: usize)
        ensures
            n == self.spec_len(),
    {
        self.chain.len()
    }

    /// Puts a handler at the end of the chain.
    pub fn add_handler<H: Handler + 'static>(&mut self, handler: H)
        ensures
            final(self).spec_len() == old(self).spec_len() + 1,
    {
        let boxed: Box<dyn Handler> = Box::new(handler);
        let ghost before = self.chain@;
        self.chain.push(boxed);
        proof {
            vstd::seq::axiom_seq_push_len(before, boxed);
        }
    }
}

impl Default for HandlerChain {
    fn default() -> (r: Self)
        ensures
            r.spec_len() == 0,
    {
        HandlerChain::new()
    }
}

impl Handler for HandlerChain {
    /// Hands the message to the handlers in their order, up to the first
    /// that stops it. The chain stops the message if one of them does, and
    /// lets it go on if none does; so a chain without handlers lets every
    /// message go on. What a handler answers, and what becomes of it, is the
    /// handler's affair; the handlers after the one that stopped the message
    /// are not asked, and stay as they were.
    fn handle(&mut self, message: &Message) -> (r: HandleResult)
        ensures
            final(self).spec_len() == old(self).spec_len(),
            old(self).spec_len() == 0 ==> r == HandleResult::Continue,
            exists|asked: int| #[trigger]
                handed_down(final(self).handlers(), old(self).handlers(), asked, r),
    {
        let n = self.chain.len();
        let mut i: usize = 0;
        while i < n
            invariant
                i <= n,
                n == self.chain@.len(),
                same_from(self.chain@, old(self).chain@, i as int),
            decreases n - i,
        {
            let result = self.chain[i].handle(message);
            if !result.goes_on() {
                assert(handed_down(
                    self.handlers(),
                    old(self).handlers(),
                    i + 1,
                    HandleResult::Stop,
                ));
                return HandleResult::Stop;
            }
            i += 1;
        }
        assert(handed_down(
            self.handlers(),
            old(self).handlers(),
            n as int,
            HandleResult::Continue,
        ));
        HandleResult::Continue
    }
}

} // verus!
