//! The two directions of a message on the bridge.

use crate::controller::message::MessageBody;
use vstd::prelude::*;

verus! {

/// A message and the way it goes.
#[derive(Clone, Debug, PartialEq, Eq)]
pub enum Message {
    ReceivedFromController(MessageBody),
    SendToController(MessageBody),
}

} // verus!
