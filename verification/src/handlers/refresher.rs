//! Asking the controller for its state again and again.

use crate::controller::command::Command;
use crate::controller::message::MessageBody;
use crate::handlers::message::Message;
use vstd::prelude::*;

verus! {

/// The number of seconds between two requests.
pub const REFRESH_INTERVAL_SECONDS: u64 = 10;

/// The message that asks the controller for its state: a single command to
/// refresh.
pub fn send_refresh() -> (r: Message)
    ensures
        r matches Message::SendToController(MessageBody::Command { commands }) && commands@
            == seq![Command::Refresh],
{
    let mut commands: Vec<Command> = Vec::new();
    commands.push(Command::Refresh);
    assert(commands@ =~= seq![Command::Refresh]);
    Message::SendToController(MessageBody::Command { commands })
}

} // verus!
