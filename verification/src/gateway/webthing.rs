//! The gateway as a collection of web things: when the turn of a button
//! counts as a press.

use vstd::prelude::*;
use vstd::string::StringExecFns;

verus! {

/// A button counts as pressed if it is let go less than this many
/// milliseconds after it was pushed.
pub const PRESS_MILLIS: u64 = 500;

/// The event that tells that a button was pressed. It has a name and no
/// data.
#[derive(Clone, Debug, PartialEq, Eq)]
pub struct PressedEvent {
    name: String,
}

impl PressedEvent {
    /// The event, named `pressed`.
    pub fn new() -> (r: PressedEvent)
        ensures
            r.spec_name() == "pressed"@,
    {
        PressedEvent { name: String::from_str("pressed") }
    }

    /// The name of the event.
    pub closed spec fn spec_name(&self) -> Seq<char> {
        self.name@
    }

    /// The name of the event.
    pub fn get_name(&self) -> (r: String)
        ensures
            r@ == self.spec_name(),
    {
        self.name.clone()
    }
}

/// What was last heard of a button: when, in milliseconds, and whether it
/// was pushed.
#[derive(Copy, Clone, Debug, PartialEq, Eq, Structural)]
pub struct ButtonState {
    pub at: u64,
    pub pushed: bool,
}

/// A button was pressed if it is let go now, was pushed when last heard
/// of, and that is less than half a second ago.
pub open spec fn is_press(last: Option<ButtonState>, now: u64, pushed: bool) -> bool {
    last matches Some(state) && state.pushed && !pushed && state.at <= now && now - state.at
        < PRESS_MILLIS
}

/// Takes what is heard of a button now; tells whether the button was
/// pressed, and what was last heard of it from now on.
pub fn button_heard(last: Option<ButtonState>, now: u64, pushed: bool) -> (r: (bool, ButtonState))
    ensures
        r.0 == is_press(last, now, pushed),
        r.1 == (ButtonState { at: now, pushed }),
{
    let pressed = match last {
        Some(state) => state.pushed && !pushed && state.at <= now && now - state.at < PRESS_MILLIS,
        None => false,
    };
    (pressed, ButtonState { at: now, pushed })
}

} // verus!
