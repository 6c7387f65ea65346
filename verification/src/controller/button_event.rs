//! The state of a button as the controller reports it in one byte.

use vstd::prelude::*;
use vstd::std_specs::convert::FromSpecImpl;

verus! {

const VALID: u8 = 0x40;

const PRESS_END: u8 = 0x80;

const MASK: u8 = 0x1f;

/// What a byte says of a button. The number is that of the button.
#[derive(Copy, Clone, Debug, PartialEq, Eq, Structural)]
pub enum ButtonEvent {
    Invalid,
    PressStart(u8),
    PressEnd(u8),
}

/// What a byte says of a button: nothing unless bit 6 is set; then bit 7
/// tells the end of a press from its start, and the five low bits are the
/// button.
pub open spec fn button_event_of_byte(value: u8) -> ButtonEvent {
    if value & 0x40 == 0 {
        ButtonEvent::Invalid
    } else if value & 0x80 == 0 {
        ButtonEvent::PressStart(value & 0x1f)
    } else {
        ButtonEvent::PressEnd(value & 0x1f)
    }
}

/// The byte that says of a button what `event` says.
pub open spec fn button_event_byte(event: ButtonEvent) -> u8 {
    match event {
        ButtonEvent::Invalid => 0,
        ButtonEvent::PressStart(button) => 0x40u8 | (button & 0x1f),
        ButtonEvent::PressEnd(button) => 0xc0u8 | (button & 0x1f),
    }
}

/// What is said of one of the thirty-two buttons is read back from its byte.
pub proof fn lemma_button_event_round_trip(event: ButtonEvent)
    requires
        event matches ButtonEvent::PressStart(button) ==> button < 32,
        event matches ButtonEvent::PressEnd(button) ==> button < 32,
    ensures
        button_event_of_byte(button_event_byte(event)) == event,
{
    match event {
        ButtonEvent::Invalid => {
            assert(0u8 & 0x40 == 0) by (bit_vector);
        },
        ButtonEvent::PressStart(b) | ButtonEvent::PressEnd(b) => {
            assert(b < 32 ==> (0x40u8 | (b & 0x1f)) & 0x40 != 0 && (0x40u8 | (b & 0x1f)) & 0x80
                == 0 && (0x40u8 | (b & 0x1f)) & 0x1f == b && (0xc0u8 | (b & 0x1f)) & 0x40 != 0
                && (0xc0u8 | (b & 0x1f)) & 0x80 != 0 && (0xc0u8 | (b & 0x1f)) & 0x1f == b)
                by (bit_vector);
        },
    }
}

impl From<u8> for ButtonEvent {
    /// Reads what a byte says of a button.
    fn from(value: u8) -> (r: Self)
        ensures
            r == button_event_of_byte(value),
    {
        if value & VALID == 0 {
            ButtonEvent::Invalid
        } else {
            if value & PRESS_END == 0 {
                ButtonEvent::PressStart(value & MASK)
            } else {
                ButtonEvent::PressEnd(value & MASK)
            }
        }
    }
}

impl FromSpecImpl<u8> for ButtonEvent {
    open spec fn obeys_from_spec() -> bool {
        true
    }

    open spec fn from_spec(value: u8) -> Self {
        button_event_of_byte(value)
    }
}

impl<'a> From<&'a ButtonEvent> for u8 {
    /// The byte that says of a button what `value` says.
    fn from(value: &'a ButtonEvent) -> (r: u8)
        ensures
            r == button_event_byte(*value),
    {
        match value {
            ButtonEvent::Invalid => 0,
            ButtonEvent::PressStart(button) => VALID | (*button & MASK),
            ButtonEvent::PressEnd(button) => {
                assert(0x40u8 | 0x80u8 == 0xc0u8) by (bit_vector);
                VALID | PRESS_END | (*button & MASK)
            },
        }
    }
}

impl<'a> FromSpecImpl<&'a ButtonEvent> for u8 {
    open spec fn obeys_from_spec() -> bool {
        true
    }

    open spec fn from_spec(value: &'a ButtonEvent) -> u8 {
        button_event_byte(*value)
    }
}

} // verus!
