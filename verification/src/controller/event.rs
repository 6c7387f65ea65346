//! The events that the controller reports of its inputs, one byte each.

use std::convert::TryFrom;
use vstd::prelude::*;
use vstd::std_specs::convert::{FromSpecImpl, TryFromSpecImpl};

verus! {

const FEDGE_EVENT: u8 = 0b0010_0000;

const REDGE_EVENT: u8 = 0b0110_0000;

const EVENT_TYPE_MASK: u8 = 0b1110_0000;

const INPUT_MASK: u8 = 0b0001_1111;

/// A transition of an input. The number is that of the input.
#[derive(Copy, Clone, Debug, PartialEq, Eq, Structural)]
pub enum Event {
    RisingEdge(u8),
    FallingEdge(u8),
}

/// The byte stands for no event.
#[derive(Copy, Clone, Debug, PartialEq, Eq, Structural)]
pub struct EventDecodeError;

/// The input is none of the controller's thirty-two.
#[derive(Copy, Clone, Debug, PartialEq, Eq, Structural)]
pub struct InputOutOfRange;

/// The byte of an event: its kind in the three high bits, its input in the
/// five low ones.
pub open spec fn event_byte(event: Event) -> u8 {
    match event {
        Event::RisingEdge(input) => 0x60 | input,
        Event::FallingEdge(input) => 0x20 | input,
    }
}

/// The event that a byte stands for, if it stands for one.
pub open spec fn event_of_byte(value: u8) -> Option<Event> {
    let input = value & 0x1f;
    let kind = value & 0xe0;
    if kind == 0x60 {
        Some(Event::RisingEdge(input))
    } else if kind == 0x20 {
        Some(Event::FallingEdge(input))
    } else {
        None
    }
}

/// The event's input is one of the controller's.
pub open spec fn event_in_range(event: Event) -> bool {
    match event {
        Event::RisingEdge(input) | Event::FallingEdge(input) => input < 32,
    }
}

/// An event of an input of the controller is read back from its byte.
pub proof fn lemma_event_round_trip(event: Event)
    requires
        event_in_range(event),
    ensures
        event_of_byte(event_byte(event)) == Some(event),
{
    match event {
        Event::RisingEdge(input) | Event::FallingEdge(input) => {
            assert(input < 32 ==> (0x60u8 | input) & 0xe0 == 0x60 && (0x60u8 | input) & 0x1f
                == input && (0x20u8 | input) & 0xe0 == 0x20 && (0x20u8 | input) & 0x1f == input)
                by (bit_vector);
        },
    }
}

/// An event that was read from a byte is of an input of the controller and
/// has that byte.
pub proof fn lemma_event_of_byte(value: u8)
    ensures
        event_of_byte(value) matches Some(event) ==> event_in_range(event) && event_byte(event)
            == value,
{
    assert((value & 0x1f) < 32 && (value & 0xe0 == 0x60 ==> 0x60u8 | (value & 0x1f) == value)
        && (value & 0xe0 == 0x20 ==> 0x20u8 | (value & 0x1f) == value)) by (bit_vector);
}

impl Event {
    /// A rising edge of an input; an input from 32 on is refused.
    pub fn redge(input: u8) -> (r: Result<Self, InputOutOfRange>)
        ensures
            r == if input < 32 {
                Ok::<Event, InputOutOfRange>(Event::RisingEdge(input))
            } else {
                Err(InputOutOfRange)
            },
    {
        assert((input & 0x1f == input) == (input < 32)) by (bit_vector);
        let masked_input = input & INPUT_MASK;
        if masked_input == input {
            Ok(Event::RisingEdge(input))
        } else {
            Err(InputOutOfRange)
        }
    }

    /// A falling edge of an input; an input from 32 on is refused.
    pub fn fedge(input: u8) -> (r: Result<Self, InputOutOfRange>)
        ensures
            r == if input < 32 {
                Ok::<Event, InputOutOfRange>(Event::FallingEdge(input))
            } else {
                Err(InputOutOfRange)
            },
    {
        assert((input & 0x1f == input) == (input < 32)) by (bit_vector);
        let masked_input = input & INPUT_MASK;
        if masked_input == input {
            Ok(Event::FallingEdge(input))
        } else {
            Err(InputOutOfRange)
        }
    }
}

impl TryFrom<u8> for Event {
    type Error = EventDecodeError;

    /// Reads an event from its byte; a byte of no known kind is refused.
    fn try_from(value: u8) -> (r: Result<Self, EventDecodeError>)
        ensures
            r == match event_of_byte(value) {
                Some(event) => Ok::<Event, EventDecodeError>(event),
                None => Err(EventDecodeError),
            },
    {
        let event_type = value & EVENT_TYPE_MASK;
        let input = value & INPUT_MASK;
        if event_type == REDGE_EVENT {
            Ok(Event::RisingEdge(input))
        } else if event_type == FEDGE_EVENT {
            Ok(Event::FallingEdge(input))
        } else {
            Err(EventDecodeError)
        }
    }
}

impl TryFromSpecImpl<u8> for Event {
    open spec fn obeys_try_from_spec() -> bool {
        true
    }

    open spec fn try_from_spec(value: u8) -> Result<Self, EventDecodeError> {
        match event_of_byte(value) {
            Some(event) => Ok(event),
            None => Err(EventDecodeError),
        }
    }
}

impl<'a> From<&'a Event> for u8 {
    /// The byte of an event.
    fn from(value: &'a Event) -> (r: u8)
        ensures
            r == event_byte(*value),
    {
        match value {
            Event::RisingEdge(input) => REDGE_EVENT | *input,
            Event::FallingEdge(input) => FEDGE_EVENT | *input,
        }
    }
}

impl<'a> FromSpecImpl<&'a Event> for u8 {
    open spec fn obeys_from_spec() -> bool {
        true
    }

    open spec fn from_spec(value: &'a Event) -> u8 {
        event_byte(*value)
    }
}

} // verus!
