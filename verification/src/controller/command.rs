//! The commands that the host sends to the controller, one byte each.

use std::convert::TryFrom;
use vstd::prelude::*;
use vstd::std_specs::convert::{FromSpecImpl, TryFromSpecImpl};

verus! {

const COMMAND_TYPE_MASK: u8 = 0b1110_0000;

const OUTPUT_MASK: u8 = 0b0001_1111;

const REFRESH_COMMAND: u8 = 0b0010_0000;

const TOGGLE_COMMAND: u8 = 0b0100_0000;

const OFF_COMMAND: u8 = 0b1000_0000;

const ON_COMMAND: u8 = 0b1100_0000;

/// A command for the controller. The number is that of an output.
#[derive(Copy, Clone, Debug, PartialEq, Eq, Structural)]
pub enum Command {
    Refresh,
    Toggle(u8),
    Off(u8),
    On(u8),
}

/// The output is none of the controller's thirty-two.
#[derive(Copy, Clone, Debug, PartialEq, Eq, Structural)]
pub struct OutputOutOfRange;

/// The byte stands for no command.
#[derive(Copy, Clone, Debug, PartialEq, Eq, Structural)]
pub struct CommandDecodeError;

/// The byte of a command: its kind in the three high bits, its output in
/// the five low ones.
pub open spec fn command_byte(command: Command) -> u8 {
    match command {
        Command::Refresh => 0x20,
        Command::Toggle(output) => 0x40 | output,
        Command::Off(output) => 0x80 | output,
        Command::On(output) => 0xc0 | output,
    }
}

/// The command that a byte stands for, if it stands for one.
pub open spec fn command_of_byte(value: u8) -> Option<Command> {
    let output = value & 0x1f;
    let kind = value & 0xe0;
    if kind == 0x20 {
        Some(Command::Refresh)
    } else if kind == 0x40 {
        Some(Command::Toggle(output))
    } else if kind == 0x80 {
        Some(Command::Off(output))
    } else if kind == 0xc0 {
        Some(Command::On(output))
    } else {
        None
    }
}

/// The command's output, if it has one, is one of the controller's.
pub open spec fn command_in_range(command: Command) -> bool {
    match command {
        Command::Refresh => true,
        Command::Toggle(output) | Command::Off(output) | Command::On(output) => output < 32,
    }
}

/// A command for an output of the controller is read back from its byte.
pub proof fn lemma_command_round_trip(command: Command)
    requires
        command_in_range(command),
    ensures
        command_of_byte(command_byte(command)) == Some(command),
{
    match command {
        Command::Refresh => {
            assert(0x20u8 & 0xe0 == 0x20) by (bit_vector);
        },
        Command::Toggle(output) | Command::Off(output) | Command::On(output) => {
            assert(output < 32 ==> (0x40u8 | output) & 0xe0 == 0x40 && (0x40u8 | output) & 0x1f
                == output && (0x80u8 | output) & 0xe0 == 0x80 && (0x80u8 | output) & 0x1f
                == output && (0xc0u8 | output) & 0xe0 == 0xc0 && (0xc0u8 | output) & 0x1f
                == output) by (bit_vector);
        },
    }
}

/// A command that was read from a byte is for an output of the controller
/// and has that byte, unless it is `Refresh`, which forgets the low bits.
pub proof fn lemma_command_of_byte(value: u8)
    ensures
        command_of_byte(value) matches Some(command) ==> command_in_range(command) && (command
            != Command::Refresh ==> command_byte(command) == value),
{
    assert((value & 0x1f) < 32 && (value & 0xe0 == 0x40 ==> 0x40u8 | (value & 0x1f) == value)
        && (value & 0xe0 == 0x80 ==> 0x80u8 | (value & 0x1f) == value) && (value & 0xe0 == 0xc0
        ==> 0xc0u8 | (value & 0x1f) == value)) by (bit_vector);
}

impl Command {
    /// The command that asks for the state of all outputs.
    pub fn refresh() -> (r: Self)
        ensures
            r == Command::Refresh,
    {
        Command::Refresh
    }

    /// The command that toggles an output; an output from 32 on is refused.
    pub fn toggle(output: u8) -> (r: Result<Self, OutputOutOfRange>)
        ensures
            r == if output < 32 {
                Ok::<Command, OutputOutOfRange>(Command::Toggle(output))
            } else {
                Err(OutputOutOfRange)
            },
    {
        assert((output & 0x1f == output) == (output < 32)) by (bit_vector);
        let masked_output = output & OUTPUT_MASK;
        if masked_output == output {
            Ok(Command::Toggle(output))
        } else {
            Err(OutputOutOfRange)
        }
    }

    /// The command that switches an output on; an output from 32 on is
    /// refused.
    pub fn on(output: u8) -> (r: Result<Self, OutputOutOfRange>)
        ensures
            r == if output < 32 {
                Ok::<Command, OutputOutOfRange>(Command::On(output))
            } else {
                Err(OutputOutOfRange)
            },
    {
        assert((output & 0x1f == output) == (output < 32)) by (bit_vector);
        let masked_output = output & OUTPUT_MASK;
        if masked_output == output {
            Ok(Command::On(output))
        } else {
            Err(OutputOutOfRange)
        }
    }

    /// The command that switches an output off; an output from 32 on is
    /// refused.
    pub fn off(output: u8) -> (r: Result<Self, OutputOutOfRange>)
        ensures
            r == if output < 32 {
                Ok::<Command, OutputOutOfRange>(Command::Off(output))
            } else {
                Err(OutputOutOfRange)
            },
    {
        assert((output & 0x1f == output) == (output < 32)) by (bit_vector);
        let masked_output = output & OUTPUT_MASK;
        if masked_output == output {
            Ok(Command::Off(output))
        } else {
            Err(OutputOutOfRange)
        }
    }
}

impl TryFrom<u8> for Command {
    type Error = CommandDecodeError;

    /// Reads a command from its byte; a byte of no known kind is refused.
    fn try_from(value: u8) -> (r: Result<Self, CommandDecodeError>)
        ensures
            r == match command_of_byte(value) {
                Some(command) => Ok::<Command, CommandDecodeError>(command),
                None => Err(CommandDecodeError),
            },
    {
        let command_type = value & COMMAND_TYPE_MASK;
        let output = value & OUTPUT_MASK;
        if command_type == REFRESH_COMMAND {
            Ok(Command::Refresh)
        } else if command_type == TOGGLE_COMMAND {
            Ok(Command::Toggle(output))
        } else if command_type == OFF_COMMAND {
            Ok(Command::Off(output))
        } else if command_type == ON_COMMAND {
            Ok(Command::On(output))
        } else {
            Err(CommandDecodeError)
        }
    }
}

impl TryFromSpecImpl<u8> for Command {
    open spec fn obeys_try_from_spec() -> bool {
        true
    }

    open spec fn try_from_spec(value: u8) -> Result<Self, CommandDecodeError> {
        match command_of_byte(value) {
            Some(command) => Ok(command),
            None => Err(CommandDecodeError),
        }
    }
}

impl<'a> From<&'a Command> for u8 {
    /// The byte of a command.
    fn from(command: &'a Command) -> (r: u8)
        ensures
            r == command_byte(*command),
    {
        match command {
            Command::Refresh => REFRESH_COMMAND,
            Command::Toggle(output) => TOGGLE_COMMAND | *output,
            Command::Off(output) => OFF_COMMAND | *output,
            Command::On(output) => ON_COMMAND | *output,
        }
    }
}

impl<'a> FromSpecImpl<&'a Command> for u8 {
    open spec fn obeys_from_spec() -> bool {
        true
    }

    open spec fn from_spec(command: &'a Command) -> u8 {
        command_byte(*command)
    }
}

} // verus!
