//! The messages of the serial link: two bytes of checksum, one byte that
//! tells the kind of message, and a body of at most 125 bytes.

use crate::checksum::{checksum_xmodem, crc16_xmodem};
use crate::controller::command::{command_byte, command_of_byte, Command, CommandDecodeError};
use crate::controller::event::{event_byte, event_of_byte, Event, EventDecodeError};
use crate::controller::program_header::{
    has_magic, header_bytes, header_of_bytes, ProgramHeader, ProgramHeaderDecodeError,
};
use std::convert::TryFrom;
use std::string::FromUtf8Error;
use vstd::prelude::*;
use vstd::std_specs::convert::{FromSpecImpl, TryFromSpecImpl};
use vstd::utf8::{encode_utf8, valid_utf8};

verus! {

/// The number of bytes before the body of a message.
pub const MESSAGE_HEADER_LENGTH: usize = 3;

/// The least number of bytes of a message.
pub const MIN_MESSAGE_LENGTH: usize = 3;

/// The largest number of bytes of a message.
pub const MAX_MESSAGE_LENGTH: usize = 128;

/// The largest number of bytes of the body of a message.
pub const MAX_MESSAGE_BODY_LENGTH: usize = 125;

/// The error with which `String::from_utf8` refuses bytes.
#[verifier::external_type_specification]
#[verifier::external_body]
pub struct ExFromUtf8Error(FromUtf8Error);

/// Why bytes were refused as a message.
#[derive(Debug, PartialEq, Eq)]
pub enum MessageDecodingError {
    SizeTooSmall { actual_size: usize },
    SizeTooLarge { actual_size: usize },
    CrcError,
    UnknownType { type_byte: u8 },
    EventDecodeError(EventDecodeError),
    CommandDecodeError(CommandDecodeError),
    FromUtf8Error(FromUtf8Error),
    ProgramHeaderDecodeError(ProgramHeaderDecodeError),
}

/// What a message says.
#[derive(Clone, Debug, PartialEq, Eq)]
pub enum MessageBody {
    Update { outputs: u32, events: Vec<Event> },
    Command { commands: Vec<Command> },
    Fail { message: String },
    Info { message: String },
    ProgramStart { header: ProgramHeader },
    ProgramStartAck { header: ProgramHeader },
    ProgramData { code: Vec<u8> },
    ProgramEnd { code: Vec<u8> },
    ProgramEndAck { header: ProgramHeader },
}

/// A message with the checksum of its kind and body.
#[derive(Clone, Debug, PartialEq, Eq)]
pub struct Message {
    pub crc: u16,
    pub body: MessageBody,
}

/// The four bytes of a number, the highest first.
pub open spec fn be32(x: u32) -> Seq<u8> {
    seq![
        (x / 0x100_0000) as u8,
        ((x / 0x1_0000) % 256) as u8,
        ((x / 0x100) % 256) as u8,
        (x % 256) as u8,
    ]
}

/// The number that four bytes stand for, the highest first.
pub open spec fn from_be32(b0: u8, b1: u8, b2: u8, b3: u8) -> u32 {
    (b0 * 0x100_0000 + b1 * 0x1_0000 + b2 * 0x100 + b3) as u32
}

/// The bytes of a list of events.
pub open spec fn event_bytes(events: Seq<Event>) -> Seq<u8> {
    Seq::new(events.len(), |i: int| event_byte(events[i]))
}

/// The bytes of a list of commands.
pub open spec fn command_bytes(commands: Seq<Command>) -> Seq<u8> {
    Seq::new(commands.len(), |i: int| command_byte(commands[i]))
}

/// The byte that tells the kind of a message.
pub open spec fn start_byte_of(body: MessageBody) -> u8 {
    match body {
        MessageBody::Update { .. } => 0x75,
        MessageBody::Command { .. } => 0x63,
        MessageBody::Fail { .. } => 0x46,
        MessageBody::Info { .. } => 0x49,
        MessageBody::ProgramStart { .. } => 0x73,
        MessageBody::ProgramStartAck { .. } => 0x53,
        MessageBody::ProgramData { .. } => 0x64,
        MessageBody::ProgramEnd { .. } => 0x65,
        MessageBody::ProgramEndAck { .. } => 0x45,
    }
}

/// The bytes of the body of a message.
pub open spec fn body_bytes(body: MessageBody) -> Seq<u8> {
    match body {
        MessageBody::Update { outputs, events } => be32(outputs) + event_bytes(events@),
        MessageBody::Command { commands } => command_bytes(commands@),
        MessageBody::Fail { message } | MessageBody::Info { message } => encode_utf8(message@),
        MessageBody::ProgramStart { header }
        | MessageBody::ProgramStartAck { header }
        | MessageBody::ProgramEndAck { header } => header_bytes(header),
        MessageBody::ProgramData { code } | MessageBody::ProgramEnd { code } => code@,
    }
}

/// The checksum of a message: that of the byte of its kind and its body.
pub open spec fn body_crc(body: MessageBody) -> u16 {
    crc16_xmodem(seq![start_byte_of(body)] + body_bytes(body))
}

/// The bytes of a message: checksum, kind, body.
pub open spec fn message_bytes(message: Message) -> Seq<u8> {
    seq![(message.crc / 256) as u8, (message.crc % 256) as u8, start_byte_of(message.body)]
        + body_bytes(message.body)
}

/// Every byte stands for an event.
pub open spec fn all_events(bytes: Seq<u8>) -> bool {
    forall|i: int| 0 <= i < bytes.len() ==> event_of_byte(#[trigger] bytes[i]) is Some
}

/// Every byte stands for a command.
pub open spec fn all_commands(bytes: Seq<u8>) -> bool {
    forall|i: int| 0 <= i < bytes.len() ==> command_of_byte(#[trigger] bytes[i]) is Some
}

/// The events are those that the bytes stand for.
pub open spec fn events_of(events: Seq<Event>, bytes: Seq<u8>) -> bool {
    events.len() == bytes.len() && forall|i: int|
        0 <= i < bytes.len() ==> event_of_byte(bytes[i]) == Some(#[trigger] events[i])
}

/// The commands are those that the bytes stand for.
pub open spec fn commands_of(commands: Seq<Command>, bytes: Seq<u8>) -> bool {
    commands.len() == bytes.len() && forall|i: int|
        0 <= i < bytes.len() ==> command_of_byte(bytes[i]) == Some(#[trigger] commands[i])
}

/// The body is what the bytes `body` say in a message of the kind `kind`,
/// or the error is why they say nothing.
///
/// An update holds the outputs in four bytes and then one byte for each
/// event. A command message holds one byte for each command. `Fail` and
/// `Info` hold a text in UTF-8. The three messages about a program's header
/// hold the eight bytes of a header. `ProgramData` and `ProgramEnd` hold
/// bytes of a program as they are. A kind that is not known, an update of
/// fewer than four bytes and a header message of other than eight bytes are
/// refused as of unknown type.
pub open spec fn is_body_of(
    result: Result<MessageBody, MessageDecodingError>,
    kind: u8,
    body: Seq<u8>,
) -> bool {
    if kind == 0x75 && body.len() >= 4 {
        if all_events(body.skip(4)) {
            result matches Ok(MessageBody::Update { outputs, events }) && outputs == from_be32(
                body[0],
                body[1],
                body[2],
                body[3],
            ) && events_of(events@, body.skip(4))
        } else {
            result == Err::<MessageBody, MessageDecodingError>(
                MessageDecodingError::EventDecodeError(EventDecodeError),
            )
        }
    } else if kind == 0x63 {
        if all_commands(body) {
            result matches Ok(MessageBody::Command { commands }) && commands_of(commands@, body)
        } else {
            result == Err::<MessageBody, MessageDecodingError>(
                MessageDecodingError::CommandDecodeError(CommandDecodeError),
            )
        }
    } else if kind == 0x46 {
        if valid_utf8(body) {
            result matches Ok(MessageBody::Fail { message }) && encode_utf8(message@) == body
        } else {
            result matches Err(MessageDecodingError::FromUtf8Error(_))
        }
    } else if kind == 0x49 {
        if valid_utf8(body) {
            result matches Ok(MessageBody::Info { message }) && encode_utf8(message@) == body
        } else {
            result matches Err(MessageDecodingError::FromUtf8Error(_))
        }
    } else if (kind == 0x73 || kind == 0x53 || kind == 0x45) && body.len() == 8 {
        if has_magic(body) {
            let header = header_of_bytes(body);
            result == Ok::<MessageBody, MessageDecodingError>(
                if kind == 0x73 {
                    MessageBody::ProgramStart { header }
                } else if kind == 0x53 {
                    MessageBody::ProgramStartAck { header }
                } else {
                    MessageBody::ProgramEndAck { header }
                },
            )
        } else {
            result matches Err(
                MessageDecodingError::ProgramHeaderDecodeError(
                    ProgramHeaderDecodeError::IncorrectPrefix { actual_prefix },
                ),
            ) && actual_prefix@ == body.subrange(0, 4)
        }
    } else if kind == 0x64 {
        result matches Ok(MessageBody::ProgramData { code }) && code@ == body
    } else if kind == 0x65 {
        result matches Ok(MessageBody::ProgramEnd { code }) && code@ == body
    } else {
        result == Err::<MessageBody, MessageDecodingError>(
            MessageDecodingError::UnknownType { type_byte: kind },
        )
    }
}

/// The result is the message that the bytes stand for, or the error is why
/// they stand for none. The size is judged first, then the checksum of all
/// that follows it, then the body.
pub open spec fn is_message_of(result: Result<Message, MessageDecodingError>, bytes: Seq<u8>)
    -> bool {
    if bytes.len() < MIN_MESSAGE_LENGTH {
        result == Err::<Message, MessageDecodingError>(
            MessageDecodingError::SizeTooSmall { actual_size: bytes.len() as usize },
        )
    } else if bytes.len() > MAX_MESSAGE_LENGTH {
        result == Err::<Message, MessageDecodingError>(
            MessageDecodingError::SizeTooLarge { actual_size: bytes.len() as usize },
        )
    } else if crc16_xmodem(bytes.skip(2)) != (bytes[0] * 256 + bytes[1]) as u16 {
        result == Err::<Message, MessageDecodingError>(MessageDecodingError::CrcError)
    } else {
        match result {
            Ok(message) => message.crc == (bytes[0] * 256 + bytes[1]) as u16 && is_body_of(
                Ok(message.body),
                bytes[2],
                bytes.skip(3),
            ),
            Err(e) => is_body_of(Err(e), bytes[2], bytes.skip(3)),
        }
    }
}

/// Calls `String::from_utf8`. As its documentation says, the bytes are
/// accepted exactly if they are UTF-8, and they become the text's bytes.
#[verifier::external_body]
fn string_from_utf8(bytes: Vec<u8>) -> (r: Result<String, FromUtf8Error>)
    ensures
        r is Ok <==> valid_utf8(bytes@),
        r matches Ok(text) ==> encode_utf8(text@) == bytes@,
{
    String::from_utf8(bytes)
}

impl Message {
    /// The message that says `body`, with its checksum.
    pub fn new(body: MessageBody) -> (r: Self)
        ensures
            r.body == body,
            r.crc == body_crc(body),
    {
        Message { crc: body.crc(), body }
    }

    /// The number of bytes before the body of a message.
    pub fn message_header_length() -> (n: usize)
        ensures
            n == MESSAGE_HEADER_LENGTH,
    {
        MESSAGE_HEADER_LENGTH
    }

    /// The largest number of bytes of a message.
    pub fn max_message_length() -> (n: usize)
        ensures
            n == MAX_MESSAGE_LENGTH,
    {
        MAX_MESSAGE_LENGTH
    }

    /// The largest number of bytes of the body of a message.
    pub fn max_message_body_length() -> (n: usize)
        ensures
            n == MAX_MESSAGE_BODY_LENGTH,
            n == MAX_MESSAGE_LENGTH - MESSAGE_HEADER_LENGTH,
    {
        MAX_MESSAGE_BODY_LENGTH
    }

    /// The bytes of the message: checksum, kind, body.
    pub fn to_bytes(&self) -> (bytes: Vec<u8>)
        ensures
            bytes@ == message_bytes(*self),
    {
        let mut result: Vec<u8> = Vec::new();
        result.push((self.crc / 256) as u8);
        result.push((self.crc % 256) as u8);
        result.push(self.body.start_byte());
        let mut body = self.body.to_bytes();
        let ghost head = result@;
        let ghost tail = body@;
        result.append(&mut body);
        assert(result@ =~= head + tail);
        assert(result@ =~= message_bytes(*self));
        result
    }

    /// Reads a message from its bytes.
    pub fn from_bytes(message_bytes: &[u8]) -> (r: Result<Message, MessageDecodingError>)
        ensures
            is_message_of(r, message_bytes@),
    {
        let n = message_bytes.len();
        if n < MIN_MESSAGE_LENGTH {
            return Err(MessageDecodingError::SizeTooSmall { actual_size: n });
        }
        if n > MAX_MESSAGE_LENGTH {
            return Err(MessageDecodingError::SizeTooLarge { actual_size: n });
        }
        let read_crc: u16 = (message_bytes[0] as u16) * 256 + (message_bytes[1] as u16);
        let type_byte = message_bytes[2];
        let checked = vstd::slice::slice_subrange(message_bytes, 2, n);
        assert(checked@ =~= message_bytes@.skip(2));
        if checksum_xmodem(checked) != read_crc {
            return Err(MessageDecodingError::CrcError);
        }
        let body = vstd::slice::slice_subrange(message_bytes, MESSAGE_HEADER_LENGTH, n);
        assert(body@ =~= message_bytes@.skip(3));
        match MessageBody::from_bytes(type_byte, body) {
            Ok(body) => Ok(Message { crc: read_crc, body }),
            Err(e) => Err(e),
        }
    }
}

impl MessageBody {
    /// The byte that tells the kind of the message.
    pub fn start_byte(&self) -> (b: u8)
        ensures
            b == start_byte_of(*self),
    {
        match self {
            MessageBody::Update { .. } => 0x75,
            MessageBody::Command { .. } => 0x63,
            MessageBody::Fail { .. } => 0x46,
            MessageBody::Info { .. } => 0x49,
            MessageBody::ProgramStart { .. } => 0x73,
            MessageBody::ProgramStartAck { .. } => 0x53,
            MessageBody::ProgramData { .. } => 0x64,
            MessageBody::ProgramEnd { .. } => 0x65,
            MessageBody::ProgramEndAck { .. } => 0x45,
        }
    }

    /// The checksum of the message: that of the byte of its kind and its
    /// body.
    pub fn crc(&self) -> (crc: u16)
        ensures
            crc == body_crc(*self),
    {
        let mut checked: Vec<u8> = Vec::new();
        checked.push(self.start_byte());
        let mut body = self.to_bytes();
        let ghost head = checked@;
        let ghost tail = body@;
        checked.append(&mut body);
        assert(checked@ =~= head + tail);
        checksum_xmodem(checked.as_slice())
    }

    /// The bytes of the body.
    pub fn to_bytes(&self) -> (bytes: Vec<u8>)
        ensures
            bytes@ == body_bytes(*self),
    {
        match self {
            MessageBody::Update { events, outputs } => {
                let mut result: Vec<u8> = Vec::new();
                result.push((*outputs / 0x100_0000) as u8);
                result.push(((*outputs / 0x1_0000) % 256) as u8);
                result.push(((*outputs / 0x100) % 256) as u8);
                result.push((*outputs % 256) as u8);
                let n = events.len();
                let mut i: usize = 0;
                while i < n
                    invariant
                        i <= n,
                        n == events@.len(),
                        result@.len() == 4 + i,
                        result@.subrange(0, 4) == be32(*outputs),
                        forall|j: int| 0 <= j < i ==> result@[4 + j] == event_byte(events@[j]),
                    decreases n - i,
                {
                    let ghost before = result@;
                    result.push(u8::from(&events[i]));
                    assert(result@.subrange(0, 4) =~= before.subrange(0, 4));
                    i += 1;
                }
                assert(result@ =~= be32(*outputs) + event_bytes(events@));
                result
            },
            MessageBody::Command { commands } => {
                let mut result: Vec<u8> = Vec::new();
                let n = commands.len();
                let mut i: usize = 0;
                while i < n
                    invariant
                        i <= n,
                        n == commands@.len(),
                        result@.len() == i,
                        forall|j: int| 0 <= j < i ==> result@[j] == command_byte(commands@[j]),
                    decreases n - i,
                {
                    result.push(u8::from(&commands[i]));
                    i += 1;
                }
                assert(result@ =~= command_bytes(commands@));
                result
            },
            MessageBody::Fail { message } | MessageBody::Info { message } => {
                vstd::slice::slice_to_vec(message.as_str().as_bytes())
            },
            MessageBody::ProgramStart { header }
            | MessageBody::ProgramStartAck { header }
            | MessageBody::ProgramEndAck { header } => {
                let bytes = header.to_bytes();
                let mut result: Vec<u8> = Vec::new();
                let mut i: usize = 0;
                while i < 8
                    invariant
                        i <= 8,
                        bytes@ == header_bytes(*header),
                        result@ == bytes@.subrange(0, i as int),
                    decreases 8 - i,
                {
                    result.push(bytes[i]);
                    assert(result@ =~= bytes@.subrange(0, i as int + 1));
                    i += 1;
                }
                assert(result@ =~= bytes@);
                result
            },
            MessageBody::ProgramData { code } | MessageBody::ProgramEnd { code } => code.clone(),
        }
    }

    /// Reads the body of a message of the kind `type_byte`.
    pub fn from_bytes(type_byte: u8, body: &[u8]) -> (r: Result<
        MessageBody,
        MessageDecodingError,
    >)
        ensures
            is_body_of(r, type_byte, body@),
    {
        let n = body.len();
        if type_byte == 0x75 && n >= 4 {
            let outputs: u32 = (body[0] as u32) * 0x100_0000 + (body[1] as u32) * 0x1_0000 + (
            body[2] as u32) * 0x100 + (body[3] as u32);
            let mut events: Vec<Event> = Vec::new();
            let mut i: usize = 4;
            let ghost rest = body@.skip(4);
            while i < n
                invariant
                    4 <= i <= n,
                    n == body@.len(),
                    type_byte == 0x75,
                    rest == body@.skip(4),
                    events@.len() == i - 4,
                    forall|j: int|
                        0 <= j < i - 4 ==> event_of_byte(#[trigger] rest[j]) == Some(events@[j]),
                decreases n - i,
            {
                assert(rest[i - 4] == body@[i as int]);
                match Event::try_from(body[i]) {
                    Ok(e) => {
                        events.push(e);
                    },
                    Err(e) => {
                        assert(event_of_byte(rest[i - 4]) is None);
                        return Err(MessageDecodingError::EventDecodeError(e));
                    },
                }
                i += 1;
            }
            Ok(MessageBody::Update { outputs, events })
        } else if type_byte == 0x63 {
            let mut commands: Vec<Command> = Vec::new();
            let mut i: usize = 0;
            while i < n
                invariant
                    i <= n,
                    n == body@.len(),
                    type_byte == 0x63,
                    commands@.len() == i,
                    forall|j: int|
                        0 <= j < i ==> command_of_byte(#[trigger] body@[j]) == Some(commands@[j]),
                decreases n - i,
            {
                match Command::try_from(body[i]) {
                    Ok(c) => {
                        commands.push(c);
                    },
                    Err(e) => {
                        assert(command_of_byte(body@[i as int]) is None);
                        return Err(MessageDecodingError::CommandDecodeError(e));
                    },
                }
                i += 1;
            }
            Ok(MessageBody::Command { commands })
        } else if type_byte == 0x46 {
            match string_from_utf8(vstd::slice::slice_to_vec(body)) {
                Ok(message) => Ok(MessageBody::Fail { message }),
                Err(e) => Err(MessageDecodingError::FromUtf8Error(e)),
            }
        } else if type_byte == 0x49 {
            match string_from_utf8(vstd::slice::slice_to_vec(body)) {
                Ok(message) => Ok(MessageBody::Info { message }),
                Err(e) => Err(MessageDecodingError::FromUtf8Error(e)),
            }
        } else if (type_byte == 0x73 || type_byte == 0x53 || type_byte == 0x45) && n
            == 8 {
            match ProgramHeader::try_from(body) {
                Ok(header) => Ok(
                    if type_byte == 0x73 {
                        MessageBody::ProgramStart { header }
                    } else if type_byte == 0x53 {
                        MessageBody::ProgramStartAck { header }
                    } else {
                        MessageBody::ProgramEndAck { header }
                    },
                ),
                Err(e) => Err(MessageDecodingError::ProgramHeaderDecodeError(e)),
            }
        } else if type_byte == 0x64 {
            Ok(MessageBody::ProgramData { code: vstd::slice::slice_to_vec(body) })
        } else if type_byte == 0x65 {
            Ok(MessageBody::ProgramEnd { code: vstd::slice::slice_to_vec(body) })
        } else {
            Err(MessageDecodingError::UnknownType { type_byte })
        }
    }
}

impl<'a> TryFrom<&'a [u8]> for Message {
    type Error = MessageDecodingError;

    /// Reads a message from its bytes, as `Message::from_bytes` does.
    fn try_from(message_bytes: &'a [u8]) -> (r: Result<Self, MessageDecodingError>)
        ensures
            is_message_of(r, message_bytes@),
    {
        Message::from_bytes(message_bytes)
    }
}

impl<'a> TryFromSpecImpl<&'a [u8]> for Message {
    open spec fn obeys_try_from_spec() -> bool {
        false
    }

    open spec fn try_from_spec(message_bytes: &'a [u8]) -> Result<Self, MessageDecodingError> {
        arbitrary()
    }
}

impl<'a> From<&'a Message> for Vec<u8> {
    /// The bytes of a message, as `Message::to_bytes` gives them.
    fn from(message: &'a Message) -> (bytes: Vec<u8>)
        ensures
            bytes@ == message_bytes(*message),
    {
        message.to_bytes()
    }
}

impl<'a> FromSpecImpl<&'a Message> for Vec<u8> {
    open spec fn obeys_from_spec() -> bool {
        false
    }

    open spec fn from_spec(message: &'a Message) -> Vec<u8> {
        arbitrary()
    }
}

impl<'a> From<&'a MessageBody> for Vec<u8> {
    /// The bytes of a body, as `MessageBody::to_bytes` gives them.
    fn from(body: &'a MessageBody) -> (bytes: Vec<u8>)
        ensures
            bytes@ == body_bytes(*body),
    {
        body.to_bytes()
    }
}

impl<'a> FromSpecImpl<&'a MessageBody> for Vec<u8> {
    open spec fn obeys_from_spec() -> bool {
        false
    }

    open spec fn from_spec(body: &'a MessageBody) -> Vec<u8> {
        arbitrary()
    }
}

} // verus!
