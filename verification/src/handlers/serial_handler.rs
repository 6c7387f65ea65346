//! What goes over the serial link: which messages of the bridge are written
//! to the controller and how, and what is made of the frames that the
//! controller writes.

use crate::checksum::crc16_xmodem;
use crate::controller::command::Command;
use crate::controller::message::{
    command_bytes, message_bytes, MessageBody, MessageDecodingError, MAX_MESSAGE_BODY_LENGTH,
};
use crate::controller;
use crate::handlers::message::Message;
use vstd::prelude::*;

verus! {

/// The speed of the serial link, in bits per second.
pub const BAUD_RATE: u32 = 9600;

/// The bytes have the size of a message, and start with the checksum of
/// what follows it.
pub open spec fn frame_checked(bytes: Seq<u8>) -> bool {
    &&& controller::message::MIN_MESSAGE_LENGTH <= bytes.len()
        <= controller::message::MAX_MESSAGE_LENGTH
    &&& crc16_xmodem(bytes.skip(2)) == (bytes[0] * 256 + bytes[1]) as u16
}

/// What is made of a frame that the controller wrote: the message that it
/// holds, for the rest of the bridge; nothing where it holds none.
pub fn handle_serial_message(frame: &[u8]) -> (r: Option<Message>)
    ensures
        r matches Some(message) ==> frame_checked(frame@) && (message
            matches Message::ReceivedFromController(body) && controller::message::is_body_of(
            Ok(body),
            frame@[2],
            frame@.skip(3),
        )),
        r is None ==> !frame_checked(frame@) || exists|e: MessageDecodingError| #[trigger]
            controller::message::is_body_of(Err(e), frame@[2], frame@.skip(3)),
{
    match controller::message::Message::from_bytes(frame) {
        Ok(message) => Some(Message::ReceivedFromController(message.body)),
        Err(e) => {
            assert(!frame_checked(frame@) || controller::message::is_body_of(
                Err(e),
                frame@[2],
                frame@.skip(3),
            ));
            None
        },
    }
}

/// The frame of a message that holds commands.
pub open spec fn command_frame(commands: Seq<Command>) -> Seq<u8> {
    let checked = seq![0x63u8] + command_bytes(commands);
    let crc = crc16_xmodem(checked);
    seq![(crc / 256) as u8, (crc % 256) as u8] + checked
}

/// Commands cut into the bodies of messages: pieces of 125 commands and a
/// last piece of at most 125. No commands make no piece.
pub open spec fn command_chunks(commands: Seq<Command>) -> Seq<Seq<Command>>
    decreases commands.len(),
{
    if commands.len() == 0 {
        Seq::empty()
    } else if commands.len() <= MAX_MESSAGE_BODY_LENGTH {
        seq![commands]
    } else {
        seq![commands.take(MAX_MESSAGE_BODY_LENGTH as int)] + command_chunks(
            commands.skip(MAX_MESSAGE_BODY_LENGTH as int),
        )
    }
}

/// The frames hold the pieces in their order.
pub open spec fn frames_of(frames: Seq<Vec<u8>>, chunks: Seq<Seq<Command>>) -> bool {
    frames.len() == chunks.len() && forall|i: int|
        0 <= i < frames.len() ==> (#[trigger] frames[i])@ == command_frame(chunks[i])
}

/// What a message of the bridge asks of the serial link. A message with
/// commands for the controller is not written at once: its commands join
/// those that wait. Any other message for the controller is written at
/// once, and the frame to write is handed out. A message from the
/// controller asks nothing.
pub fn handle_broadcast_message(commands_buffer: &mut Vec<Command>, message: Message) -> (r:
    Option<Vec<u8>>)
    ensures
        match message {
            Message::SendToController(MessageBody::Command { commands }) => {
                &&& r is None
                &&& final(commands_buffer)@ == old(commands_buffer)@ + commands@
            },
            Message::SendToController(body) => {
                &&& final(commands_buffer)@ == old(commands_buffer)@
                &&& r matches Some(frame)
                &&& frame@ == message_bytes(
                    controller::message::Message {
                        crc: controller::message::body_crc(body),
                        body,
                    },
                )
            },
            Message::ReceivedFromController(_) => {
                &&& r is None
                &&& final(commands_buffer)@ == old(commands_buffer)@
            },
        },
{
    match message {
        Message::SendToController(body) => match body {
            MessageBody::Command { commands } => {
                let mut commands = commands;
                commands_buffer.append(&mut commands);
                None
            },
            _ => {
                let message = controller::message::Message::new(body);
                Some(message.to_bytes())
            },
        },
        Message::ReceivedFromController(_) => None,
    }
}

/// The frames that write the waiting commands to the controller, at most
/// 125 commands in each. No command waits afterwards.
pub fn send_commands(commands_buffer: &mut Vec<Command>) -> (frames: Vec<Vec<u8>>)
    ensures
        final(commands_buffer)@.len() == 0,
        frames_of(frames@, command_chunks(old(commands_buffer)@)),
{
    let n = commands_buffer.len();
    let ghost all = commands_buffer@;
    let mut frames: Vec<Vec<u8>> = Vec::new();
    let mut start: usize = 0;
    let ghost mut chunks: Seq<Seq<Command>> = Seq::empty();
    proof {
        assert(all.skip(0) =~= all);
        assert(chunks + command_chunks(all) =~= command_chunks(all));
    }
    while start < n
        invariant
            start <= n,
            n == all.len(),
            all == commands_buffer@,
            frames_of(frames@, chunks),
            command_chunks(all) == chunks + command_chunks(all.skip(start as int)),
        decreases n - start,
    {
        let ghost rest = all.skip(start as int);
        let size = if n - start > MAX_MESSAGE_BODY_LENGTH {
            MAX_MESSAGE_BODY_LENGTH
        } else {
            n - start
        };
        let mut chunk: Vec<Command> = Vec::new();
        let mut i: usize = 0;
        while i < size
            invariant
                i <= size,
                start + size <= n,
                n == all.len(),
                all == commands_buffer@,
                rest == all.skip(start as int),
                chunk@ == rest.take(i as int),
            decreases size - i,
        {
            chunk.push(commands_buffer[start + i]);
            assert(chunk@ =~= rest.take(i as int + 1));
            i += 1;
        }
        let ghost piece = chunk@;
        let message = controller::message::Message::new(MessageBody::Command { commands: chunk });
        let frame = message.to_bytes();
        proof {
            assert(frame@ =~= command_frame(piece));
            let next = chunks.push(piece);
            if rest.len() <= MAX_MESSAGE_BODY_LENGTH {
                assert(piece =~= rest);
                assert(rest.skip(size as int).len() == 0);
                assert(all.skip(start + size) =~= rest.skip(size as int));
                assert(chunks + seq![rest] =~= next + command_chunks(all.skip(start + size)));
            } else {
                assert(all.skip(start + size) =~= rest.skip(MAX_MESSAGE_BODY_LENGTH as int));
                assert(chunks + (seq![piece] + command_chunks(
                    rest.skip(MAX_MESSAGE_BODY_LENGTH as int),
                )) =~= next + command_chunks(all.skip(start + size)));
            }
            chunks = next;
        }
        frames.push(frame);
        start += size;
    }
    assert(all.skip(n as int).len() == 0);
    assert(chunks + Seq::<Seq<Command>>::empty() =~= chunks);
    commands_buffer.clear();
    frames
}

} // verus!
