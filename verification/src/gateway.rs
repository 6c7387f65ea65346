//! The serial link of the gateway: framing of packages, their checksum, and
//! the bytes that stand for button events and for commands.

pub mod config;
pub mod mqtt;
pub mod webthing;

use crate::checksum::{calculate_xmodem, crc16_state_xmodem};
use crate::text::{binary, decimal, hex_byte, push_binary, push_decimal, push_hex_byte};
use vstd::prelude::*;
use vstd::string::StringExecFns;

verus! {

/// The byte that starts and ends a frame.
pub const SLIP_END: u8 = 0o300;

/// The byte that escapes the next one.
pub const SLIP_ESC: u8 = 0o333;

/// After an escape: stands for the byte that ends a frame.
pub const SLIP_ESC_END: u8 = 0o334;

/// After an escape: stands for the escape byte.
pub const SLIP_ESC_ESC: u8 = 0o335;

/// The bytes are no frame.
#[derive(Copy, Clone, Debug, PartialEq, Eq, Structural)]
pub struct SlipError;

/// The checksum of a package is not that of its bytes.
#[derive(Copy, Clone, Debug, PartialEq, Eq, Structural)]
pub struct CRCError;

/// The two bytes of a checksum, the high one first.
pub open spec fn crc_bytes(crc: u16) -> Seq<u8> {
    seq![(crc / 256) as u8, (crc % 256) as u8]
}

/// The last two bytes of `buf` are the checksum of the bytes before them.
pub open spec fn crc_verified(buf: Seq<u8>) -> bool {
    buf.len() >= 2 && crc_bytes(crc16_state_xmodem(buf.take(buf.len() - 2))) == buf.skip(
        buf.len() - 2,
    )
}

/// Bytes followed by their checksum.
pub open spec fn with_crc(buf: Seq<u8>) -> Seq<u8> {
    buf + crc_bytes(crc16_state_xmodem(buf))
}

/// Bytes followed by their checksum are verified.
pub proof fn lemma_appended_crc_verified(buf: Seq<u8>)
    ensures
        crc_verified(with_crc(buf)),
        with_crc(buf).take(with_crc(buf).len() - 2) == buf,
{
    let whole = with_crc(buf);
    assert(whole.take(whole.len() - 2) =~= buf);
    assert(whole.skip(whole.len() - 2) =~= crc_bytes(crc16_state_xmodem(buf)));
}

/// Tells whether the last two bytes are the checksum of the bytes before
/// them.
pub fn verify_crc16(buf: &[u8]) -> (r: bool)
    requires
        buf@.len() >= 2,
    ensures
        r == crc_verified(buf@),
{
    let len = buf.len();
    let crc_from_buf: u16 = (buf[len - 2] as u16) * 256 + (buf[len - 1] as u16);
    let data = vstd::slice::slice_subrange(buf, 0, len - 2);
    assert(data@ =~= buf@.take(len - 2));
    let crc_calc = calculate_xmodem(data);
    proof {
        let tail = buf@.skip(len - 2);
        assert(tail.len() == 2 && tail[0] == buf@[len - 2] && tail[1] == buf@[len - 1]);
        if crc_calc == crc_from_buf {
            assert(crc_bytes(crc_calc) =~= tail);
        } else {
            assert(crc_bytes(crc_calc)[0] == (crc_calc / 256) as u8);
            assert(crc_bytes(crc_calc)[1] == (crc_calc % 256) as u8);
        }
    }
    crc_calc == crc_from_buf
}

/// Appends the checksum of the bytes to them.
pub fn append_crc16(buf: Vec<u8>) -> (r: Vec<u8>)
    ensures
        r@ == with_crc(buf@),
{
    let mut buf = buf;
    let ghost before = buf@;
    let crc = calculate_xmodem(buf.as_slice());
    buf.push((crc / 256) as u8);
    buf.push((crc % 256) as u8);
    assert(buf@ =~= with_crc(before));
    buf
}

/// The bytes that stand for one byte inside a frame.
pub open spec fn slip_escaped(byte: u8) -> Seq<u8> {
    if byte == SLIP_END {
        seq![SLIP_ESC, SLIP_ESC_END]
    } else if byte == SLIP_ESC {
        seq![SLIP_ESC, SLIP_ESC_ESC]
    } else {
        seq![byte]
    }
}

/// The bytes that stand for `buf` inside a frame.
pub open spec fn slip_body(buf: Seq<u8>) -> Seq<u8>
    decreases buf.len(),
{
    if buf.len() == 0 {
        Seq::empty()
    } else {
        slip_body(buf.drop_last()) + slip_escaped(buf.last())
    }
}

/// The frame of `buf`.
pub open spec fn slip_frame(buf: Seq<u8>) -> Seq<u8> {
    seq![SLIP_END] + slip_body(buf) + seq![SLIP_END]
}

/// What has been read of the inside of a frame: the bytes so far, and
/// whether the last byte was an escape.
pub struct Unescaped {
    pub bytes: Seq<u8>,
    pub escape: bool,
}

/// What one more byte of the inside of a frame makes of what was read.
pub open spec fn slip_step(state: Option<Unescaped>, byte: u8) -> Option<Unescaped> {
    match state {
        None => None,
        Some(s) => if s.escape {
            if byte == SLIP_ESC_END {
                Some(Unescaped { bytes: s.bytes.push(SLIP_END), escape: false })
            } else if byte == SLIP_ESC_ESC {
                Some(Unescaped { bytes: s.bytes.push(SLIP_ESC), escape: false })
            } else {
                None
            }
        } else {
            if byte == SLIP_ESC {
                Some(Unescaped { bytes: s.bytes, escape: true })
            } else if byte == SLIP_END {
                None
            } else {
                Some(Unescaped { bytes: s.bytes.push(byte), escape: false })
            }
        },
    }
}

/// What is read of the inside of a frame; `None` where an escape is
/// followed by a wrong byte or the frame's end stands inside.
pub open spec fn slip_unescaped(body: Seq<u8>) -> Option<Unescaped>
    decreases body.len(),
{
    if body.len() == 0 {
        Some(Unescaped { bytes: Seq::empty(), escape: false })
    } else {
        slip_step(slip_unescaped(body.drop_last()), body.last())
    }
}

/// The bytes that a frame stands for; `None` where the bytes are no frame.
/// An escape right before the frame's end is passed over.
pub open spec fn slip_unframed(buf: Seq<u8>) -> Option<Seq<u8>> {
    if buf.len() < 2 || buf[0] != SLIP_END || buf.last() != SLIP_END {
        None
    } else {
        match slip_unescaped(buf.subrange(1, buf.len() - 1)) {
            Some(s) => Some(s.bytes),
            None => None,
        }
    }
}

/// What stands for bytes inside a frame is read back as those bytes.
pub proof fn lemma_slip_body(buf: Seq<u8>)
    ensures
        slip_unescaped(slip_body(buf)) == Some(Unescaped { bytes: buf, escape: false }),
    decreases buf.len(),
{
    if buf.len() > 0 {
        let init = buf.drop_last();
        let last = buf.last();
        lemma_slip_body(init);
        let before = slip_body(init);
        assert(init.push(last) =~= buf);
        if last == SLIP_END || last == SLIP_ESC {
            let second = if last == SLIP_END {
                SLIP_ESC_END
            } else {
                SLIP_ESC_ESC
            };
            let middle = before.push(SLIP_ESC);
            assert(slip_body(buf) =~= middle.push(second));
            assert(middle.push(second).drop_last() =~= middle);
            assert(middle.drop_last() =~= before);
            assert(slip_unescaped(middle) == slip_step(slip_unescaped(before), SLIP_ESC));
            assert(slip_unescaped(middle) == Some(Unescaped { bytes: init, escape: true }));
            assert(slip_unescaped(middle.push(second)) == slip_step(
                slip_unescaped(middle),
                second,
            ));
        } else {
            assert(slip_body(buf) =~= before.push(last));
            assert(before.push(last).drop_last() =~= before);
            assert(slip_unescaped(before.push(last)) == slip_step(slip_unescaped(before), last));
        }
    } else {
        assert(buf =~= Seq::<u8>::empty());
    }
}

/// The frame of bytes is read back as those bytes.
pub proof fn lemma_slip_round_trip(buf: Seq<u8>)
    ensures
        slip_unframed(slip_frame(buf)) == Some(buf),
{
    let frame = slip_frame(buf);
    lemma_slip_body(buf);
    assert(frame.subrange(1, frame.len() - 1) =~= slip_body(buf));
}

/// Frames bytes: an end byte, the bytes with the end byte and the escape
/// byte escaped, and an end byte.
pub fn slip_encode(buf: &[u8]) -> (r: Vec<u8>)
    ensures
        r@ == slip_frame(buf@),
{
    let mut result: Vec<u8> = Vec::new();
    result.push(SLIP_END);
    let n = buf.len();
    let mut i: usize = 0;
    assert(buf@.take(0) =~= Seq::<u8>::empty());
    assert(result@ =~= seq![SLIP_END] + slip_body(buf@.take(0)));
    while i < n
        invariant
            i <= n,
            n == buf@.len(),
            result@ == seq![SLIP_END] + slip_body(buf@.take(i as int)),
        decreases n - i,
    {
        let ghost part = buf@.take(i as int + 1);
        proof {
            assert(part.drop_last() =~= buf@.take(i as int));
            assert(part.last() == buf@[i as int]);
        }
        let byte = buf[i];
        if byte == SLIP_END {
            result.push(SLIP_ESC);
            result.push(SLIP_ESC_END);
        } else if byte == SLIP_ESC {
            result.push(SLIP_ESC);
            result.push(SLIP_ESC_ESC);
        } else {
            result.push(byte);
        }
        assert(result@ =~= seq![SLIP_END] + slip_body(part));
        i += 1;
    }
    assert(buf@.take(n as int) =~= buf@);
    result.push(SLIP_END);
    assert(result@ =~= slip_frame(buf@));
    result
}

/// Reads the bytes that a frame stands for; bytes that are no frame are
/// refused.
pub fn slip_decode(buf: &[u8]) -> (r: Result<Vec<u8>, SlipError>)
    ensures
        match slip_unframed(buf@) {
            Some(bytes) => r matches Ok(v) && v@ == bytes,
            None => r == Err::<Vec<u8>, SlipError>(SlipError),
        },
{
    let mut result: Vec<u8> = Vec::new();
    let len = buf.len();
    if len < 2 || buf[0] != SLIP_END || buf[len - 1] != SLIP_END {
        return Err(SlipError);
    }
    let ghost body = buf@.subrange(1, len - 1);
    let mut esc = false;
    let mut i: usize = 1;
    assert(body.take(0) =~= Seq::<u8>::empty());
    while i < len - 1
        invariant
            1 <= i <= len - 1,
            len == buf@.len(),
            len >= 2,
            buf@[0] == SLIP_END,
            buf@.last() == SLIP_END,
            body == buf@.subrange(1, len - 1),
            slip_unescaped(body.take(i - 1)) == Some(Unescaped { bytes: result@, escape: esc }),
        decreases len - i,
    {
        let ghost part = body.take(i as int);
        proof {
            assert(part.drop_last() =~= body.take(i - 1));
            assert(part.last() == buf@[i as int]);
        }
        let byte = buf[i];
        if esc {
            if byte == SLIP_ESC_END {
                result.push(SLIP_END);
            } else if byte == SLIP_ESC_ESC {
                result.push(SLIP_ESC);
            } else {
                proof {
                    lemma_slip_failure(body, i as int);
                }
                return Err(SlipError);
            }
            esc = false;
        } else {
            if byte == SLIP_ESC {
                esc = true;
            } else if byte == SLIP_END {
                proof {
                    lemma_slip_failure(body, i as int);
                }
                return Err(SlipError);
            } else {
                result.push(byte);
            }
        }
        i += 1;
    }
    assert(body.take(len - 2) =~= body);
    Ok(result)
}

/// What fails on a part of the inside of a frame fails on the whole.
pub proof fn lemma_slip_failure(body: Seq<u8>, index: int)
    requires
        0 <= index <= body.len(),
        slip_unescaped(body.take(index)) is None,
    ensures
        slip_unescaped(body) is None,
    decreases body.len(),
{
    if index == body.len() {
        assert(body.take(index) =~= body);
    } else {
        assert(body.drop_last().take(index) =~= body.take(index));
        lemma_slip_failure(body.drop_last(), index);
    }
}

/// Whether a stream waits for the start of a frame or is inside one.
#[derive(Copy, Clone, Debug, PartialEq, Eq, Structural)]
pub enum PackageInputStreamMode {
    Scan,
    Read,
}

/// Why a stream hands out no package at the end of a frame.
#[derive(Copy, Clone, Debug, PartialEq, Eq, Structural)]
pub enum PackageError {
    /// The bytes between two end bytes are no frame.
    Slip(SlipError),
    /// The frame's last two bytes are not the checksum of the others, or
    /// the frame holds fewer than two bytes.
    Crc(CRCError),
}

/// Cuts a stream of bytes into packages. It is fed the bytes one by one.
#[derive(Debug)]
pub struct PackageInputStream {
    mode: PackageInputStreamMode,
    buf: Vec<u8>,
}

/// The state of a stream as specifications see it.
pub struct StreamState {
    pub mode: PackageInputStreamMode,
    pub buf: Seq<u8>,
}

/// What a byte makes a stream hand out: nothing, a package without its
/// checksum, or an error.
pub enum StreamOutput {
    Nothing,
    Package(Seq<u8>),
    Failure(PackageError),
}

/// What a byte makes of a stream's state, and what the stream hands out.
///
/// Before a frame every byte but the end byte is dropped. Inside a frame
/// the bytes are kept until the next end byte. Then the frame is read: a
/// frame that is read and verified is handed out without its checksum, and
/// the stream waits for the next. A frame that cannot be read stays in the
/// stream, which goes on inside it.
pub open spec fn stream_step(state: StreamState, byte: u8) -> (StreamState, StreamOutput) {
    match state.mode {
        PackageInputStreamMode::Scan => if byte == SLIP_END {
            (
                StreamState { mode: PackageInputStreamMode::Read, buf: state.buf.push(byte) },
                StreamOutput::Nothing,
            )
        } else {
            (state, StreamOutput::Nothing)
        },
        PackageInputStreamMode::Read => {
            let buf = state.buf.push(byte);
            if byte == SLIP_END {
                match slip_unframed(buf) {
                    None => (
                        StreamState { mode: PackageInputStreamMode::Read, buf },
                        StreamOutput::Failure(PackageError::Slip(SlipError)),
                    ),
                    Some(bytes) => (
                        StreamState { mode: PackageInputStreamMode::Scan, buf: Seq::empty() },
                        if crc_verified(bytes) {
                            StreamOutput::Package(bytes.take(bytes.len() - 2))
                        } else {
                            StreamOutput::Failure(PackageError::Crc(CRCError))
                        },
                    ),
                }
            } else {
                (StreamState { mode: PackageInputStreamMode::Read, buf }, StreamOutput::Nothing)
            }
        },
    }
}

impl View for PackageInputStream {
    type V = StreamState;

    closed spec fn view(&self) -> StreamState {
        StreamState { mode: self.mode, buf: self.buf@ }
    }
}

impl PackageInputStream {
    /// A stream that waits for the start of a frame.
    pub fn new() -> (r: PackageInputStream)
        ensures
            r@ == (StreamState { mode: PackageInputStreamMode::Scan, buf: Seq::empty() }),
    {
        PackageInputStream { mode: PackageInputStreamMode::Scan, buf: Vec::new() }
    }

    /// Feeds one byte to the stream. At the end of a frame the stream hands
    /// out the package or says why there is none.
    pub fn push_byte(&mut self, byte: u8) -> (r: Option<Result<Vec<u8>, PackageError>>)
        ensures
            final(self)@ == stream_step(old(self)@, byte).0,
            match stream_step(old(self)@, byte).1 {
                StreamOutput::Nothing => r is None,
                StreamOutput::Package(bytes) => r matches Some(Ok(v)) && v@ == bytes,
                StreamOutput::Failure(e) => r == Some(Err::<Vec<u8>, PackageError>(e)),
            },
    {
        match self.mode {
            PackageInputStreamMode::Scan => {
                if byte == SLIP_END {
                    self.buf.push(byte);
                    self.mode = PackageInputStreamMode::Read;
                }
                None
            },
            PackageInputStreamMode::Read => {
                self.buf.push(byte);
                if byte != SLIP_END {
                    return None;
                }
                match slip_decode(self.buf.as_slice()) {
                    Err(e) => Some(Err(PackageError::Slip(e))),
                    Ok(mut result) => {
                        self.buf.clear();
                        self.mode = PackageInputStreamMode::Scan;
                        if result.len() >= 2 && verify_crc16(result.as_slice()) {
                            let ghost whole = result@;
                            result.pop();
                            result.pop();
                            assert(result@ =~= whole.take(whole.len() - 2));
                            Some(Ok(result))
                        } else {
                            Some(Err(PackageError::Crc(CRCError)))
                        }
                    },
                }
            },
        }
    }
}

/// The two kinds of button event.
#[derive(Copy, Clone, Debug, PartialEq, Eq, Structural)]
pub enum EventType {
    PressStart,
    PressEnd,
}

impl EventType {
    /// The bit that tells the kind in an event's byte.
    pub open spec fn bits(self) -> u8 {
        match self {
            EventType::PressStart => 0x00,
            EventType::PressEnd => 0x80,
        }
    }

    /// The bit that tells the kind in an event's byte.
    pub fn value(self) -> (r: u8)
        ensures
            r == self.bits(),
    {
        match self {
            EventType::PressStart => 0x00,
            EventType::PressEnd => 0x80,
        }
    }
}

/// What the controller says of a button, in one byte: bit 7 tells the end
/// of a press from its start, bit 6 that the byte says anything at all, and
/// the five low bits are the button.
#[derive(Copy, Clone, Debug, PartialEq, Eq, Structural)]
pub struct Event {
    data: u8,
}

impl View for Event {
    type V = u8;

    closed spec fn view(&self) -> u8 {
        self.data
    }
}

impl Event {
    /// The valid event of a kind for a button; only the five low bits of
    /// the button count.
    pub fn new(event_type: EventType, button: u8) -> (r: Event)
        ensures
            r@ == event_type.bits() | 0x40 | (button & 0x1f),
    {
        Event { data: event_type.value() | 0x40 | (button & 0x1F) }
    }

    /// The event that a byte stands for.
    pub fn frow_raw(data: u8) -> (r: Event)
        ensures
            r@ == data,
    {
        Event { data }
    }

    /// The byte of the event.
    pub fn raw(self) -> (r: u8)
        ensures
            r == self@,
    {
        self.data
    }

    /// Tells whether the byte says anything.
    pub fn valid(self) -> (r: bool)
        ensures
            r == (self@ & 0x40 != 0),
    {
        self.data & 0x40 != 0
    }

    /// The kind of the event.
    pub fn event_type(self) -> (r: EventType)
        ensures
            r == if self@ & 0x80 == 0 {
                EventType::PressStart
            } else {
                EventType::PressEnd
            },
    {
        if self.data & 0x80 == 0 {
            EventType::PressStart
        } else {
            EventType::PressEnd
        }
    }

    /// The button of the event.
    pub fn button(self) -> (r: u8)
        ensures
            r == self@ & 0x1f,
            r < 32,
    {
        let data = self.data;
        assert(data & 0x1f < 32) by (bit_vector);
        self.data & 0x1F
    }
}

/// The text of an event: its kind and button where it is valid, and its
/// byte in hexadecimal.
pub open spec fn event_text(data: u8) -> Seq<char> {
    let kind = if data & 0x80 == 0 {
        "PressStart"@
    } else {
        "PressEnd"@
    };
    let told = if data & 0x40 != 0 {
        kind + "( button: "@ + decimal((data & 0x1f) as nat) + ", "@
    } else {
        "Invalid( "@
    };
    "Event( "@ + told + "raw: 0x"@ + hex_byte(data) + " ) )"@
}

/// The texts of the valid events of a list, separated by a comma and a
/// blank.
pub open spec fn events_text(events: Seq<Event>) -> Seq<char>
    decreases events.len(),
{
    if events.len() == 0 {
        Seq::empty()
    } else {
        let before = events_text(events.drop_last());
        let last = events.last()@;
        if last & 0x40 == 0 {
            before
        } else if before.len() == 0 {
            event_text(last)
        } else {
            before + ", "@ + event_text(last)
        }
    }
}

/// The text of a package: the state of the outputs in binary, and the valid
/// events.
pub open spec fn package_text(package: Package) -> Seq<char> {
    "Package( state: "@ + binary(package.state, 32) + ", events: [ "@ + events_text(
        package.events@,
    ) + " ] )"@
}

impl Event {
    /// The text of the event.
    pub fn to_string(&self) -> (text: String)
        ensures
            text@ == event_text(self@),
            text@.len() > 0,
    {
        let mut text = String::from_str("Event( ");
        proof {
            reveal_strlit("Event( ");
        }
        if self.valid() {
            match self.event_type() {
                EventType::PressStart => text.append("PressStart"),
                EventType::PressEnd => text.append("PressEnd"),
            }
            text.append("( button: ");
            push_decimal(&mut text, self.button() as u64);
            text.append(", ");
        } else {
            text.append("Invalid( ");
        }
        text.append("raw: 0x");
        push_hex_byte(&mut text, self.data);
        text.append(" ) )");
        assert(text@ =~= event_text(self@));
        text
    }
}

impl Package {
    /// The text of the package.
    pub fn to_string(&self) -> (text: String)
        ensures
            text@ == package_text(*self),
    {
        let mut text = String::from_str("Package( state: ");
        push_binary(&mut text, self.state, 32);
        text.append(", events: [ ");
        let ghost head = text@;
        let mut listed = String::new();
        let n = self.events.len();
        let mut i: usize = 0;
        assert(self.events@.take(0) =~= Seq::<Event>::empty());
        while i < n
            invariant
                i <= n,
                n == self.events@.len(),
                listed@ == events_text(self.events@.take(i as int)),
            decreases n - i,
        {
            let ghost part = self.events@.take(i as int + 1);
            proof {
                assert(part.drop_last() =~= self.events@.take(i as int));
                assert(part.last() == self.events@[i as int]);
            }
            let event = self.events[i];
            if event.valid() {
                if !listed.as_str().is_empty() {
                    listed.append(", ");
                }
                listed.append(event.to_string().as_str());
            }
            assert(listed@ =~= events_text(part));
            i += 1;
        }
        assert(self.events@.take(n as int) =~= self.events@);
        text.append(listed.as_str());
        text.append(" ] )");
        assert(text@ =~= package_text(*self));
        text
    }
}

/// An event that was made of a kind and one of the thirty-two buttons is
/// valid and gives them back.
pub proof fn lemma_event_fields(event_type: EventType, button: u8)
    requires
        button < 32,
    ensures
        ({
            let data = event_type.bits() | 0x40 | (button & 0x1f);
            &&& data & 0x40 != 0
            &&& data & 0x1f == button
            &&& (data & 0x80 == 0) == (event_type == EventType::PressStart)
        }),
{
    assert(button < 32 ==> (0x00u8 | 0x40 | (button & 0x1f)) & 0x40 != 0 && (0x00u8 | 0x40 | (
    button & 0x1f)) & 0x1f == button && (0x00u8 | 0x40 | (button & 0x1f)) & 0x80 == 0 && (0x80u8
        | 0x40 | (button & 0x1f)) & 0x40 != 0 && (0x80u8 | 0x40 | (button & 0x1f)) & 0x1f == button
        && (0x80u8 | 0x40 | (button & 0x1f)) & 0x80 != 0) by (bit_vector);
}

/// The kinds of command.
#[derive(Copy, Clone, Debug, PartialEq, Eq, Structural)]
pub enum CommandType {
    Nothing,
    Refresh,
    Toggle,
    Off,
    On,
}

impl CommandType {
    /// The bits that tell the kind in a command's byte.
    pub open spec fn bits(self) -> u8 {
        match self {
            CommandType::Nothing => 0x00,
            CommandType::Refresh => 0x20,
            CommandType::Toggle => 0x40,
            CommandType::Off => 0x80,
            CommandType::On => 0xc0,
        }
    }

    /// The kind that the three high bits of a byte tell, if they tell one.
    pub open spec fn of_bits(data: u8) -> Option<CommandType> {
        let kind = data & 0xe0;
        if kind == 0x00 {
            Some(CommandType::Nothing)
        } else if kind == 0x20 {
            Some(CommandType::Refresh)
        } else if kind == 0x40 {
            Some(CommandType::Toggle)
        } else if kind == 0x80 {
            Some(CommandType::Off)
        } else if kind == 0xc0 {
            Some(CommandType::On)
        } else {
            None
        }
    }

    /// The bits that tell the kind in a command's byte.
    pub fn value(self) -> (r: u8)
        ensures
            r == self.bits(),
    {
        match self {
            CommandType::Nothing => 0x00,
            CommandType::Refresh => 0x20,
            CommandType::Toggle => 0x40,
            CommandType::Off => 0x80,
            CommandType::On => 0xC0,
        }
    }
}

/// A command for the controller, in one byte: its kind in the three high
/// bits, its output in the five low ones.
#[derive(Copy, Clone, Debug, PartialEq, Eq, Structural)]
pub struct Command {
    data: u8,
}

impl View for Command {
    type V = u8;

    closed spec fn view(&self) -> u8 {
        self.data
    }
}

impl Command {
    /// The command of a kind for an output; only the five low bits of the
    /// output count.
    pub fn new(command_type: CommandType, output: u8) -> (r: Command)
        ensures
            r@ == command_type.bits() | (output & 0x1f),
    {
        Command { data: command_type.value() | (output & 0x1F) }
    }

    /// The command that a byte stands for.
    pub fn from_raw(data: u8) -> (r: Command)
        ensures
            r@ == data,
    {
        Command { data }
    }

    /// The byte of the command.
    pub fn raw(self) -> (r: u8)
        ensures
            r == self@,
    {
        self.data
    }

    /// The kind of the command, if its byte tells one.
    pub fn try_command_type(self) -> (r: Option<CommandType>)
        ensures
            r == CommandType::of_bits(self@),
    {
        let kind = self.data & 0xE0;
        if kind == 0x00 {
            Some(CommandType::Nothing)
        } else if kind == 0x20 {
            Some(CommandType::Refresh)
        } else if kind == 0x40 {
            Some(CommandType::Toggle)
        } else if kind == 0x80 {
            Some(CommandType::Off)
        } else if kind == 0xC0 {
            Some(CommandType::On)
        } else {
            None
        }
    }

    /// The kind of a command whose byte tells one.
    pub fn command_type(self) -> (r: CommandType)
        requires
            CommandType::of_bits(self@) is Some,
        ensures
            Some(r) == CommandType::of_bits(self@),
    {
        match self.try_command_type() {
            Some(kind) => kind,
            None => CommandType::Nothing,
        }
    }

    /// The output of the command.
    pub fn output(self) -> (r: u8)
        ensures
            r == self@ & 0x1f,
            r < 32,
    {
        let data = self.data;
        assert(data & 0x1f < 32) by (bit_vector);
        self.data & 0x1F
    }
}

/// A command that was made of a kind and one of the thirty-two outputs
/// gives them back.
pub proof fn lemma_command_fields(command_type: CommandType, output: u8)
    requires
        output < 32,
    ensures
        CommandType::of_bits(command_type.bits() | (output & 0x1f)) == Some(command_type),
        (command_type.bits() | (output & 0x1f)) & 0x1f == output,
{
    assert(output < 32 ==> (0x00u8 | (output & 0x1f)) & 0xe0 == 0x00 && (0x20u8 | (output & 0x1f))
        & 0xe0 == 0x20 && (0x40u8 | (output & 0x1f)) & 0xe0 == 0x40 && (0x80u8 | (output & 0x1f))
        & 0xe0 == 0x80 && (0xc0u8 | (output & 0x1f)) & 0xe0 == 0xc0 && (0x00u8 | (output & 0x1f))
        & 0x1f == output && (0x20u8 | (output & 0x1f)) & 0x1f == output && (0x40u8 | (output
        & 0x1f)) & 0x1f == output && (0x80u8 | (output & 0x1f)) & 0x1f == output && (0xc0u8 | (
    output & 0x1f)) & 0x1f == output) by (bit_vector);
}

/// The number of bytes of a package: one for each of thirty-two buttons and
/// four for the state of the outputs.
pub const PACKAGE_LENGTH: usize = 36;

/// What the controller reports: an event for each button and the state of
/// the outputs.
#[derive(Clone, Debug)]
pub struct Package {
    pub events: Vec<Event>,
    pub state: u32,
}

/// The state of the outputs that four bytes stand for, the highest first.
pub open spec fn package_state(b0: u8, b1: u8, b2: u8, b3: u8) -> u32 {
    (b0 * 0x100_0000 + b1 * 0x1_0000 + b2 * 0x100 + b3) as u32
}

impl Package {
    /// Reads a package from its thirty-six bytes.
    pub fn from_buf(buf: &[u8]) -> (r: Package)
        requires
            buf@.len() == PACKAGE_LENGTH,
        ensures
            r.events@.len() == 32,
            forall|i: int| 0 <= i < 32 ==> (#[trigger] r.events@[i])@ == buf@[i],
            r.state == package_state(buf@[32], buf@[33], buf@[34], buf@[35]),
    {
        let mut events: Vec<Event> = Vec::new();
        let mut i: usize = 0;
        while i < 32
            invariant
                i <= 32,
                buf@.len() == PACKAGE_LENGTH,
                events@.len() == i,
                forall|j: int| 0 <= j < i ==> (#[trigger] events@[j])@ == buf@[j],
            decreases 32 - i,
        {
            events.push(Event::frow_raw(buf[i]));
            i += 1;
        }
        let state: u32 = (buf[32] as u32) * 0x100_0000 + (buf[33] as u32) * 0x1_0000 + (
        buf[34] as u32) * 0x100 + (buf[35] as u32);
        Package { events, state }
    }

    /// Reads a package from its bytes, if they are thirty-six.
    pub fn try_from_buf(buf: &[u8]) -> (r: Option<Package>)
        ensures
            r is Some <==> buf@.len() == PACKAGE_LENGTH,
            r matches Some(package) ==> package.events@.len() == 32 && (forall|i: int|
                0 <= i < 32 ==> (#[trigger] package.events@[i])@ == buf@[i]) && package.state
                == package_state(buf@[32], buf@[33], buf@[34], buf@[35]),
    {
        if buf.len() == PACKAGE_LENGTH {
            Some(Package::from_buf(buf))
        } else {
            None
        }
    }
}

/// Something that is told of every package and can be waited for.
pub trait Service {
    fn handle_package(&mut self, package: &Package);

    fn join(&mut self);
}

/// The largest number of commands that are written in one frame.
pub const MAX_COMMANDS: usize = 64;

/// After this many milliseconds without a package the controller is asked
/// for its state.
pub const REFRESH_MILLIS: u64 = 10000;

/// Tells whether the controller is to be asked for its state: a package
/// has come, and the last one came more than ten seconds ago.
pub fn refresh_due(since_last_package: Option<u64>) -> (r: bool)
    ensures
        r == (since_last_package matches Some(millis) && millis > REFRESH_MILLIS),
{
    match since_last_package {
        Some(millis) => millis > REFRESH_MILLIS,
        None => false,
    }
}

/// The frame that writes commands to the controller: their bytes, the
/// checksum of these, framed.
pub fn command_frame(commands: &Vec<Command>) -> (r: Vec<u8>)
    ensures
        r@ == slip_frame(with_crc(Seq::new(commands@.len(), |i: int| commands@[i]@))),
{
    let n = commands.len();
    let mut bytes: Vec<u8> = Vec::new();
    let mut i: usize = 0;
    while i < n
        invariant
            i <= n,
            n == commands@.len(),
            bytes@.len() == i,
            forall|k: int| 0 <= k < i ==> bytes@[k] == (#[trigger] commands@[k])@,
        decreases n - i,
    {
        bytes.push(commands[i].raw());
        i += 1;
    }
    assert(bytes@ =~= Seq::new(commands@.len(), |i: int| commands@[i]@));
    let checked = append_crc16(bytes);
    slip_encode(checked.as_slice())
}

} // verus!
