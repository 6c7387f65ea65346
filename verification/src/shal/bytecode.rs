//! The bytecode that the controller executes: its instructions, their binary
//! encoding, the serialised program with its header, and the checks that a
//! program fits the controller.

use crate::checksum::{checksum_xmodem, crc16_xmodem};
use crate::controller::program_header::ProgramHeader;
use crate::shal::ast::{PinID, SourceLoc, PIN_COUNT};
use crate::shal::common::{AsBit, Edge, IsWas, Value};
use std::convert::TryFrom;
use vstd::prelude::*;

verus! {

const SET_VALUE_MASK: u8 = 0b0000_0001;

const ON_EDGE_MASK: u8 = 0b0000_0001;

const IF_IS_WAS_MASK: u8 = 0b0000_0100;

const IF_IO_MASK: u8 = 0b0000_0010;

const IF_VALUE_MASK: u8 = 0b0000_0001;

const SINGLE_BYTE_MASK: u8 = 0b0111_1111;

const DUAL_BYTE_MASK: u8 = 0b0011_1111;

const PREFIX_MASK: u8 = 0b1100_0000;

const SINGLE_BYTE_PREFIX: u8 = 0b0000_0000;

const FIRST_BYTE_PREFIX: u8 = 0b1000_0000;

const SECOND_BYTE_PREFIX: u8 = 0b1100_0000;

const INSTR_END: u8 = 0b0000_0000;

const INSTR_AND: u8 = 0b0000_0001;

const INSTR_OR: u8 = 0b0000_0010;

const INSTR_XOR: u8 = 0b0000_0011;

const INSTR_NOT: u8 = 0b0000_0100;

const INSTR_POP: u8 = 0b0000_0101;

const INSTR_SET: u8 = 0b0000_0000;

const INSTR_TOGGLE: u8 = 0b0000_0010;

const INSTR_ON: u8 = 0b0000_0100;

const INSTR_IF: u8 = 0b0000_1000;

const INSTR_SET_MASK: u8 = 0b0011_1110;

const INSTR_TOGGLE_MASK: u8 = 0b0011_1111;

const INSTR_ON_MASK: u8 = 0b0011_1110;

const INSTR_IF_MASK: u8 = 0b0011_1000;

/// Tells an input from an output in a condition.
#[derive(Copy, Clone, Debug, PartialEq, Eq, Structural)]
pub enum InOut {
    Input,
    Output,
}

impl AsBit for InOut {
    open spec fn bit(&self) -> bool {
        *self == InOut::Output
    }

    open spec fn of_bit(b: bool) -> Self {
        if b {
            InOut::Output
        } else {
            InOut::Input
        }
    }

    proof fn lemma_bit_round_trip(&self) {
    }

    fn as_bit(&self) -> (b: bool) {
        match self {
            InOut::Input => false,
            InOut::Output => true,
        }
    }

    fn from_bit(b: bool) -> (r: Self) {
        if b {
            InOut::Output
        } else {
            InOut::Input
        }
    }
}

/// The one or two bytes that stand for an instruction.
///
/// The two highest bits of a byte tell its place: `00` a whole instruction,
/// `10` the first byte of two, `11` the second.
#[derive(Copy, Clone, Debug, PartialEq, Eq, Structural)]
pub enum InstructionEncoding {
    SingleByte(u8),
    DualByte(u8, u8),
}

impl InstructionEncoding {
    /// The bytes in the order in which they are written.
    pub open spec fn bytes(self) -> Seq<u8> {
        match self {
            InstructionEncoding::SingleByte(b) => seq![b],
            InstructionEncoding::DualByte(b1, b2) => seq![b1, b2],
        }
    }

    /// The encoding of an opcode without operand: its seven low bits.
    pub fn single_byte(instruction: u8) -> (r: InstructionEncoding)
        ensures
            r == InstructionEncoding::SingleByte((instruction % 128) as u8),
    {
        assert(0u8 | (instruction & 0x7f) == instruction % 128) by (bit_vector);
        InstructionEncoding::SingleByte(SINGLE_BYTE_PREFIX | (instruction & SINGLE_BYTE_MASK))
    }

    /// The encoding of an opcode with an operand: six bits of each under the
    /// marks of a first and a second byte.
    pub fn dual_byte(instruction: u8, in_out: u8) -> (r: InstructionEncoding)
        ensures
            r == InstructionEncoding::DualByte(
                (128 + instruction % 64) as u8,
                (192 + in_out % 64) as u8,
            ),
    {
        assert(0x80u8 | (instruction & 0x3f) == 128 + instruction % 64) by (bit_vector);
        assert(0xc0u8 | (in_out & 0x3f) == 192 + in_out % 64) by (bit_vector);
        InstructionEncoding::DualByte(
            FIRST_BYTE_PREFIX | (instruction & DUAL_BYTE_MASK),
            SECOND_BYTE_PREFIX | (in_out & DUAL_BYTE_MASK),
        )
    }
}

/// One instruction of the controller's stack machine.
#[derive(Copy, Clone, Debug, PartialEq, Eq, Structural)]
pub enum Instruction {
    End,
    Pop,
    And,
    Or,
    Xor,
    Not,
    SetOutput { output: PinID, value: Value },
    Toggle { output: PinID },
    On { input: PinID, edge: Edge },
    If { number: PinID, is_was: IsWas, value: Value, in_out: InOut },
}

/// Why a byte string was refused as a program.
#[derive(Copy, Clone, Debug, PartialEq, Eq, Structural)]
pub enum DecodingErrorKind {
    /// There are fewer bytes than a header has.
    Truncated,
    /// The bytes do not start with the magic `SHAL`.
    Magic,
    /// The length in the header is not that of the bytes that follow it.
    Length,
    /// The checksum in the header is not that of the bytes that follow it.
    Checksum,
    /// The bytes after the header are no sequence of instructions.
    Instruction,
}

/// The refusal of a byte string as a program or an instruction.
#[derive(Copy, Clone, Debug, PartialEq, Eq, Structural)]
pub struct DecodingError {
    pub kind: DecodingErrorKind,
}

/// One for a set flag, zero for a cleared one.
pub open spec fn flag(b: bool) -> int {
    if b {
        1
    } else {
        0
    }
}

impl Instruction {
    /// Every pin of the instruction is a pin of the controller.
    pub open spec fn wf(self) -> bool {
        match self {
            Instruction::SetOutput { output, .. } => output.wf(),
            Instruction::Toggle { output } => output.wf(),
            Instruction::On { input, .. } => input.wf(),
            Instruction::If { number, .. } => number.wf(),
            _ => true,
        }
    }

    /// The number of bytes of the instruction's encoding.
    pub open spec fn size(self) -> nat {
        match self {
            Instruction::SetOutput { .. }
            | Instruction::Toggle { .. }
            | Instruction::On { .. }
            | Instruction::If { .. } => 2,
            _ => 1,
        }
    }

    /// The encoding of the instruction.
    ///
    /// An instruction without operand is its opcode. One with an operand has
    /// its opcode and flags in the six low bits of the first byte and its pin
    /// in the six low bits of the second.
    pub open spec fn encoding(self) -> InstructionEncoding {
        match self {
            Instruction::End => InstructionEncoding::SingleByte(0),
            Instruction::And => InstructionEncoding::SingleByte(1),
            Instruction::Or => InstructionEncoding::SingleByte(2),
            Instruction::Xor => InstructionEncoding::SingleByte(3),
            Instruction::Not => InstructionEncoding::SingleByte(4),
            Instruction::Pop => InstructionEncoding::SingleByte(5),
            Instruction::SetOutput { output, value } => InstructionEncoding::DualByte(
                (0x80 + flag(value.bit())) as u8,
                (0xc0 + output@) as u8,
            ),
            Instruction::Toggle { output } => InstructionEncoding::DualByte(
                0x82,
                (0xc0 + output@) as u8,
            ),
            Instruction::On { input, edge } => InstructionEncoding::DualByte(
                (0x84 + flag(edge.bit())) as u8,
                (0xc0 + input@) as u8,
            ),
            Instruction::If { number, is_was, value, in_out } => InstructionEncoding::DualByte(
                (0x88 + 4 * flag(is_was.bit()) + 2 * flag(in_out.bit()) + flag(value.bit())) as u8,
                (0xc0 + number@) as u8,
            ),
        }
    }

    /// The instruction that an encoding stands for, if it stands for one.
    ///
    /// Only the seven low bits of a single byte and the six low bits of each
    /// of two bytes are read. A pin that the controller does not have is
    /// refused.
    pub open spec fn decoding(encoding: InstructionEncoding) -> Option<Instruction> {
        match encoding {
            InstructionEncoding::SingleByte(b) => {
                let op = b % 128;
                if op == 0 {
                    Some(Instruction::End)
                } else if op == 1 {
                    Some(Instruction::And)
                } else if op == 2 {
                    Some(Instruction::Or)
                } else if op == 3 {
                    Some(Instruction::Xor)
                } else if op == 4 {
                    Some(Instruction::Not)
                } else if op == 5 {
                    Some(Instruction::Pop)
                } else {
                    None
                }
            },
            InstructionEncoding::DualByte(b1, b2) => {
                let op = b1 % 64;
                let operand = (b2 % 64) as u8;
                let pin = PinID::of(operand);
                if operand >= PIN_COUNT {
                    None
                } else if op <= 1 {
                    Some(Instruction::SetOutput { output: pin, value: Value::of_bit(op == 1) })
                } else if op == 2 {
                    Some(Instruction::Toggle { output: pin })
                } else if op == 4 || op == 5 {
                    Some(Instruction::On { input: pin, edge: Edge::of_bit(op == 5) })
                } else if 8 <= op <= 15 {
                    Some(
                        Instruction::If {
                            number: pin,
                            is_was: IsWas::of_bit((op / 4) % 2 == 1),
                            value: Value::of_bit(op % 2 == 1),
                            in_out: InOut::of_bit((op / 2) % 2 == 1),
                        },
                    )
                } else {
                    None
                }
            },
        }
    }

    /// Decoding undoes encoding.
    pub proof fn lemma_decoding_encoding(self)
        requires
            self.wf(),
        ensures
            Instruction::decoding(self.encoding()) == Some(self),
    {
        broadcast use {PinID::lemma_wf, PinID::lemma_view_injective, PinID::lemma_of};

    }

    /// The number of bytes of the instruction's encoding.
    pub fn byte_size(&self) -> (n: usize)
        ensures
            n == self.size(),
            n == self.encoding().bytes().len(),
            n == 1 || n == 2,
    {
        match *self {
            Instruction::End
            | Instruction::And
            | Instruction::Or
            | Instruction::Xor
            | Instruction::Not
            | Instruction::Pop => 1,
            Instruction::SetOutput { .. }
            | Instruction::Toggle { .. }
            | Instruction::On { .. }
            | Instruction::If { .. } => 2,
        }
    }

    /// Encodes the instruction.
    pub fn encode(&self) -> (r: InstructionEncoding)
        ensures
            r == self.encoding(),
            self.wf(),
    {
        broadcast use PinID::lemma_wf;

        match *self {
            Instruction::End => InstructionEncoding::single_byte(INSTR_END),
            Instruction::And => InstructionEncoding::single_byte(INSTR_AND),
            Instruction::Or => InstructionEncoding::single_byte(INSTR_OR),
            Instruction::Xor => InstructionEncoding::single_byte(INSTR_XOR),
            Instruction::Not => InstructionEncoding::single_byte(INSTR_NOT),
            Instruction::Pop => InstructionEncoding::single_byte(INSTR_POP),
            Instruction::SetOutput { output, value } => {
                let mut instr = INSTR_SET;
                if value.as_bit() {
                    instr += SET_VALUE_MASK;
                }
                InstructionEncoding::dual_byte(instr, output.get())
            },
            Instruction::Toggle { output } => InstructionEncoding::dual_byte(
                INSTR_TOGGLE,
                output.get(),
            ),
            Instruction::On { input, edge } => {
                let mut instr = INSTR_ON;
                if edge.as_bit() {
                    instr += ON_EDGE_MASK;
                }
                InstructionEncoding::dual_byte(instr, input.get())
            },
            Instruction::If { number, is_was, value, in_out } => {
                let mut instr = INSTR_IF;
                if is_was.as_bit() {
                    instr += IF_IS_WAS_MASK;
                }
                if in_out.as_bit() {
                    instr += IF_IO_MASK;
                }
                if value.as_bit() {
                    instr += IF_VALUE_MASK;
                }
                InstructionEncoding::dual_byte(instr, number.get())
            },
        }
    }

    /// Decodes an encoding: the instruction it stands for, or the error of
    /// kind `Instruction` where it stands for none.
    pub fn decode(encoding: &InstructionEncoding) -> (r: Result<Instruction, DecodingError>)
        ensures
            r == match Instruction::decoding(*encoding) {
                Some(instruction) => Ok::<Instruction, DecodingError>(instruction),
                None => Err(DecodingError { kind: DecodingErrorKind::Instruction }),
            },
            r matches Ok(instruction) ==> instruction.wf(),
    {
        broadcast use {PinID::lemma_wf, PinID::lemma_view_injective, PinID::lemma_of};

        let malformed = DecodingError { kind: DecodingErrorKind::Instruction };
        match *encoding {
            InstructionEncoding::SingleByte(instr) => {
                assert(instr & 0x7f == instr % 128) by (bit_vector);
                let op = instr & SINGLE_BYTE_MASK;
                if op == INSTR_END {
                    Ok(Instruction::End)
                } else if op == INSTR_AND {
                    Ok(Instruction::And)
                } else if op == INSTR_OR {
                    Ok(Instruction::Or)
                } else if op == INSTR_XOR {
                    Ok(Instruction::Xor)
                } else if op == INSTR_NOT {
                    Ok(Instruction::Not)
                } else if op == INSTR_POP {
                    Ok(Instruction::Pop)
                } else {
                    Err(malformed)
                }
            },
            InstructionEncoding::DualByte(instr, operand) => {
                assert(operand & 0x3f == operand % 64) by (bit_vector);
                assert((instr & 0x3e == 0) == (instr % 64 <= 1)) by (bit_vector);
                assert((instr & 0x3f == 2) == (instr % 64 == 2)) by (bit_vector);
                assert((instr & 0x3e == 4) == (instr % 64 == 4 || instr % 64 == 5))
                    by (bit_vector);
                assert((instr & 0x38 == 8) == (8 <= instr % 64 && instr % 64 <= 15))
                    by (bit_vector);
                assert((instr & 1 != 0) == (instr % 2 == 1)) by (bit_vector);
                assert((instr & 2 != 0) == ((instr / 2) % 2 == 1)) by (bit_vector);
                assert((instr & 4 != 0) == ((instr / 4) % 2 == 1)) by (bit_vector);
                let pin = match PinID::try_from(operand & DUAL_BYTE_MASK) {
                    Ok(pin) => pin,
                    Err(_) => {
                        return Err(malformed);
                    },
                };
                if instr & INSTR_SET_MASK == INSTR_SET {
                    Ok(
                        Instruction::SetOutput {
                            output: pin,
                            value: Value::from_bit(instr & SET_VALUE_MASK != 0),
                        },
                    )
                } else if instr & INSTR_TOGGLE_MASK == INSTR_TOGGLE {
                    Ok(Instruction::Toggle { output: pin })
                } else if instr & INSTR_ON_MASK == INSTR_ON {
                    Ok(Instruction::On { input: pin, edge: Edge::from_bit(instr & ON_EDGE_MASK != 0) })
                } else if instr & INSTR_IF_MASK == INSTR_IF {
                    Ok(
                        Instruction::If {
                            number: pin,
                            is_was: IsWas::from_bit(instr & IF_IS_WAS_MASK != 0),
                            value: Value::from_bit(instr & IF_VALUE_MASK != 0),
                            in_out: InOut::from_bit(instr & IF_IO_MASK != 0),
                        },
                    )
                } else {
                    Err(malformed)
                }
            },
        }
    }
}

/// A compiled program: its instructions and, where known, the source
/// position of each.
#[derive(Clone, Debug, PartialEq, Eq)]
pub struct Program {
    pub instructions: Vec<Instruction>,
    pub source_locations: Vec<SourceLoc>,
}

/// The program needs a deeper stack than was allowed.
#[derive(Copy, Clone, Debug, PartialEq, Eq, Structural)]
pub struct StackLimitError {
    pub source_location: Option<SourceLoc>,
}

/// The program has more bytes than were allowed.
#[derive(Copy, Clone, Debug, PartialEq, Eq, Structural)]
pub struct ProgramSizeError {
    pub source_location: Option<SourceLoc>,
}

/// By how much an instruction changes the number of values on the stack.
pub open spec fn stack_effect(instruction: Instruction) -> int {
    match instruction {
        Instruction::On { .. } | Instruction::If { .. } => 1,
        Instruction::Pop | Instruction::And | Instruction::Or | Instruction::Xor => -1,
        _ => 0,
    }
}

/// The number of values on the stack after all of `code` has run, counted
/// from an empty stack.
pub open spec fn depth_after(code: Seq<Instruction>) -> int
    decreases code.len(),
{
    if code.len() == 0 {
        0
    } else {
        depth_after(code.drop_last()) + stack_effect(code.last())
    }
}

/// The largest number of values that the stack holds while `code` runs.
pub open spec fn max_depth(code: Seq<Instruction>) -> int
    decreases code.len(),
{
    if code.len() == 0 {
        0
    } else if depth_after(code) > max_depth(code.drop_last()) {
        depth_after(code)
    } else {
        max_depth(code.drop_last())
    }
}

/// The number of bytes of the encodings of `code`.
pub open spec fn program_size(code: Seq<Instruction>) -> nat
    decreases code.len(),
{
    if code.len() == 0 {
        0
    } else {
        program_size(code.drop_last()) + code.last().size()
    }
}

/// The encodings of `code`, one after the other.
pub open spec fn encode_instructions(code: Seq<Instruction>) -> Seq<u8>
    decreases code.len(),
{
    if code.len() == 0 {
        Seq::empty()
    } else {
        encode_instructions(code.drop_last()) + code.last().encoding().bytes()
    }
}

/// The instructions that a byte string stands for, read from the front in
/// one pass; `None` where a byte stands in the wrong place or an encoding
/// stands for no instruction.
pub open spec fn decode_instructions(bytes: Seq<u8>) -> Option<Seq<Instruction>>
    decreases bytes.len(),
{
    if bytes.len() == 0 {
        Some(Seq::empty())
    } else if bytes[0] / 64 == 2 {
        if bytes.len() < 2 || bytes[1] / 64 != 3 {
            None
        } else {
            match Instruction::decoding(InstructionEncoding::DualByte(bytes[0], bytes[1])) {
                None => None,
                Some(instruction) => match decode_instructions(bytes.skip(2)) {
                    None => None,
                    Some(rest) => Some(seq![instruction] + rest),
                },
            }
        }
    } else if bytes[0] / 64 == 3 {
        None
    } else {
        match Instruction::decoding(InstructionEncoding::SingleByte(bytes[0])) {
            None => None,
            Some(instruction) => match decode_instructions(bytes.skip(1)) {
                None => None,
                Some(rest) => Some(seq![instruction] + rest),
            },
        }
    }
}

/// The four bytes that every serialised program starts with: `SHAL`.
pub open spec fn magic() -> Seq<u8> {
    seq![0x53u8, 0x48u8, 0x41u8, 0x4cu8]
}

/// The two bytes of a number, the high one first.
pub open spec fn be16(x: u16) -> Seq<u8> {
    seq![(x / 256) as u8, (x % 256) as u8]
}

/// The number that two bytes stand for, the high one first.
pub open spec fn from_be16(high: u8, low: u8) -> u16 {
    (high * 256 + low) as u16
}

/// The header of a program with the instructions `code`: the length of its
/// instruction bytes, reduced to sixteen bits, and their checksum.
pub open spec fn header_of(code: Seq<Instruction>) -> ProgramHeader {
    ProgramHeader {
        length: (program_size(code) % 65536) as u16,
        crc: crc16_xmodem(encode_instructions(code)),
    }
}

/// The serialised program: magic, length, checksum, instruction bytes.
pub open spec fn serialized(code: Seq<Instruction>) -> Seq<u8> {
    magic() + be16(header_of(code).length) + be16(header_of(code).crc) + encode_instructions(code)
}

/// The instructions of a serialised program, or why the bytes are none. The
/// magic is judged first, then the length, then the checksum, and only then
/// the instruction bytes.
pub open spec fn deserialized(bytes: Seq<u8>) -> Result<Seq<Instruction>, DecodingErrorKind> {
    if bytes.len() < 8 {
        Err(DecodingErrorKind::Truncated)
    } else if bytes.subrange(0, 4) != magic() {
        Err(DecodingErrorKind::Magic)
    } else if bytes.len() - 8 != from_be16(bytes[4], bytes[5]) {
        Err(DecodingErrorKind::Length)
    } else if crc16_xmodem(bytes.skip(8)) != from_be16(bytes[6], bytes[7]) {
        Err(DecodingErrorKind::Checksum)
    } else {
        match decode_instructions(bytes.skip(8)) {
            Some(code) => Ok(code),
            None => Err(DecodingErrorKind::Instruction),
        }
    }
}

/// The position recorded for the instruction at `index`, if one is.
pub open spec fn location_at(locations: Seq<SourceLoc>, index: int) -> Option<SourceLoc> {
    if 0 <= index < locations.len() {
        Some(locations[index])
    } else {
        None
    }
}

/// The limit that a check goes by: the one given, or else the largest that
/// the result type can hold.
pub open spec fn depth_limit(limit: Option<i32>) -> int {
    match limit {
        Some(l) => l as int,
        None => i32::MAX as int,
    }
}

/// The limit that a check goes by: the one given, or else the largest that
/// the result type can hold.
pub open spec fn size_limit(limit: Option<usize>) -> int {
    match limit {
        Some(l) => l as int,
        None => usize::MAX as int,
    }
}

/// After the instruction at `index` the stack has been deeper than `limit`.
pub open spec fn depth_exceeded_at(code: Seq<Instruction>, limit: int, index: int) -> bool {
    0 <= index < code.len() && max_depth(code.take(index + 1)) > limit
}

/// With the instruction at `index` the program has more bytes than `limit`.
pub open spec fn size_exceeded_at(code: Seq<Instruction>, limit: int, index: int) -> bool {
    0 <= index < code.len() && program_size(code.take(index + 1)) > limit
}

/// The number of values that an instruction takes from the stack.
pub open spec fn stack_need(instruction: Instruction) -> int {
    match instruction {
        Instruction::Not | Instruction::Pop => 1,
        Instruction::And | Instruction::Or | Instruction::Xor => 2,
        _ => 0,
    }
}

/// Run on a stack of `depth` values, no instruction of `code` finds fewer
/// values on the stack than it takes.
pub open spec fn stack_safe(code: Seq<Instruction>, depth: int) -> bool
    decreases code.len(),
{
    code.len() == 0 || (stack_safe(code.drop_last(), depth) && depth + depth_after(
        code.drop_last(),
    ) >= stack_need(code.last()))
}

/// `End` is not among the instructions.
pub open spec fn free_of_end(code: Seq<Instruction>) -> bool {
    forall|i: int| 0 <= i < code.len() ==> #[trigger] code[i] != Instruction::End
}

/// Run on a stack of `depth` values, `code` never takes more values than the
/// stack holds, leaves `delta` values more than it found, and holds no `End`.
pub open spec fn nested(code: Seq<Instruction>, depth: int, delta: int) -> bool {
    stack_safe(code, depth) && depth_after(code) == delta && free_of_end(code)
}

/// The instructions end in an `End` and hold no other.
pub open spec fn single_trailing_end(code: Seq<Instruction>) -> bool {
    code.len() > 0 && code.last() == Instruction::End && free_of_end(code.drop_last())
}

/// One instruction alone is nested where the stack holds what it takes.
pub proof fn lemma_nested_one(instruction: Instruction, depth: int)
    requires
        instruction != Instruction::End,
        depth >= stack_need(instruction),
    ensures
        nested(seq![instruction], depth, stack_effect(instruction)),
{
    let code = seq![instruction];
    assert(code.drop_last() =~= Seq::<Instruction>::empty());
    assert(depth_after(code.drop_last()) == 0);
    assert(stack_safe(code.drop_last(), depth));
}

/// No instructions at all are nested.
pub proof fn lemma_nested_empty(depth: int)
    ensures
        nested(Seq::<Instruction>::empty(), depth, 0),
{
}

/// Two nested sequences, the second run on what the first leaves, are
/// nested when joined.
pub proof fn lemma_nested_join(
    first: Seq<Instruction>,
    second: Seq<Instruction>,
    depth: int,
    delta_first: int,
    delta_second: int,
)
    requires
        nested(first, depth, delta_first),
        nested(second, depth + delta_first, delta_second),
    ensures
        nested(first + second, depth, delta_first + delta_second),
    decreases second.len(),
{
    if second.len() == 0 {
        assert(first + second =~= first);
    } else {
        let init = second.drop_last();
        assert((first + second).drop_last() =~= first + init);
        assert((first + second).last() == second.last());
        assert forall|i: int| 0 <= i < init.len() implies #[trigger] init[i] != Instruction::End by {
            assert(init[i] == second[i]);
        }
        lemma_nested_join(first, init, depth, delta_first, depth_after(init));
    }
}

/// Taking one more instruction adds it at the end.
pub proof fn lemma_take_step(code: Seq<Instruction>, index: int)
    requires
        0 <= index < code.len(),
    ensures
        code.take(index + 1).drop_last() == code.take(index),
        code.take(index + 1).last() == code[index],
        code.take(code.len() as int) == code,
{
    assert(code.take(index + 1).drop_last() =~= code.take(index));
    assert(code.take(code.len() as int) =~= code);
}

/// The stack's depth changes by at most one with every instruction.
pub proof fn lemma_depth_bounds(code: Seq<Instruction>)
    ensures
        -code.len() <= depth_after(code) <= code.len(),
        0 <= max_depth(code) <= code.len(),
    decreases code.len(),
{
    if code.len() > 0 {
        lemma_depth_bounds(code.drop_last());
    }
}

/// The deepest stack of a part of a program is no deeper than that of the
/// whole.
pub proof fn lemma_max_depth_monotone(code: Seq<Instruction>, index: int)
    requires
        0 <= index <= code.len(),
    ensures
        max_depth(code.take(index)) <= max_depth(code),
    decreases code.len(),
{
    if index == code.len() {
        assert(code.take(index) =~= code);
    } else {
        lemma_max_depth_monotone(code.drop_last(), index);
        assert(code.drop_last().take(index) =~= code.take(index));
    }
}

/// A part of a program has no more bytes than the whole.
pub proof fn lemma_program_size_monotone(code: Seq<Instruction>, index: int)
    requires
        0 <= index <= code.len(),
    ensures
        program_size(code.take(index)) <= program_size(code),
    decreases code.len(),
{
    if index == code.len() {
        assert(code.take(index) =~= code);
    } else {
        lemma_program_size_monotone(code.drop_last(), index);
        assert(code.drop_last().take(index) =~= code.take(index));
    }
}

/// The instruction bytes are as many as the sizes of the instructions say.
pub proof fn lemma_encoded_length(code: Seq<Instruction>)
    ensures
        encode_instructions(code).len() == program_size(code),
    decreases code.len(),
{
    if code.len() > 0 {
        lemma_encoded_length(code.drop_last());
    }
}

/// A program is allowed the depth of its deepest stack, and no less.
pub proof fn lemma_stack_limit_boundary(code: Seq<Instruction>)
    requires
        code.len() > 0,
    ensures
        forall|i: int| !#[trigger] depth_exceeded_at(code, max_depth(code), i),
        exists|i: int| #[trigger] depth_exceeded_at(code, max_depth(code) - 1, i),
{
    assert forall|i: int| !#[trigger] depth_exceeded_at(code, max_depth(code), i) by {
        if 0 <= i < code.len() {
            lemma_max_depth_monotone(code, i + 1);
        }
    }
    lemma_take_step(code, code.len() - 1);
    assert(depth_exceeded_at(code, max_depth(code) - 1, code.len() - 1));
}

/// A program is allowed the number of its bytes, and no less.
pub proof fn lemma_size_limit_boundary(code: Seq<Instruction>)
    requires
        code.len() > 0,
    ensures
        forall|i: int| !#[trigger] size_exceeded_at(code, program_size(code) as int, i),
        exists|i: int| #[trigger] size_exceeded_at(code, program_size(code) - 1, i),
{
    assert forall|i: int| !#[trigger] size_exceeded_at(code, program_size(code) as int, i) by {
        if 0 <= i < code.len() {
            lemma_program_size_monotone(code, i + 1);
        }
    }
    lemma_take_step(code, code.len() - 1);
    assert(size_exceeded_at(code, program_size(code) - 1, code.len() - 1));
}

/// Two programs with the same instructions have the same header.
pub proof fn lemma_header_determined(first: Program, second: Program)
    requires
        first.instructions@ == second.instructions@,
    ensures
        header_of(first.instructions@) == header_of(second.instructions@),
        serialized(first.instructions@) == serialized(second.instructions@),
{
}

/// Reading bytes that are followed by more reads the same instructions first.
pub proof fn lemma_decode_concat(first: Seq<u8>, second: Seq<u8>)
    requires
        decode_instructions(first) is Some,
    ensures
        decode_instructions(first + second) == match decode_instructions(second) {
            Some(rest) => Some(decode_instructions(first).unwrap() + rest),
            None => None,
        },
    decreases first.len(),
{
    let whole = first + second;
    if first.len() == 0 {
        assert(whole =~= second);
        if let Some(rest) = decode_instructions(second) {
            assert(Seq::<Instruction>::empty() + rest =~= rest);
        }
    } else {
        assert(whole[0] == first[0]);
        if first[0] / 64 == 2 {
            assert(whole[1] == first[1]);
            assert(whole.skip(2) =~= first.skip(2) + second);
            lemma_decode_concat(first.skip(2), second);
            let instruction = Instruction::decoding(
                InstructionEncoding::DualByte(first[0], first[1]),
            ).unwrap();
            if let Some(rest) = decode_instructions(second) {
                let middle = decode_instructions(first.skip(2)).unwrap();
                assert(seq![instruction] + (middle + rest) =~= (seq![instruction] + middle) + rest);
            }
        } else {
            assert(whole.skip(1) =~= first.skip(1) + second);
            lemma_decode_concat(first.skip(1), second);
            let instruction = Instruction::decoding(
                InstructionEncoding::SingleByte(first[0]),
            ).unwrap();
            if let Some(rest) = decode_instructions(second) {
                let middle = decode_instructions(first.skip(1)).unwrap();
                assert(seq![instruction] + (middle + rest) =~= (seq![instruction] + middle) + rest);
            }
        }
    }
}

/// The bytes of one instruction are read back as that instruction.
pub proof fn lemma_decode_one(instruction: Instruction)
    requires
        instruction.wf(),
    ensures
        decode_instructions(instruction.encoding().bytes()) == Some(seq![instruction]),
{
    broadcast use {PinID::lemma_wf, PinID::lemma_view_injective, PinID::lemma_of};

    instruction.lemma_decoding_encoding();
    let bytes = instruction.encoding().bytes();
    assert(decode_instructions(Seq::<u8>::empty()) == Some(Seq::<Instruction>::empty()));
    assert(seq![instruction] + Seq::<Instruction>::empty() =~= seq![instruction]);
    match instruction.encoding() {
        InstructionEncoding::SingleByte(b) => {
            assert(bytes.len() == 1 && bytes[0] == b);
            assert(b / 64 == 0);
            assert(bytes.skip(1) =~= Seq::<u8>::empty());
        },
        InstructionEncoding::DualByte(b1, b2) => {
            assert(bytes.len() == 2 && bytes[0] == b1 && bytes[1] == b2);
            assert(b1 / 64 == 2);
            assert(b2 / 64 == 3);
            assert(bytes.skip(2) =~= Seq::<u8>::empty());
        },
    }
}

/// The instruction bytes of a program are read back as its instructions.
pub proof fn lemma_decode_encode(code: Seq<Instruction>)
    requires
        forall|i: int| 0 <= i < code.len() ==> (#[trigger] code[i]).wf(),
    ensures
        decode_instructions(encode_instructions(code)) == Some(code),
    decreases code.len(),
{
    if code.len() > 0 {
        lemma_decode_encode(code.drop_last());
        lemma_decode_one(code.last());
        lemma_decode_concat(encode_instructions(code.drop_last()), code.last().encoding().bytes());
        assert(code.drop_last() + seq![code.last()] =~= code);
    }
}

/// Two bytes, the high one first, are read back as the number they stand for.
pub proof fn lemma_be16(x: u16)
    ensures
        be16(x).len() == 2,
        from_be16(be16(x)[0], be16(x)[1]) == x,
{
}

/// A serialised program of at most 65535 instruction bytes is read back as
/// the instructions it was made from.
pub proof fn lemma_round_trip(code: Seq<Instruction>)
    requires
        forall|i: int| 0 <= i < code.len() ==> (#[trigger] code[i]).wf(),
        program_size(code) <= u16::MAX,
    ensures
        deserialized(serialized(code)) == Ok::<Seq<Instruction>, DecodingErrorKind>(code),
{
    let body = encode_instructions(code);
    let header = header_of(code);
    let bytes = serialized(code);
    lemma_encoded_length(code);
    lemma_decode_encode(code);
    lemma_be16(header.length);
    lemma_be16(header.crc);
    assert(bytes.len() == 8 + body.len());
    assert(bytes.subrange(0, 4) =~= magic());
    assert(bytes[4] == be16(header.length)[0]);
    assert(bytes[5] == be16(header.length)[1]);
    assert(bytes[6] == be16(header.crc)[0]);
    assert(bytes[7] == be16(header.crc)[1]);
    assert(bytes.skip(8) =~= body);
}

impl Program {
    /// Every pin of every instruction is a pin of the controller.
    pub open spec fn wf(self) -> bool {
        forall|i: int| 0 <= i < self.instructions@.len() ==> (#[trigger] self.instructions@[i]).wf()
    }

    /// Serialises the program: the magic `SHAL`, the length of the
    /// instruction bytes, their checksum, and the instruction bytes.
    pub fn encode(&self) -> (bytes: Vec<u8>)
        ensures
            bytes@ == serialized(self.instructions@),
    {
        let mut body = self.instruction_bytes();
        let crc = checksum_xmodem(body.as_slice());
        let length = (body.len() % 65536) as u16;
        let mut result: Vec<u8> = Vec::new();
        result.push(0x53);
        result.push(0x48);
        result.push(0x41);
        result.push(0x4c);
        result.push((length / 256) as u8);
        result.push((length % 256) as u8);
        result.push((crc / 256) as u8);
        result.push((crc % 256) as u8);
        let ghost head = result@;
        let ghost tail = body@;
        result.append(&mut body);
        assert(result@ =~= head + tail);
        assert(head =~= magic() + be16(length) + be16(crc));
        result
    }

    /// Reads a serialised program. The magic is judged first, then the
    /// length, then the checksum, and only then the instructions; the error
    /// tells which of them failed. No source positions are known of a
    /// program that was read.
    pub fn decode(bytes: &[u8]) -> (r: Result<Program, DecodingError>)
        ensures
            match deserialized(bytes@) {
                Ok(code) => r matches Ok(program) && program.instructions@ == code
                    && program.source_locations@.len() == 0 && program.wf(),
                Err(kind) => r == Err::<Program, DecodingError>(DecodingError { kind }),
            },
    {
        let n = bytes.len();
        if n < 8 {
            return Err(DecodingError { kind: DecodingErrorKind::Truncated });
        }
        if bytes[0] != 0x53 || bytes[1] != 0x48 || bytes[2] != 0x41 || bytes[3] != 0x4c {
            assert(bytes@.subrange(0, 4)[0] == bytes@[0]);
            assert(bytes@.subrange(0, 4)[1] == bytes@[1]);
            assert(bytes@.subrange(0, 4)[2] == bytes@[2]);
            assert(bytes@.subrange(0, 4)[3] == bytes@[3]);
            return Err(DecodingError { kind: DecodingErrorKind::Magic });
        }
        assert(bytes@.subrange(0, 4) =~= magic());
        let read_length: u16 = (bytes[4] as u16) * 256 + (bytes[5] as u16);
        let read_crc: u16 = (bytes[6] as u16) * 256 + (bytes[7] as u16);
        if n - 8 != read_length as usize {
            return Err(DecodingError { kind: DecodingErrorKind::Length });
        }
        let body = vstd::slice::slice_subrange(bytes, 8, n);
        assert(body@ =~= bytes@.skip(8));
        if checksum_xmodem(body) != read_crc {
            return Err(DecodingError { kind: DecodingErrorKind::Checksum });
        }
        let malformed = DecodingError { kind: DecodingErrorKind::Instruction };
        let m = body.len();
        let mut instructions: Vec<Instruction> = Vec::new();
        let mut pos: usize = 0;
        proof {
            assert(body@.skip(0) =~= body@);
            if let Some(rest) = decode_instructions(body@) {
                assert(instructions@ + rest =~= rest);
            }
        }
        while pos < m
            invariant
                pos <= m,
                m == body@.len(),
                malformed == (DecodingError { kind: DecodingErrorKind::Instruction }),
                deserialized(bytes@) == match decode_instructions(body@) {
                    Some(code) => Ok::<Seq<Instruction>, DecodingErrorKind>(code),
                    None => Err(DecodingErrorKind::Instruction),
                },
                forall|i: int| 0 <= i < instructions@.len() ==> (#[trigger] instructions@[i]).wf(),
                decode_instructions(body@) == match decode_instructions(body@.skip(pos as int)) {
                    Some(rest) => Some(instructions@ + rest),
                    None => None,
                },
            decreases m - pos,
        {
            let ghost rest = body@.skip(pos as int);
            let ghost before = instructions@;
            let b = body[pos];
            assert(rest[0] == b);
            assert(rest.len() == m - pos);
            assert((b & 0xc0 == 0x80) == (b / 64 == 2)) by (bit_vector);
            assert((b & 0xc0 == 0xc0) == (b / 64 == 3)) by (bit_vector);
            if b & PREFIX_MASK == FIRST_BYTE_PREFIX {
                if pos + 1 >= m {
                    return Err(malformed);
                }
                let b2 = body[pos + 1];
                assert(rest[1] == b2);
                assert((b2 & 0xc0 == 0xc0) == (b2 / 64 == 3)) by (bit_vector);
                if b2 & PREFIX_MASK != SECOND_BYTE_PREFIX {
                    return Err(malformed);
                }
                match Instruction::decode(&InstructionEncoding::DualByte(b, b2)) {
                    Ok(instruction) => {
                        instructions.push(instruction);
                    },
                    Err(e) => {
                        return Err(e);
                    },
                }
                assert(rest.skip(2) =~= body@.skip(pos as int + 2));
                pos += 2;
            } else if b & PREFIX_MASK == SECOND_BYTE_PREFIX {
                return Err(malformed);
            } else {
                match Instruction::decode(&InstructionEncoding::SingleByte(b)) {
                    Ok(instruction) => {
                        instructions.push(instruction);
                    },
                    Err(e) => {
                        return Err(e);
                    },
                }
                assert(rest.skip(1) =~= body@.skip(pos as int + 1));
                pos += 1;
            }
            proof {
                let instruction = instructions@.last();
                assert(instructions@ =~= before + seq![instruction]);
                if let Some(tail) = decode_instructions(body@.skip(pos as int)) {
                    assert(before + (seq![instruction] + tail) =~= instructions@ + tail);
                }
            }
        }
        assert(body@.skip(m as int) =~= Seq::<u8>::empty());
        assert(instructions@ + Seq::<Instruction>::empty() =~= instructions@);
        Ok(Program { instructions, source_locations: Vec::new() })
    }

    /// The position recorded for the instruction at `index`, if one is.
    fn location(&self, index: usize) -> (r: Option<SourceLoc>)
        ensures
            r == location_at(self.source_locations@, index as int),
    {
        if index < self.source_locations.len() {
            Some(self.source_locations[index])
        } else {
            None
        }
    }

    /// The depth of the deepest stack that the program needs, unless it is
    /// more than the limit. Without a limit the largest `i32` is the limit.
    ///
    /// The error holds the position of the first instruction after which the
    /// stack has been deeper than the limit.
    pub fn check_stack_depth(&self, limit: Option<i32>) -> (r: Result<i32, StackLimitError>)
        ensures
            r matches Ok(depth) ==> depth == max_depth(self.instructions@) && forall|i: int|
                !#[trigger] depth_exceeded_at(self.instructions@, depth_limit(limit), i),
            r matches Err(e) ==> exists|i: int|
                {
                    &&& #[trigger] depth_exceeded_at(self.instructions@, depth_limit(limit), i)
                    &&& forall|j: int|
                        0 <= j < i ==> !#[trigger] depth_exceeded_at(
                            self.instructions@,
                            depth_limit(limit),
                            j,
                        )
                    &&& e.source_location == location_at(self.source_locations@, i)
                },
    {
        let bound: i32 = match limit {
            Some(l) => l,
            None => i32::MAX,
        };
        let n = self.instructions.len();
        let mut depth: i128 = 0;
        let mut max: i128 = 0;
        let mut i: usize = 0;
        let ghost code = self.instructions@;
        while i < n
            invariant
                i <= n,
                n == code.len(),
                code == self.instructions@,
                bound == depth_limit(limit),
                depth == depth_after(code.take(i as int)),
                max == max_depth(code.take(i as int)),
                i > 0 ==> max <= bound,
                forall|j: int| 0 <= j < i ==> !#[trigger] depth_exceeded_at(code, bound as int, j),
            decreases n - i,
        {
            proof {
                lemma_take_step(code, i as int);
                lemma_depth_bounds(code.take(i as int));
            }
            match self.instructions[i] {
                Instruction::Pop | Instruction::And | Instruction::Or | Instruction::Xor => {
                    depth -= 1;
                },
                Instruction::On { .. } | Instruction::If { .. } => {
                    depth += 1;
                },
                _ => {},
            }
            if depth > max {
                max = depth;
            }
            if max > bound as i128 {
                assert(depth_exceeded_at(code, depth_limit(limit), i as int));
                return Err(StackLimitError { source_location: self.location(i) });
            }
            assert(!depth_exceeded_at(code, bound as int, i as int));
            i += 1;
        }
        proof {
            assert(code.take(n as int) =~= code);
            lemma_depth_bounds(code);
        }
        Ok(max as i32)
    }

    /// The number of bytes of the program's instructions, unless it is more
    /// than the limit. Without a limit the largest `usize` is the limit.
    ///
    /// The error holds the position of the first instruction with which the
    /// program has more bytes than the limit.
    pub fn check_program_size(&self, limit: Option<usize>) -> (r: Result<usize, ProgramSizeError>)
        ensures
            r matches Ok(size) ==> size == program_size(self.instructions@) && forall|i: int|
                !#[trigger] size_exceeded_at(self.instructions@, size_limit(limit), i),
            r matches Err(e) ==> exists|i: int|
                {
                    &&& #[trigger] size_exceeded_at(self.instructions@, size_limit(limit), i)
                    &&& forall|j: int|
                        0 <= j < i ==> !#[trigger] size_exceeded_at(self.instructions@, size_limit(limit), j)
                    &&& e.source_location == location_at(self.source_locations@, i)
                },
    {
        let bound: usize = match limit {
            Some(l) => l,
            None => usize::MAX,
        };
        let n = self.instructions.len();
        let mut length: usize = 0;
        let mut i: usize = 0;
        let ghost code = self.instructions@;
        while i < n
            invariant
                i <= n,
                n == code.len(),
                code == self.instructions@,
                bound == size_limit(limit),
                length == program_size(code.take(i as int)),
                length <= bound,
                forall|j: int| 0 <= j < i ==> !#[trigger] size_exceeded_at(code, bound as int, j),
            decreases n - i,
        {
            proof {
                lemma_take_step(code, i as int);
            }
            let size = self.instructions[i].byte_size();
            if size > bound - length {
                assert(size_exceeded_at(code, size_limit(limit), i as int));
                return Err(ProgramSizeError { source_location: self.location(i) });
            }
            assert(!size_exceeded_at(code, bound as int, i as int));
            length += size;
            i += 1;
        }
        proof {
            assert(code.take(n as int) =~= code);
        }
        Ok(length)
    }

    /// The encodings of the program's instructions, one after the other.
    pub fn instruction_bytes(&self) -> (bytes: Vec<u8>)
        ensures
            bytes@ == encode_instructions(self.instructions@),
            bytes@.len() == program_size(self.instructions@),
    {
        let n = self.instructions.len();
        let mut bytes: Vec<u8> = Vec::new();
        let mut i: usize = 0;
        let ghost code = self.instructions@;
        while i < n
            invariant
                i <= n,
                n == code.len(),
                code == self.instructions@,
                bytes@ == encode_instructions(code.take(i as int)),
            decreases n - i,
        {
            proof {
                lemma_take_step(code, i as int);
            }
            match self.instructions[i].encode() {
                InstructionEncoding::SingleByte(b) => {
                    bytes.push(b);
                },
                InstructionEncoding::DualByte(b1, b2) => {
                    bytes.push(b1);
                    bytes.push(b2);
                },
            }
            assert(bytes@ =~= encode_instructions(code.take(i as int))
                + code[i as int].encoding().bytes());
            i += 1;
        }
        proof {
            assert(code.take(n as int) =~= code);
            lemma_encoded_length(code);
        }
        bytes
    }

    /// The number of bytes of the program's instructions.
    pub fn calc_length(&self) -> (n: usize)
        ensures
            n == program_size(self.instructions@),
    {
        match self.check_program_size(None) {
            Ok(n) => n,
            Err(_) => self.instruction_bytes().len(),
        }
    }

    /// The checksum of the program's instruction bytes.
    pub fn calc_crc(&self) -> (crc: u16)
        ensures
            crc == crc16_xmodem(encode_instructions(self.instructions@)),
    {
        let bytes = self.instruction_bytes();
        checksum_xmodem(bytes.as_slice())
    }

    /// The header that identifies the program. It depends on the
    /// instructions alone.
    pub fn header(&self) -> (header: ProgramHeader)
        ensures
            header == header_of(self.instructions@),
    {
        let length = self.calc_length();
        ProgramHeader { length: (length % 65536) as u16, crc: self.calc_crc() }
    }
}

impl<'a> vstd::std_specs::convert::FromSpecImpl<&'a Program> for Vec<u8> {
    open spec fn obeys_from_spec() -> bool {
        false
    }

    open spec fn from_spec(program: &'a Program) -> Vec<u8> {
        arbitrary()
    }
}

impl<'a> vstd::std_specs::convert::TryFromSpecImpl<&'a [u8]> for Program {
    open spec fn obeys_try_from_spec() -> bool {
        false
    }

    open spec fn try_from_spec(bytes: &'a [u8]) -> Result<Program, DecodingError> {
        arbitrary()
    }
}

impl<'a> From<&'a Program> for Vec<u8> {
    /// Serialises the program, as `Program::encode` does.
    fn from(program: &'a Program) -> (bytes: Vec<u8>)
        ensures
            bytes@ == serialized(program.instructions@),
    {
        program.encode()
    }
}

impl<'a> TryFrom<&'a [u8]> for Program {
    type Error = DecodingError;

    /// Reads a serialised program, as `Program::decode` does.
    fn try_from(bytes: &'a [u8]) -> (r: Result<Program, DecodingError>)
        ensures
            match deserialized(bytes@) {
                Ok(code) => r matches Ok(program) && program.instructions@ == code
                    && program.source_locations@.len() == 0 && program.wf(),
                Err(kind) => r == Err::<Program, DecodingError>(DecodingError { kind }),
            },
    {
        Program::decode(bytes)
    }
}

} // verus!
