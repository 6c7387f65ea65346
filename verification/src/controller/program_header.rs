//! The header that identifies a compiled program: its length and checksum.

use crate::text::{decimal, decimal_list, push_decimal, push_decimal_list};
use std::convert::TryFrom;
use vstd::prelude::*;
use vstd::std_specs::convert::{FromSpecImpl, TryFromSpecImpl};
use vstd::string::StringExecFns;

verus! {

/// The number of bytes of a serialised program header.
pub const PROGRAM_HEADER_LENGTH: usize = 8;

/// The length in bytes and the checksum of a program's instruction bytes.
#[derive(Copy, Clone, Debug, PartialEq, Eq, Structural)]
pub struct ProgramHeader {
    pub length: u16,
    pub crc: u16,
}

/// Why bytes were refused as a program header.
#[derive(Debug, PartialEq, Eq)]
pub enum ProgramHeaderDecodeError {
    /// There are not eight bytes.
    IncorrectHeaderSize { actual_size: usize },
    /// The first four bytes are not `SHAL`; they are handed back.
    IncorrectPrefix { actual_prefix: Vec<u8> },
}

/// The eight bytes of a header: the magic `SHAL`, then the length and the
/// checksum, each with its high byte first.
pub open spec fn header_bytes(header: ProgramHeader) -> Seq<u8> {
    seq![
        0x53u8,
        0x48u8,
        0x41u8,
        0x4cu8,
        (header.length / 256) as u8,
        (header.length % 256) as u8,
        (header.crc / 256) as u8,
        (header.crc % 256) as u8,
    ]
}

/// The bytes start with the magic `SHAL`.
pub open spec fn has_magic(bytes: Seq<u8>) -> bool {
    bytes.len() >= 4 && bytes[0] == 0x53 && bytes[1] == 0x48 && bytes[2] == 0x41 && bytes[3]
        == 0x4c
}

/// The header that eight bytes with the magic stand for.
pub open spec fn header_of_bytes(bytes: Seq<u8>) -> ProgramHeader {
    ProgramHeader {
        length: (bytes[4] * 256 + bytes[5]) as u16,
        crc: (bytes[6] * 256 + bytes[7]) as u16,
    }
}

/// A header is read back from its bytes.
pub proof fn lemma_header_round_trip(header: ProgramHeader)
    ensures
        header_bytes(header).len() == PROGRAM_HEADER_LENGTH,
        has_magic(header_bytes(header)),
        header_of_bytes(header_bytes(header)) == header,
{
}

impl ProgramHeader {
    /// The number of bytes of a serialised program header.
    pub fn header_length() -> (n: usize)
        ensures
            n == PROGRAM_HEADER_LENGTH,
    {
        PROGRAM_HEADER_LENGTH
    }

    pub fn new(length: u16, crc: u16) -> (r: Self)
        ensures
            r == (ProgramHeader { length, crc }),
    {
        ProgramHeader { length, crc }
    }

    /// The eight bytes of the header.
    pub fn to_bytes(&self) -> (bytes: [u8; 8])
        ensures
            bytes@ == header_bytes(*self),
    {
        let bytes = [
            0x53u8,
            0x48u8,
            0x41u8,
            0x4cu8,
            (self.length / 256) as u8,
            (self.length % 256) as u8,
            (self.crc / 256) as u8,
            (self.crc % 256) as u8,
        ];
        assert(bytes@ =~= header_bytes(*self));
        bytes
    }
}

impl<'a> TryFrom<&'a [u8]> for ProgramHeader {
    type Error = ProgramHeaderDecodeError;

    /// Reads a header from its bytes. Other than eight bytes are refused
    /// with their number; eight bytes without the magic are refused with
    /// the first four of them.
    fn try_from(value: &'a [u8]) -> (r: Result<Self, ProgramHeaderDecodeError>)
        ensures
            value@.len() != 8 ==> (r matches Err(
                ProgramHeaderDecodeError::IncorrectHeaderSize { actual_size },
            ) && actual_size == value@.len()),
            value@.len() == 8 && !has_magic(value@) ==> (r matches Err(
                ProgramHeaderDecodeError::IncorrectPrefix { actual_prefix },
            ) && actual_prefix@ == value@.subrange(0, 4)),
            value@.len() == 8 && has_magic(value@) ==> r == Ok::<
                ProgramHeader,
                ProgramHeaderDecodeError,
            >(header_of_bytes(value@)),
    {
        if value.len() != 8 {
            return Err(ProgramHeaderDecodeError::IncorrectHeaderSize { actual_size: value.len() });
        }
        if value[0] != 0x53 || value[1] != 0x48 || value[2] != 0x41 || value[3] != 0x4c {
            let mut actual_prefix: Vec<u8> = Vec::new();
            actual_prefix.push(value[0]);
            actual_prefix.push(value[1]);
            actual_prefix.push(value[2]);
            actual_prefix.push(value[3]);
            assert(actual_prefix@ =~= value@.subrange(0, 4));
            return Err(ProgramHeaderDecodeError::IncorrectPrefix { actual_prefix });
        }
        Ok(
            ProgramHeader {
                length: (value[4] as u16) * 256 + (value[5] as u16),
                crc: (value[6] as u16) * 256 + (value[7] as u16),
            },
        )
    }
}

impl<'a> TryFromSpecImpl<&'a [u8]> for ProgramHeader {
    open spec fn obeys_try_from_spec() -> bool {
        false
    }

    open spec fn try_from_spec(value: &'a [u8]) -> Result<Self, ProgramHeaderDecodeError> {
        arbitrary()
    }
}

impl<'a> From<&'a ProgramHeader> for [u8; 8] {
    /// The eight bytes of a header.
    fn from(value: &'a ProgramHeader) -> (bytes: [u8; 8])
        ensures
            bytes@ == header_bytes(*value),
    {
        value.to_bytes()
    }
}

impl<'a> FromSpecImpl<&'a ProgramHeader> for [u8; 8] {
    open spec fn obeys_from_spec() -> bool {
        false
    }

    open spec fn from_spec(value: &'a ProgramHeader) -> [u8; 8] {
        arbitrary()
    }
}

impl ProgramHeaderDecodeError {
    /// The message of the error.
    pub open spec fn message(self) -> Seq<char> {
        match self {
            ProgramHeaderDecodeError::IncorrectHeaderSize { actual_size } =>
                "Incorrect header size: should be 8, was "@ + decimal(actual_size as nat),
            ProgramHeaderDecodeError::IncorrectPrefix { actual_prefix } =>
                "Header does not start with \"SHAL\" ([83, 72, 65, 76]), but starts with ["@
                    + decimal_list(actual_prefix@) + "]"@,
        }
    }

    /// The message of the error.
    pub fn to_string(&self) -> (text: String)
        ensures
            text@ == self.message(),
    {
        match self {
            ProgramHeaderDecodeError::IncorrectHeaderSize { actual_size } => {
                let mut text = String::from_str("Incorrect header size: should be 8, was ");
                push_decimal(&mut text, *actual_size as u64);
                text
            },
            ProgramHeaderDecodeError::IncorrectPrefix { actual_prefix } => {
                let mut text = String::from_str(
                    "Header does not start with \"SHAL\" ([83, 72, 65, 76]), but starts with [",
                );
                push_decimal_list(&mut text, actual_prefix);
                text.append("]");
                text
            },
        }
    }
}

} // verus!
