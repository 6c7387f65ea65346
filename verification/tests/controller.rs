use standaertha::controller::button_event::ButtonEvent;
use standaertha::controller::command::Command::{Off, On, Refresh, Toggle};
use standaertha::controller::command::{Command, CommandDecodeError, OutputOutOfRange};
use standaertha::controller::event::{Event, EventDecodeError, InputOutOfRange};
use standaertha::controller::message::{Message, MessageBody, MessageDecodingError};
use standaertha::controller::program_header::{
    ProgramHeader, ProgramHeaderDecodeError, PROGRAM_HEADER_LENGTH,
};

#[test]
fn test_command() {
    let refresh: u8 = (&Refresh).into();
    assert_eq!(refresh, 0x20);
    assert_eq!(Ok(Refresh), refresh.try_into());
    let toggle: u8 = (&Toggle(1)).into();
    assert_eq!(toggle, 0x41);
    assert_eq!(Ok(Toggle(1)), toggle.try_into());
    let off: u8 = (&Off(2)).into();
    assert_eq!(off, 0x82);
    assert_eq!(Ok(Off(2)), off.try_into());
    let on: u8 = (&On(3)).into();
    assert_eq!(on, 0xC3);
    assert_eq!(Ok(On(3)), on.try_into());
}

#[test]
fn test_command_constructors() {
    assert_eq!(Command::refresh(), Command::Refresh);
    assert_eq!(Command::toggle(31), Ok(Command::Toggle(31)));
    assert_eq!(Command::toggle(32), Err(OutputOutOfRange));
    assert_eq!(Command::on(0), Ok(Command::On(0)));
    assert_eq!(Command::on(255), Err(OutputOutOfRange));
    assert_eq!(Command::off(7), Ok(Command::Off(7)));
    assert_eq!(Command::off(64), Err(OutputOutOfRange));
}

#[test]
fn test_command_unknown_kind() {
    assert_eq!(Command::try_from(0x00), Err(CommandDecodeError));
    assert_eq!(Command::try_from(0x61), Err(CommandDecodeError));
    assert_eq!(Command::try_from(0xA0), Err(CommandDecodeError));
    assert_eq!(Command::try_from(0xE5), Err(CommandDecodeError));
    assert_eq!(Command::try_from(0x3F), Ok(Command::Refresh));
}

#[test]
fn test_command_round_trip_all_outputs() {
    for output in 0..32u8 {
        for command in [Command::Toggle(output), Command::Off(output), Command::On(output)] {
            let byte: u8 = (&command).into();
            assert_eq!(Command::try_from(byte), Ok(command));
        }
    }
}

#[test]
fn test_event() {
    assert_eq!(Event::redge(3), Ok(Event::RisingEdge(3)));
    assert_eq!(Event::fedge(31), Ok(Event::FallingEdge(31)));
    assert_eq!(Event::redge(32), Err(InputOutOfRange));
    assert_eq!(Event::fedge(200), Err(InputOutOfRange));
    let rising: u8 = (&Event::RisingEdge(1)).into();
    assert_eq!(rising, 0x61);
    let falling: u8 = (&Event::FallingEdge(2)).into();
    assert_eq!(falling, 0x22);
    assert_eq!(Event::try_from(0x61), Ok(Event::RisingEdge(1)));
    assert_eq!(Event::try_from(0x22), Ok(Event::FallingEdge(2)));
    assert_eq!(Event::try_from(0x41), Err(EventDecodeError));
    assert_eq!(Event::try_from(0x00), Err(EventDecodeError));
}

#[test]
fn test_event_round_trip_all_inputs() {
    for input in 0..32u8 {
        for event in [Event::RisingEdge(input), Event::FallingEdge(input)] {
            let byte: u8 = (&event).into();
            assert_eq!(Event::try_from(byte), Ok(event));
        }
    }
}

#[test]
fn test_button_event() {
    assert_eq!(ButtonEvent::from(0x00), ButtonEvent::Invalid);
    assert_eq!(ButtonEvent::from(0x1F), ButtonEvent::Invalid);
    assert_eq!(ButtonEvent::from(0x45), ButtonEvent::PressStart(5));
    assert_eq!(ButtonEvent::from(0xC7), ButtonEvent::PressEnd(7));
    assert_eq!(u8::from(&ButtonEvent::Invalid), 0);
    assert_eq!(u8::from(&ButtonEvent::PressStart(5)), 0x45);
    assert_eq!(u8::from(&ButtonEvent::PressEnd(7)), 0xC7);
    assert_eq!(u8::from(&ButtonEvent::PressEnd(0x27)), 0xC7);
    for button in 0..32u8 {
        for event in [ButtonEvent::PressStart(button), ButtonEvent::PressEnd(button)] {
            assert_eq!(ButtonEvent::from(u8::from(&event)), event);
        }
    }
}

#[test]
fn test_update() {
    let message = Message::new(MessageBody::Update {
        outputs: 0xAABBCCDD,
        events: vec![Event::RisingEdge(1), Event::FallingEdge(2)],
    });
    let bytes: Vec<u8> = (&message).into();
    assert_eq!(
        &bytes,
        &[0xBF, 0x45, b'u', 0xAA, 0xBB, 0xCC, 0xDD, 0x61, 0x22,]
    );
    let message2 = (&bytes[..]).try_into();
    assert_eq!(Ok(message), message2);
}

#[test]
fn test_program_start() {
    let header = ProgramHeader::new(0xAABB, 0xCCDD);
    let message = Message::new(MessageBody::ProgramStart { header });
    let bytes: Vec<u8> = (&message).into();
    assert_eq!(
        &bytes,
        &[0xBB, 0x06, b's', b'S', b'H', b'A', b'L', 0xAA, 0xBB, 0xCC, 0xDD],
    );
    let message2 = (&bytes[..]).try_into();
    assert_eq!(Ok(message), message2);
}

#[test]
fn test_program_start_ack() {
    let header = ProgramHeader::new(0xAABB, 0xCCDD);
    let message = Message::new(MessageBody::ProgramStartAck { header });
    let bytes: Vec<u8> = (&message).into();
    assert_eq!(
        &bytes,
        &[0x1C, 0xFA, b'S', b'S', b'H', b'A', b'L', 0xAA, 0xBB, 0xCC, 0xDD],
    );
    let message2 = (&bytes[..]).try_into();
    assert_eq!(Ok(message), message2);
}

#[test]
fn test_program_data() {
    let message = Message::new(MessageBody::ProgramData { code: vec![0] });
    let bytes: Vec<u8> = (&message).into();
    assert_eq!(&bytes, &[0xC7, 0xEE, b'd', 0x00],);
    let message2 = (&bytes[..]).try_into();
    assert_eq!(Ok(message), message2);
}

#[test]
fn test_program_end() {
    let message = Message::new(MessageBody::ProgramEnd { code: vec![0] });
    let bytes: Vec<u8> = (&message).into();
    assert_eq!(&bytes, &[0xF4, 0xDF, b'e', 0x00],);
    let message2 = (&bytes[..]).try_into();
    assert_eq!(Ok(message), message2);
}

#[test]
fn test_program_end_ack() {
    let header = ProgramHeader::new(0xAABB, 0xCCDD);
    let message = Message::new(MessageBody::ProgramEndAck { header });
    let bytes: Vec<u8> = (&message).into();
    assert_eq!(
        &bytes,
        &[0x15, 0x8C, b'E', b'S', b'H', b'A', b'L', 0xAA, 0xBB, 0xCC, 0xDD],
    );
    let message2 = (&bytes[..]).try_into();
    assert_eq!(Ok(message), message2);
}

#[test]
fn test_message_command_and_text() {
    let message = Message::new(MessageBody::Command {
        commands: vec![Command::Refresh, Command::On(3), Command::Off(4), Command::Toggle(5)],
    });
    let bytes = message.to_bytes();
    assert_eq!(&bytes[2..], &[b'c', 0x20, 0xC3, 0x84, 0x45]);
    assert_eq!(Message::from_bytes(&bytes), Ok(message));

    let message = Message::new(MessageBody::Info { message: "héllo".to_string() });
    let bytes = message.to_bytes();
    assert_eq!(&bytes[2..], &[b'I', b'h', 0xC3, 0xA9, b'l', b'l', b'o']);
    assert_eq!(Message::from_bytes(&bytes), Ok(message));

    let message = Message::new(MessageBody::Fail { message: String::new() });
    let bytes = message.to_bytes();
    assert_eq!(bytes.len(), 3);
    assert_eq!(Message::from_bytes(&bytes), Ok(message));
}

#[test]
fn test_message_errors() {
    assert_eq!(
        Message::from_bytes(&[1, 2]),
        Err(MessageDecodingError::SizeTooSmall { actual_size: 2 })
    );
    assert_eq!(
        Message::from_bytes(&[0u8; 129]),
        Err(MessageDecodingError::SizeTooLarge { actual_size: 129 })
    );
    // A wrong checksum is reported before the kind is looked at.
    assert_eq!(Message::from_bytes(&[0, 1, b'?']), Err(MessageDecodingError::CrcError));
    let good = Message::new(MessageBody::ProgramData { code: vec![1, 2, 3] }).to_bytes();
    let mut bad = good.clone();
    bad[4] ^= 1;
    assert_eq!(Message::from_bytes(&bad), Err(MessageDecodingError::CrcError));

    // The bodies themselves.
    assert_eq!(
        MessageBody::from_bytes(b'?', &[]),
        Err(MessageDecodingError::UnknownType { type_byte: b'?' })
    );
    assert_eq!(
        MessageBody::from_bytes(b'u', &[1, 2, 3]),
        Err(MessageDecodingError::UnknownType { type_byte: b'u' })
    );
    assert_eq!(
        MessageBody::from_bytes(b's', &[1, 2, 3]),
        Err(MessageDecodingError::UnknownType { type_byte: b's' })
    );
    assert_eq!(
        MessageBody::from_bytes(b'u', &[0, 0, 0, 0, 0x00]),
        Err(MessageDecodingError::EventDecodeError(EventDecodeError))
    );
    assert_eq!(
        MessageBody::from_bytes(b'c', &[0x20, 0x00]),
        Err(MessageDecodingError::CommandDecodeError(CommandDecodeError))
    );
    assert!(matches!(
        MessageBody::from_bytes(b'F', &[0xFF]),
        Err(MessageDecodingError::FromUtf8Error(_))
    ));
    assert_eq!(
        MessageBody::from_bytes(b'E', &[1, 2, 3, 4, 5, 6, 7, 8]),
        Err(MessageDecodingError::ProgramHeaderDecodeError(
            ProgramHeaderDecodeError::IncorrectPrefix { actual_prefix: vec![1, 2, 3, 4] }
        ))
    );
    assert_eq!(
        MessageBody::from_bytes(b'u', &[0, 0, 1, 2]),
        Ok(MessageBody::Update { outputs: 0x0102, events: vec![] })
    );
}

#[test]
fn test_message_lengths() {
    assert_eq!(Message::message_header_length(), 3);
    assert_eq!(Message::max_message_length(), 128);
    assert_eq!(Message::max_message_body_length(), 125);
    assert_eq!(ProgramHeader::header_length(), 8);
}

#[test]
fn test_serialize() {
    let header = ProgramHeader {
        length: 1000,
        crc: 2000,
    };
    let serialized: [u8; PROGRAM_HEADER_LENGTH] = (&header).into();
    assert_eq!(
        &[b'S', b'H', b'A', b'L', 0x03, 0xE8, 0x07, 0xD0],
        &serialized,
    )
}

#[test]
fn test_deserialize() {
    let serialized = [b'S', b'H', b'A', b'L', 0x03, 0xE8, 0x07, 0xD0];
    let header: Result<ProgramHeader, ProgramHeaderDecodeError> = (&serialized[..]).try_into();
    assert_eq!(
        &Ok(ProgramHeader {
            length: 1000,
            crc: 2000,
        }),
        &header
    )
}

#[test]
fn test_deserialize_incorrect_length() {
    let serialized = [b'S', b'H', b'A', b'L', 1, 2, 3];
    let result: Result<ProgramHeader, ProgramHeaderDecodeError> = (&serialized[..]).try_into();
    assert_eq!(
        &Err(ProgramHeaderDecodeError::IncorrectHeaderSize { actual_size: 7 }),
        &result
    );
    assert_eq!(
        "Incorrect header size: should be 8, was 7",
        result.unwrap_err().to_string()
    )
}

#[test]
fn test_deserialize_wrong_prefix() {
    let serialized = [1, 2, 3, 4, 5, 6, 7, 8];
    let result: Result<ProgramHeader, ProgramHeaderDecodeError> = (&serialized[..]).try_into();
    assert_eq!(
        &Err(ProgramHeaderDecodeError::IncorrectPrefix {
            actual_prefix: vec![1, 2, 3, 4],
        }),
        &result
    );
    assert_eq!(
        "Header does not start with \"SHAL\" ([83, 72, 65, 76]), but starts with [1, 2, 3, 4]",
        result.unwrap_err().to_string()
    )
}

#[test]
fn test_header_message_numbers() {
    let error = ProgramHeaderDecodeError::IncorrectHeaderSize { actual_size: 1234567890 };
    assert_eq!(error.to_string(), "Incorrect header size: should be 8, was 1234567890");
    let error = ProgramHeaderDecodeError::IncorrectHeaderSize { actual_size: 0 };
    assert_eq!(error.to_string(), "Incorrect header size: should be 8, was 0");
    let error = ProgramHeaderDecodeError::IncorrectPrefix { actual_prefix: vec![] };
    assert!(error.to_string().ends_with("but starts with []"));
    let error = ProgramHeaderDecodeError::IncorrectPrefix { actual_prefix: vec![255, 0, 10] };
    assert!(error.to_string().ends_with("but starts with [255, 0, 10]"));
}
