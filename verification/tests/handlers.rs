use standaertha::args::Args;
use standaertha::controller::command::Command;
use standaertha::controller::event::Event;
use standaertha::controller::message::{Message as Frame, MessageBody};
use standaertha::controller::program_header::ProgramHeader;
use standaertha::handlers::handler::{HandleResult, Handler};
use standaertha::handlers::handler_chain::HandlerChain;
use standaertha::handlers::message::Message;
use standaertha::handlers::mqtt_handler::{parse_u8, MqttHandlerConfig, Publish};
use standaertha::handlers::programmer::{
    build, compile_checked, upload_messages, HandleMessageResult, Incoming, Programmer,
    ProgrammerError, State, PROGRAM_SIZE_LIMIT, STACK_DEPTH_LIMIT,
};
use standaertha::handlers::refresher::send_refresh;
use standaertha::handlers::serial_handler::{
    handle_broadcast_message, handle_serial_message, send_commands,
};
use standaertha::shal::ast::{
    DeclarationMap, EntityID, IODeclaration, IODeclarations, PinID, Program,
};
use standaertha::shal::bytecode;
use standaertha::shal::compiler::CompileError;
use standaertha::shal::interpreter::{try_run_program, FixedBitSet};
use standaertha::shal::parser::{parse_text, ParseError};

fn pin(number: u8) -> PinID {
    PinID::try_from(number).unwrap()
}

fn declarations() -> IODeclarations {
    let mut inputs = DeclarationMap::new();
    inputs.insert(
        EntityID::try_from("door").unwrap(),
        IODeclaration { pin: pin(3), name: Some("Front door".to_string()) },
    );
    inputs.insert(EntityID::try_from("bell").unwrap(), IODeclaration { pin: pin(4), name: None });
    let mut outputs = DeclarationMap::new();
    outputs.insert(
        EntityID::try_from("hall").unwrap(),
        IODeclaration { pin: pin(3), name: Some("Hall light".to_string()) },
    );
    IODeclarations { inputs, outputs }
}

struct Counter {
    seen: std::rc::Rc<std::cell::Cell<u32>>,
    answer: HandleResult,
}

impl Handler for Counter {
    fn handle(&mut self, _message: &Message) -> HandleResult {
        self.seen.set(self.seen.get() + 1);
        self.answer
    }
}

#[test]
fn test_handler_chain() {
    let message = send_refresh();
    let mut chain = HandlerChain::new();
    assert_eq!(chain.len(), 0);
    assert_eq!(chain.handle(&message), HandleResult::Continue);
    let first = std::rc::Rc::new(std::cell::Cell::new(0));
    let second = std::rc::Rc::new(std::cell::Cell::new(0));
    let third = std::rc::Rc::new(std::cell::Cell::new(0));
    chain.add_handler(Counter { seen: first.clone(), answer: HandleResult::Continue });
    assert_eq!(chain.handle(&message), HandleResult::Continue);
    chain.add_handler(Counter { seen: second.clone(), answer: HandleResult::Stop });
    chain.add_handler(Counter { seen: third.clone(), answer: HandleResult::Continue });
    assert_eq!(chain.len(), 3);
    assert_eq!(chain.handle(&message), HandleResult::Stop);
    assert_eq!((first.get(), second.get(), third.get()), (2, 1, 0));
    assert_eq!(HandlerChain::default().len(), 0);
    assert!(HandleResult::Continue.goes_on());
    assert!(!HandleResult::Stop.goes_on());
}

#[test]
fn test_refresh_message() {
    assert_eq!(
        send_refresh(),
        Message::SendToController(MessageBody::Command { commands: vec![Command::Refresh] })
    );
}

#[test]
fn test_upload_messages() {
    assert_eq!(upload_messages(&vec![]), vec![MessageBody::ProgramEnd { code: vec![] }]);
    assert_eq!(
        upload_messages(&vec![1, 2, 3]),
        vec![MessageBody::ProgramEnd { code: vec![1, 2, 3] }]
    );
    let bytes: Vec<u8> = (0..125).collect();
    assert_eq!(upload_messages(&bytes), vec![MessageBody::ProgramEnd { code: bytes.clone() }]);
    let bytes: Vec<u8> = (0..=251).map(|i| i as u8).collect();
    assert_eq!(
        upload_messages(&bytes),
        vec![
            MessageBody::ProgramData { code: bytes[..125].to_vec() },
            MessageBody::ProgramData { code: bytes[125..250].to_vec() },
            MessageBody::ProgramEnd { code: bytes[250..].to_vec() },
        ]
    );
    let bytes: Vec<u8> = vec![7; 250];
    assert_eq!(
        upload_messages(&bytes),
        vec![
            MessageBody::ProgramData { code: vec![7; 125] },
            MessageBody::ProgramEnd { code: vec![7; 125] },
        ]
    );
}

fn program() -> bytecode::Program {
    build(IODeclarations::default(), "on redge input 0 toggle output 0;").unwrap()
}

fn from_controller(body: MessageBody) -> Incoming {
    Incoming::Received(Message::ReceivedFromController(body))
}

#[test]
fn test_programmer() {
    let program = program();
    let header = program.header();
    let other = ProgramHeader::new(header.length, header.crc ^ 1);
    let (mut programmer, start) = Programmer::new(program.clone());
    assert_eq!(start, MessageBody::ProgramStart { header });
    assert_eq!(programmer.state, State::AwaitingAck);

    // What does not matter.
    for incoming in [
        Incoming::Lagged(5),
        from_controller(MessageBody::ProgramEndAck { header }),
        from_controller(MessageBody::Info { message: "hello".to_string() }),
        Incoming::Received(Message::SendToController(MessageBody::ProgramStartAck { header })),
    ] {
        let reaction = programmer.handle_message(&incoming);
        assert_eq!(reaction.result, HandleMessageResult::Continue);
        assert!(reaction.send.is_empty());
        assert_eq!(programmer.state, State::AwaitingAck);
    }

    // A wrong answer makes it start again.
    let reaction = programmer.handle_message(&from_controller(MessageBody::ProgramStartAck {
        header: other,
    }));
    assert_eq!(reaction.result, HandleMessageResult::Continue);
    assert_eq!(reaction.send, vec![MessageBody::ProgramStart { header }]);
    assert_eq!(programmer.state, State::AwaitingAck);

    // The right answer makes it upload.
    let reaction =
        programmer.handle_message(&from_controller(MessageBody::ProgramStartAck { header }));
    assert_eq!(reaction.result, HandleMessageResult::Continue);
    assert_eq!(
        reaction.send,
        vec![MessageBody::ProgramEnd { code: program.instruction_bytes() }]
    );
    assert_eq!(programmer.state, State::Uploading);

    // Now the answer to the start does not matter any more.
    let reaction =
        programmer.handle_message(&from_controller(MessageBody::ProgramStartAck { header }));
    assert!(reaction.send.is_empty());
    assert_eq!(programmer.state, State::Uploading);

    // A wrong confirmation makes it start again.
    let reaction = programmer.handle_message(&from_controller(MessageBody::ProgramEndAck {
        header: other,
    }));
    assert_eq!(reaction.result, HandleMessageResult::Continue);
    assert_eq!(reaction.send, vec![MessageBody::ProgramStart { header }]);
    assert_eq!(programmer.state, State::AwaitingAck);

    programmer.handle_message(&from_controller(MessageBody::ProgramStartAck { header }));
    let reaction =
        programmer.handle_message(&from_controller(MessageBody::ProgramEndAck { header }));
    assert_eq!(reaction.result, HandleMessageResult::Done);
    assert!(reaction.send.is_empty());

    let (mut programmer, _) = Programmer::new(program);
    assert_eq!(programmer.handle_message(&Incoming::Closed).result, HandleMessageResult::Done);
    assert_eq!(programmer.retry(), vec![MessageBody::ProgramStart { header }]);
    assert_eq!(programmer.upload().len(), 1);
    assert_eq!(programmer.state, State::Uploading);
}

fn nested(depth: usize) -> String {
    let mut text = String::new();
    for _ in 0..depth {
        text.push_str("if input 1 is high { ");
    }
    text.push_str("toggle output 1;");
    for _ in 0..depth {
        text.push_str(" }");
    }
    text
}

#[test]
fn test_build() {
    assert_eq!(STACK_DEPTH_LIMIT, 32);
    assert_eq!(PROGRAM_SIZE_LIMIT, 248);
    assert!(matches!(
        build(IODeclarations::default(), "toggle output 1"),
        Err(ProgrammerError::ParseError(ParseError::SyntaxError { .. }))
    ));
    assert!(matches!(
        build(IODeclarations::default(), "toggle lamp;"),
        Err(ProgrammerError::CompileError(CompileError::UnknownEntityError { .. }))
    ));
    let mut both = declarations();
    both.outputs.insert(
        EntityID::try_from("door").unwrap(),
        IODeclaration { pin: pin(9), name: None },
    );
    assert!(matches!(
        build(both, "toggle output 1;"),
        Err(ProgrammerError::ParseError(ParseError::DuplicateEntityIDError { .. }))
    ));
    // Thirty-two conditions in each other fit the stack, thirty-three do not.
    let fitting = build(IODeclarations::default(), &nested(32)).unwrap();
    assert_eq!(fitting.check_stack_depth(None), Ok(32));
    assert!(matches!(
        build(IODeclarations::default(), &nested(33)),
        Err(ProgrammerError::StackLimitError(_))
    ));
    // A program of 248 bytes fits, one of 251 does not.
    let actions = |count: usize| "toggle output 1; ".repeat(count);
    let program = Program {
        declarations: IODeclarations::default(),
        statements: parse_text(&(actions(122) + "if input 1 is low { }")).unwrap(),
    };
    assert_eq!(compile_checked(&program).unwrap().calc_length(), 248);
    assert!(matches!(
        build(IODeclarations::default(), &actions(125)),
        Err(ProgrammerError::ProgramSizeError(_))
    ));
    // What was built runs without a stack error.
    let zero = FixedBitSet::new();
    assert!(try_run_program(&fitting, &zero, &zero, &zero).is_ok());
}

#[test]
fn test_serial_messages() {
    let frame = Frame::new(MessageBody::Update { outputs: 5, events: vec![Event::RisingEdge(1)] });
    assert_eq!(
        handle_serial_message(&frame.to_bytes()),
        Some(Message::ReceivedFromController(MessageBody::Update {
            outputs: 5,
            events: vec![Event::RisingEdge(1)]
        }))
    );
    let mut bytes = frame.to_bytes();
    bytes[0] ^= 1;
    assert_eq!(handle_serial_message(&bytes), None);
    assert_eq!(handle_serial_message(&[]), None);

    let mut buffer = vec![Command::Refresh];
    let commands = vec![Command::On(1), Command::Off(2)];
    assert_eq!(
        handle_broadcast_message(
            &mut buffer,
            Message::SendToController(MessageBody::Command { commands })
        ),
        None
    );
    assert_eq!(buffer, vec![Command::Refresh, Command::On(1), Command::Off(2)]);
    let body = MessageBody::ProgramData { code: vec![1, 2] };
    assert_eq!(
        handle_broadcast_message(&mut buffer, Message::SendToController(body.clone())),
        Some(Frame::new(body.clone()).to_bytes())
    );
    assert_eq!(
        handle_broadcast_message(&mut buffer, Message::ReceivedFromController(body)),
        None
    );
    assert_eq!(buffer.len(), 3);

    let frames = send_commands(&mut buffer);
    assert!(buffer.is_empty());
    assert_eq!(
        frames,
        vec![Frame::new(MessageBody::Command {
            commands: vec![Command::Refresh, Command::On(1), Command::Off(2)]
        })
        .to_bytes()]
    );
    assert!(send_commands(&mut buffer).is_empty());
    let mut buffer = vec![Command::Toggle(3); 251];
    let frames = send_commands(&mut buffer);
    let sizes: Vec<usize> = frames.iter().map(|frame| frame.len()).collect();
    assert_eq!(sizes, vec![128, 128, 4]);
    for frame in frames {
        assert!(Frame::from_bytes(&frame).is_ok());
    }
}

fn mqtt_config(declarations: Option<IODeclarations>) -> MqttHandlerConfig {
    MqttHandlerConfig {
        prefix: "homeassistant".to_string(),
        declarations,
        client_id: "bridge".to_string(),
    }
}

#[test]
fn test_mqtt_names() {
    let config = mqtt_config(Some(declarations()));
    assert_eq!(config.input_name(pin(3)), "Front door");
    assert_eq!(config.input_name(pin(4)), "Input 4");
    assert_eq!(config.input_name(pin(31)), "Input 31");
    assert_eq!(config.input_id(pin(3)), "door");
    assert_eq!(config.input_id(pin(4)), "bell");
    assert_eq!(config.input_id(pin(5)), "5");
    assert_eq!(config.unique_input_id(pin(3)), "bridge_input_door");
    assert_eq!(config.unique_input_id(pin(0)), "bridge_input_0");
    assert_eq!(config.output_name(pin(3)), "Hall light");
    assert_eq!(config.output_name(pin(4)), "Output 4");
    assert_eq!(config.output_id(pin(3)), "hall");
    assert_eq!(config.unique_output_id(pin(3)), "bridge_output_hall");
    assert_eq!(config.unique_output_id(pin(12)), "bridge_output_12");
    let config = mqtt_config(None);
    assert_eq!(config.input_name(pin(3)), "Input 3");
    assert_eq!(config.output_id(pin(3)), "3");
    assert_eq!(config.subscription(), "homeassistant/light/bridge/+/switch");
    assert_eq!(config.topic("light", 7, "/status"), "homeassistant/light/bridge/7/status");
}

#[test]
fn test_mqtt_announcements() {
    let config = mqtt_config(Some(declarations()));
    let sensor = config.announce_sensor(pin(3));
    assert_eq!(sensor.discovery_topic, "homeassistant/binary_sensor/bridge/3/config");
    assert_eq!(sensor.state_topic, "homeassistant/binary_sensor/bridge/3/pressed");
    assert_eq!(sensor.spec.unique_id, "bridge_input_door");
    assert_eq!(sensor.spec.name, "Front door");
    assert_eq!(sensor.spec.icon, "mdi:light-switch-off");
    assert_eq!(sensor.spec.state_topic, sensor.state_topic);
    let light = config.announce_light(pin(4));
    assert_eq!(light.discovery_topic, "homeassistant/light/bridge/4/config");
    assert_eq!(light.state_topic, "homeassistant/light/bridge/4/status");
    assert_eq!(light.spec.command_topic, "homeassistant/light/bridge/4/switch");
    assert_eq!(light.spec.state_topic, light.state_topic);
    assert_eq!(light.spec.unique_id, "bridge_output_4");
    assert_eq!(light.spec.name, "Output 4");
}

#[test]
fn test_mqtt_updates() {
    let config = mqtt_config(None);
    let body = MessageBody::Update {
        outputs: 0x8000_0002,
        events: vec![Event::RisingEdge(4), Event::FallingEdge(31)],
    };
    let published = config.handle_message_from_controller(&body);
    assert_eq!(published.len(), 34);
    for (i, publish) in published[..32].iter().enumerate() {
        assert_eq!(publish.topic, format!("homeassistant/light/bridge/{i}/status"));
        assert_eq!(publish.payload, if i == 1 || i == 31 { "ON" } else { "OFF" });
    }
    assert_eq!(
        published[32],
        Publish {
            topic: "homeassistant/binary_sensor/bridge/4/pressed".to_string(),
            payload: "OFF".to_string()
        }
    );
    assert_eq!(
        published[33],
        Publish {
            topic: "homeassistant/binary_sensor/bridge/31/pressed".to_string(),
            payload: "ON".to_string()
        }
    );
    let body = MessageBody::Info { message: "hello".to_string() };
    assert!(config.handle_message_from_controller(&body).is_empty());
}

#[test]
fn test_mqtt_commands() {
    let config = mqtt_config(None);
    let command = |topic: &str, payload: &[u8]| config.command_of(topic, payload);
    assert_eq!(command("homeassistant/light/bridge/3/switch", b"ON"), Some(Command::On(3)));
    assert_eq!(command("homeassistant/light/bridge/31/switch", b"OFF"), Some(Command::Off(31)));
    assert_eq!(command("homeassistant/light/bridge/+07/switch", b"ON"), Some(Command::On(7)));
    assert_eq!(command("homeassistant/light/bridge/32/switch", b"ON"), None);
    assert_eq!(command("homeassistant/light/bridge/300/switch", b"ON"), None);
    assert_eq!(command("homeassistant/light/bridge//switch", b"ON"), None);
    assert_eq!(command("homeassistant/light/bridge/+/switch", b"ON"), None);
    assert_eq!(command("homeassistant/light/bridge/-1/switch", b"ON"), None);
    assert_eq!(command("homeassistant/light/bridge/3 /switch", b"ON"), None);
    assert_eq!(command("homeassistant/light/bridge/3/switch", b"on"), None);
    assert_eq!(command("homeassistant/light/bridge/3/switch", b"ON "), None);
    assert_eq!(command("homeassistant/light/bridge/3/switch", &[0xFF]), None);
    assert_eq!(command("homeassistant/light/other/3/switch", b"ON"), None);
    assert_eq!(command("homeassistant/light/bridge/3/status", b"ON"), None);
    assert_eq!(command("homeassistant/light/bridge/switch", b"ON"), None);
    assert_eq!(command("x/homeassistant/light/bridge/3/switch", b"ON"), None);
    assert_eq!(command("", b"ON"), None);
}

#[test]
fn test_parse_u8() {
    let parse = |text: &str| {
        let chars: Vec<char> = text.chars().collect();
        parse_u8(&chars, 0, chars.len())
    };
    for (text, value) in [("0", 0), ("255", 255), ("+1", 1), ("007", 7), ("000000000255", 255)] {
        assert_eq!(parse(text), Some(value));
        assert_eq!(text.parse::<u8>().ok(), Some(value));
    }
    for text in ["", "+", "-", "-1", "256", "1 ", " 1", "1_0", "++1", "1+", "99999999999999999999"]
    {
        assert_eq!(parse(text), None);
        assert_eq!(text.parse::<u8>().ok(), None);
    }
}

#[test]
fn test_args_text() {
    let args = Args {
        mqtt_url: None,
        mqtt_user: None,
        mqtt_password: None,
        prefix: "homeassistant".to_string(),
        serial: None,
        program: None,
        upload: false,
        debug: false,
    };
    assert_eq!(
        args.to_string(),
        "  MQTT: disabled\n  Serial: <disabled>\n  Program: <disabled>\n  Debug: disabled\n"
    );
    let args = Args {
        mqtt_url: Some("mqtt://broker".to_string()),
        mqtt_user: Some("me".to_string()),
        mqtt_password: Some("secret".to_string()),
        prefix: "ha".to_string(),
        serial: Some("/dev/ttyUSB0".to_string()),
        program: Some("house.shal".to_string()),
        upload: true,
        debug: true,
    };
    assert_eq!(
        args.to_string(),
        "  MQTT options:\n    URL: mqtt://broker\n    user: me\n    password: ***\n    \
         prefix: ha\n  Serial port: /dev/ttyUSB0\n  Program:\n    path: house.shal\n    \
         upload: enabled\n  Debug: enabled\n"
    );
    let args = Args { mqtt_user: None, mqtt_password: None, upload: false, ..args };
    assert!(args.to_string().contains("    user: <none>\n    password: <none>\n"));
    assert!(args.to_string().contains("    upload: disabled\n"));
}
