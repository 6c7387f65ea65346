use standaertha::controller::program_header::ProgramHeader;
use standaertha::shal::ast::{
    Action, Condition, DeclarationMap, EntityID, IODeclaration, IODeclarations, Input,
    InvalidEntityIDError, InvalidPinIDError, Output, PinID, Program, SourceLoc, Statement,
};
use standaertha::shal::bytecode;
use standaertha::shal::bytecode::Instruction::{End, If, Not, On, Or, Pop, SetOutput, Toggle};
use standaertha::shal::bytecode::{
    DecodingError, DecodingErrorKind, InOut, Instruction, InstructionEncoding, ProgramSizeError,
    StackLimitError,
};
use standaertha::shal::common::{AsBit, Edge, IsWas, Value};
use standaertha::shal::compiler::{compile, loc_to_string, CompileError};
use standaertha::shal::document::split_source;
use standaertha::shal::interpreter::{
    check_stack_discipline, run_program, try_run_program, BitSetError, BitStack, FixedBitSet,
    StackError,
};
use standaertha::shal::lexer::{to_chars, tokenize, LexError, Token, TokenKind};
use standaertha::shal::parser::{
    find_double, parse_text, source_location, validate_declarations, ParseError,
};
use std::collections::HashMap;

fn pin(number: u8) -> PinID {
    PinID::try_from(number).unwrap()
}

fn id(name: &str) -> EntityID {
    EntityID::try_from(name).unwrap()
}

fn declare(entries: &[(&str, u8)]) -> DeclarationMap {
    let mut map = DeclarationMap::new();
    for (name, number) in entries {
        assert!(map.insert(id(name), IODeclaration { pin: pin(*number), name: None }));
    }
    map
}

/// Reads a whole document. The declarations are read with `deser_hjson`.
fn parse(src: &str) -> Result<Program, ParseError> {
    let (declarations_text, statements) = split_source(src);
    let mut declarations = IODeclarations::default();
    if let Some(text) = declarations_text {
        let raw: HashMap<String, HashMap<String, HashMap<String, u8>>> =
            deser_hjson::from_str(text).unwrap();
        for (kind, entries) in raw {
            for (name, fields) in entries {
                let declaration = IODeclaration { pin: pin(fields["pin"]), name: None };
                let inserted = if kind == "inputs" {
                    declarations.inputs.insert(id(&name), declaration)
                } else {
                    declarations.outputs.insert(id(&name), declaration)
                };
                assert!(inserted);
            }
        }
    }
    standaertha::shal::parser::parse(declarations, statements)
}

fn stairs() -> bytecode::Program {
    bytecode::Program {
        instructions: vec![
            On {
                input: pin(0),
                edge: Edge::Rising,
            },
            Toggle { output: pin(0) },
            Pop,
            On {
                input: pin(1),
                edge: Edge::Rising,
            },
            Toggle { output: pin(1) },
            Pop,
            If {
                number: pin(0),
                value: Value::High,
                is_was: IsWas::Is,
                in_out: InOut::Output,
            },
            If {
                number: pin(1),
                value: Value::High,
                is_was: IsWas::Is,
                in_out: InOut::Output,
            },
            Or,
            SetOutput {
                output: pin(2),
                value: Value::High,
            },
            Not,
            SetOutput {
                output: pin(2),
                value: Value::Low,
            },
            Pop,
            End,
        ],
        source_locations: vec![],
    }
}

#[test]
fn test_program() {
    let program = stairs();
    assert_eq!(Ok(2), program.check_stack_depth(None));
    assert_eq!(
        Err(StackLimitError {
            source_location: None
        }),
        program.check_stack_depth(Some(1))
    );
    assert_eq!(Ok(22), program.check_program_size(None));
    assert_eq!(
        Err(ProgramSizeError {
            source_location: None
        }),
        program.check_program_size(Some(21))
    );
    let encoded: Vec<u8> = (&program).into();
    assert_eq!(
        &[
            b'S',
            b'H',
            b'A',
            b'L',
            0,
            22,
            0x59,
            0x78,
            0b1000_0101, // on rising edge
            0b1100_0000, // input 0
            0b1000_0010, // toggle
            0b1100_0000, // output 0
            0b0000_0101, // pop
            0b1000_0101, // on rising edge
            0b1100_0001, // input 1
            0b1000_0010, // toggle
            0b1100_0001, // output 1
            0b0000_0101, // pop
            0b1000_1111, // if output is high
            0b1100_0000, // output 0
            0b1000_1111, // if output is high
            0b1100_0001, // output 1
            0b0000_0010, // or
            0b1000_0001, // set high
            0b1100_0010, // output 2
            0b0000_0100, // not
            0b1000_0000, // set low
            0b1100_0010, // output 2
            0b0000_0101, // pop
            0b0000_0000  // end
        ],
        &encoded[..]
    );
    let decoded = bytecode::Program::try_from(&encoded[..]);
    assert_eq!(Ok(&program), decoded.as_ref());
}

#[test]
fn test_compile() {
    let ast_program = Program {
        declarations: IODeclarations {
            inputs: declare(&[("button_downstairs", 0), ("button_upstairs", 1)]),
            outputs: declare(&[
                ("light_downstairs", 0),
                ("light_upstairs", 1),
                ("light_stairs", 2),
            ]),
        },
        statements: vec![
            Statement::Event {
                edge: Edge::Rising,
                input: Input::Entity("button_downstairs".try_into().unwrap()),
                statements: vec![Statement::Action(Action::Toggle(Output::Entity(
                    "light_downstairs".try_into().unwrap(),
                )))],
            },
            Statement::Event {
                edge: Edge::Rising,
                input: Input::Entity("button_upstairs".try_into().unwrap()),
                statements: vec![Statement::Action(Action::Toggle(Output::Entity(
                    "light_upstairs".try_into().unwrap(),
                )))],
            },
            Statement::IfElse(
                Condition::Or(
                    Box::new(Condition::Output(
                        Output::Entity("light_downstairs".try_into().unwrap()),
                        IsWas::Is,
                        Value::High,
                    )),
                    Box::new(Condition::Output(
                        Output::Entity("light_upstairs".try_into().unwrap()),
                        IsWas::Is,
                        Value::High,
                    )),
                ),
                vec![Statement::Action(Action::SetOutput(
                    Output::Entity("light_stairs".try_into().unwrap()),
                    Value::High,
                ))],
                vec![Statement::Action(Action::SetOutput(
                    Output::Entity("light_stairs".try_into().unwrap()),
                    Value::Low,
                ))],
            ),
        ],
    };
    let bytecode_program = compile(&ast_program);

    assert_eq!(
        &Ok(bytecode::Program {
            instructions: vec![
                Instruction::On {
                    input: 0.try_into().unwrap(),
                    edge: Edge::Rising,
                },
                Instruction::Toggle { output: 0.try_into().unwrap() },
                Instruction::Pop,
                Instruction::On {
                    input: 1.try_into().unwrap(),
                    edge: Edge::Rising,
                },
                Instruction::Toggle { output: 1.try_into().unwrap() },
                Instruction::Pop,
                Instruction::If {
                    number: 0.try_into().unwrap(),
                    value: Value::High,
                    is_was: IsWas::Is,
                    in_out: bytecode::InOut::Output,
                },
                Instruction::If {
                    number: 1.try_into().unwrap(),
                    value: Value::High,
                    is_was: IsWas::Is,
                    in_out: bytecode::InOut::Output,
                },
                Instruction::Or,
                Instruction::SetOutput {
                    output: 2.try_into().unwrap(),
                    value: Value::High,
                },
                Instruction::Not,
                Instruction::SetOutput {
                    output: 2.try_into().unwrap(),
                    value: Value::Low,
                },
                Instruction::Pop,
                Instruction::End,
            ],
            source_locations: vec![],
        }),
        &bytecode_program
    );
}

#[test]
fn test_interpret() {
    let program = stairs();
    assert_eq!(
        FixedBitSet::from(0x0000_0005),
        run_program(
            &program,
            &0x0000_0000.into(),
            &0x0000_0001.into(),
            &0x0000_0000.into()
        )
    );
    assert_eq!(
        FixedBitSet::from(0x0000_0006),
        run_program(
            &program,
            &0x0000_0000.into(),
            &0x0000_0002.into(),
            &0x0000_0000.into()
        )
    );

    assert_eq!(
        FixedBitSet::from(0x0000_0000),
        run_program(
            &program,
            &0x0000_0000.into(),
            &0x0000_0001.into(),
            &0x0000_0005.into()
        )
    );
    assert_eq!(
        FixedBitSet::from(0x0000_0000),
        run_program(
            &program,
            &0x0000_0000.into(),
            &0x0000_0002.into(),
            &0x0000_0006.into()
        )
    );

    assert_eq!(
        FixedBitSet::from(0x0000_0005),
        run_program(
            &program,
            &0x0000_0000.into(),
            &0x0000_0002.into(),
            &0x0000_0007.into()
        )
    );
    assert_eq!(
        FixedBitSet::from(0x0000_0006),
        run_program(
            &program,
            &0x0000_0000.into(),
            &0x0000_0001.into(),
            &0x0000_0007.into()
        )
    );

    assert_eq!(
        FixedBitSet::from(0x0000_0007),
        run_program(
            &program,
            &0x0000_0000.into(),
            &0x0000_0001.into(),
            &0x0000_0006.into()
        )
    );
    assert_eq!(
        FixedBitSet::from(0x0000_0007),
        run_program(
            &program,
            &0x0000_0000.into(),
            &0x0000_0002.into(),
            &0x0000_0005.into()
        )
    );
}

#[test]
fn test_parse() {
    assert_eq!(
        &parse("{inputs: {button: {pin: 12}}}\n---\n").unwrap(),
        &Program {
            declarations: IODeclarations {
                inputs: declare(&[("button", 12)]),
                outputs: Default::default(),
            },
            statements: vec![],
        }
    );
    assert_eq!(
        &parse("{outputs: {light: {pin: 12}}}\n---\n").unwrap(),
        &Program {
            declarations: IODeclarations {
                inputs: Default::default(),
                outputs: declare(&[("light", 12)]),
            },
            statements: vec![],
        }
    );
    assert_eq!(
        &parse("toggle output 1;").unwrap(),
        &Program {
            declarations: Default::default(),
            statements: vec![Statement::Action(Action::Toggle(Output::Number(
                1.try_into().unwrap()
            )),)],
        }
    );
    assert_eq!(
        &parse("toggle light_downstairs;").unwrap(),
        &Program {
            declarations: Default::default(),
            statements: vec![Statement::Action(Action::Toggle(Output::Entity(
                "light_downstairs".try_into().unwrap()
            )))],
        }
    );
    assert_eq!(
        &parse("set output 3 high;").unwrap(),
        &Program {
            declarations: Default::default(),
            statements: vec![Statement::Action(Action::SetOutput(
                Output::Number(3.try_into().unwrap()),
                Value::High
            ))],
        }
    );
    assert_eq!(
        &parse("set light_upstairs low;").unwrap(),
        &Program {
            declarations: Default::default(),
            statements: vec![Statement::Action(Action::SetOutput(
                Output::Entity("light_upstairs".try_into().unwrap()),
                Value::Low
            ))],
        }
    );
    assert_eq!(
        &parse("on redge input 3 toggle output 4;").unwrap(),
        &Program {
            declarations: Default::default(),
            statements: vec![Statement::Event {
                edge: Edge::Rising,
                input: Input::Number(3.try_into().unwrap()),
                statements: vec![Statement::Action(Action::Toggle(Output::Number(
                    4.try_into().unwrap()
                ))),],
            },]
        }
    );
    assert_eq!(
        &parse("on fedge input 5 { toggle output 4; set output 6 high; }").unwrap(),
        &Program {
            declarations: Default::default(),
            statements: vec![Statement::Event {
                edge: Edge::Falling,
                input: Input::Number(5.try_into().unwrap()),
                statements: vec![
                    Statement::Action(Action::Toggle(Output::Number(4.try_into().unwrap()))),
                    Statement::Action(Action::SetOutput(
                        Output::Number(6.try_into().unwrap()),
                        Value::High,
                    )),
                ],
            },]
        }
    );
    assert_eq!(
        &parse("if input 4 is low xor light_upstairs was high {} else { toggle output 4; }")
            .unwrap(),
        &Program {
            declarations: Default::default(),
            statements: vec![Statement::IfElse(
                Condition::Xor(
                    Box::new(Condition::Input(
                        Input::Number(4.try_into().unwrap()),
                        IsWas::Is,
                        Value::Low
                    )),
                    Box::new(Condition::Entity(
                        "light_upstairs".try_into().unwrap(),
                        IsWas::Was,
                        Value::High
                    )),
                ),
                vec![],
                vec![Statement::Action(Action::Toggle(Output::Number(
                    4.try_into().unwrap()
                ))),],
            )],
        }
    );
    assert_eq!(
        &parse("if output 5 is high or output 20 is high {}").unwrap(),
        &Program {
            declarations: Default::default(),
            statements: vec![Statement::IfElse(
                Condition::Or(
                    Box::new(Condition::Output(
                        Output::Number(5.try_into().unwrap()),
                        IsWas::Is,
                        Value::High
                    )),
                    Box::new(Condition::Output(
                        Output::Number(20.try_into().unwrap()),
                        IsWas::Is,
                        Value::High
                    )),
                ),
                vec![],
                vec![],
            )],
        }
    );
}

const SCENARIO: &str = "on redge input 0 toggle output 0; on redge input 1 toggle output 1; \
    if output 0 is high or output 1 is high { set output 2 high; } else { set output 2 low; }";

#[test]
fn test_concrete_scenario() {
    let program = compile(&parse(SCENARIO).unwrap()).unwrap();
    assert_eq!(program.instructions.len(), 14);
    assert_eq!(program.instructions.last(), Some(&End));
    assert_eq!(program, stairs());
    assert_eq!(program.check_stack_depth(None), Ok(2));
    let output = run_program(&program, &0.into(), &0b01.into(), &0.into());
    assert_eq!(output.value(), 0b101);
}

#[test]
fn test_round_trip() {
    let sources = [
        "",
        "toggle output 31;",
        SCENARIO,
        "if not (input 1 is low and input 2 was high) xor output 3 is low { on fedge input 7 { \
         set output 9 low; } } else if input 0 is high { toggle output 1; } else { }",
    ];
    for source in sources {
        let program = compile(&parse(source).unwrap()).unwrap();
        let bytes = program.encode();
        assert_eq!(&bytes[..4], b"SHAL");
        let decoded = bytecode::Program::decode(&bytes).unwrap();
        assert_eq!(decoded.instructions, program.instructions);
        assert!(decoded.source_locations.is_empty());
    }
}

#[test]
fn test_header_determinism() {
    let first = compile(&parse(SCENARIO).unwrap()).unwrap();
    let mut second = stairs();
    second.source_locations = vec![SourceLoc(1, 1)];
    assert_eq!(first.header(), second.header());
    assert_eq!(first.header(), ProgramHeader::new(22, 0x5978));
    assert_eq!(first.calc_length(), 22);
    assert_eq!(first.calc_crc(), 0x5978);
    assert_eq!(first.instruction_bytes(), first.encode()[8..].to_vec());
    let other = compile(&parse("toggle output 1;").unwrap()).unwrap();
    assert_eq!(other.header().length, 3);
    assert_ne!(other.header(), first.header());
}

#[test]
fn test_duplicate_detection() {
    // Two inputs with one pin.
    let declarations = IODeclarations {
        inputs: declare(&[("a", 1), ("b", 2), ("c", 1)]),
        outputs: declare(&[("x", 1)]),
    };
    assert_eq!(
        validate_declarations(&declarations),
        Err(ParseError::DoubleInputPinError { pin: pin(1) })
    );
    // Two outputs with one pin.
    let declarations = IODeclarations {
        inputs: declare(&[("a", 1), ("b", 2)]),
        outputs: declare(&[("x", 5), ("y", 6), ("z", 6), ("w", 5)]),
    };
    assert_eq!(
        validate_declarations(&declarations),
        Err(ParseError::DoubleOutputPinError { pin: pin(6) })
    );
    // One name in both kinds; it is reported before the pins.
    let declarations = IODeclarations {
        inputs: declare(&[("a", 1), ("b", 1)]),
        outputs: declare(&[("x", 5), ("b", 6)]),
    };
    assert_eq!(
        validate_declarations(&declarations),
        Err(ParseError::DuplicateEntityIDError { id: id("b") })
    );
    assert_eq!(
        standaertha::shal::parser::parse(declarations, "toggle output 1;"),
        Err(ParseError::DuplicateEntityIDError { id: id("b") })
    );
    // The same pin may serve an input and an output.
    let declarations =
        IODeclarations { inputs: declare(&[("a", 1)]), outputs: declare(&[("x", 1)]) };
    assert_eq!(validate_declarations(&declarations), Ok(()));
    // A map does not take an identifier twice.
    let mut map = declare(&[("a", 1)]);
    assert!(!map.insert(id("a"), IODeclaration { pin: pin(2), name: None }));
    assert_eq!(map.len(), 1);
    assert_eq!(map.get(&id("a")).unwrap().pin, pin(1));
    assert!(map.get(&id("b")).is_none());
    assert!(map.contains_key(&id("a")));
    assert!(!map.is_empty());
    assert_eq!(map.entries().len(), 1);
    assert_eq!(map.clone(), map);
}

#[test]
fn test_find_double() {
    assert_eq!(find_double(&vec![]), None);
    assert_eq!(find_double(&vec![pin(1), pin(2), pin(3)]), None);
    assert_eq!(find_double(&vec![pin(1), pin(2), pin(2), pin(1)]), Some(pin(2)));
    assert_eq!(find_double(&vec![pin(4), pin(4)]), Some(pin(4)));
}

#[test]
fn test_gating() {
    let program = compile(&parse("on redge input 0 toggle output 0;").unwrap()).unwrap();
    let output = run_program(&program, &0x0.into(), &0x1.into(), &0x0.into());
    assert_eq!(output.value() & 1, 1);
    let output = run_program(&program, &0x0.into(), &0x1.into(), &0x1.into());
    assert_eq!(output.value() & 1, 0);
    // Without the edge nothing changes.
    let output = run_program(&program, &0x1.into(), &0x1.into(), &0x1.into());
    assert_eq!(output.value(), 1);
    let output = run_program(&program, &0x1.into(), &0x0.into(), &0x0.into());
    assert_eq!(output.value(), 0);
}

#[test]
fn test_limit_boundaries() {
    let program = compile(
        &parse("on redge input 0 { if input 1 is high and input 2 is high { toggle output 0; } }")
            .unwrap(),
    )
    .unwrap();
    let depth = program.check_stack_depth(None).unwrap();
    assert_eq!(depth, 3);
    assert_eq!(program.check_stack_depth(Some(depth)), Ok(depth));
    assert!(program.check_stack_depth(Some(depth - 1)).is_err());
    let size = program.check_program_size(None).unwrap();
    assert_eq!(size, 12);
    assert_eq!(program.check_program_size(Some(size)), Ok(size));
    assert!(program.check_program_size(Some(size - 1)).is_err());
    // The device's limits.
    assert_eq!(program.check_stack_depth(Some(32)), Ok(3));
    assert_eq!(program.check_program_size(Some(248)), Ok(12));
}

#[test]
fn test_limit_source_locations() {
    let mut program = stairs();
    program.source_locations = (0..14).map(|i| SourceLoc(i + 1, 1)).collect();
    // The second `If` is the first instruction with two values on the stack.
    assert_eq!(
        program.check_stack_depth(Some(1)),
        Err(StackLimitError { source_location: Some(SourceLoc(8, 1)) })
    );
    assert_eq!(
        program.check_stack_depth(Some(0)),
        Err(StackLimitError { source_location: Some(SourceLoc(1, 1)) })
    );
    // The third instruction is the fifth byte.
    assert_eq!(
        program.check_program_size(Some(4)),
        Err(ProgramSizeError { source_location: Some(SourceLoc(3, 1)) })
    );
    assert_eq!(
        program.check_program_size(Some(0)),
        Err(ProgramSizeError { source_location: Some(SourceLoc(1, 1)) })
    );
    // An empty program passes every check.
    let empty = bytecode::Program { instructions: vec![], source_locations: vec![] };
    assert_eq!(empty.check_stack_depth(Some(-1)), Ok(0));
    assert_eq!(empty.check_program_size(Some(0)), Ok(0));
    // A negative limit fails at the first instruction.
    assert_eq!(
        program.check_stack_depth(Some(-1)),
        Err(StackLimitError { source_location: Some(SourceLoc(1, 1)) })
    );
}

#[test]
fn test_unknown_entity() {
    let declarations =
        IODeclarations { inputs: declare(&[("button", 1)]), outputs: declare(&[("light", 2)]) };
    let sources = [
        ("toggle lamp;", "lamp"),
        ("set button high;", "button"),
        ("on redge light toggle light;", "light"),
        ("if switch is high { }", "switch"),
        ("toggle light; if button is low and light is high { toggle nothing; }", "nothing"),
        ("if button is low { toggle first; } else { toggle second; }", "first"),
    ];
    for (source, name) in sources {
        let program = Program {
            declarations: declarations.clone(),
            statements: parse_text(source).unwrap(),
        };
        assert_eq!(
            compile(&program),
            Err(CompileError::UnknownEntityError { name: id(name), location: None })
        );
    }
    let error = CompileError::UnknownEntityError { name: id("lamp"), location: None };
    assert_eq!(error.to_string(), "Unknown entity: lamp at <null>");
    let error =
        CompileError::UnknownEntityError { name: id("lamp"), location: Some(SourceLoc(12, 3)) };
    assert_eq!(error.to_string(), "Unknown entity: lamp at line 12, col 3");
    assert_eq!(loc_to_string(&None), "<null>");
    assert_eq!(loc_to_string(&Some(SourceLoc(1, 100))), "line 1, col 100");
}

#[test]
fn test_entity_resolution() {
    let declarations = IODeclarations {
        inputs: declare(&[("button", 1), ("both", 3)]),
        outputs: declare(&[("light", 2), ("both", 4)]),
    };
    let program = Program {
        declarations,
        statements: parse_text(
            "if button is high and light was low or both is low { toggle both; } \
             on fedge both { }",
        )
        .unwrap(),
    };
    let compiled = compile(&program).unwrap();
    assert_eq!(
        compiled.instructions,
        vec![
            If { number: pin(1), is_was: IsWas::Is, value: Value::High, in_out: InOut::Input },
            If { number: pin(2), is_was: IsWas::Was, value: Value::Low, in_out: InOut::Output },
            // A bare name is an input where it is both.
            If { number: pin(3), is_was: IsWas::Is, value: Value::Low, in_out: InOut::Input },
            Or,
            Instruction::And,
            Toggle { output: pin(4) },
            Pop,
            On { input: pin(3), edge: Edge::Falling },
            Pop,
            End,
        ]
    );
}

#[test]
fn test_identifiers() {
    assert!(EntityID::try_from("a").is_ok());
    assert!(EntityID::try_from("Light_2_up").is_ok());
    assert_eq!(EntityID::try_from("zZ9_").unwrap().as_str(), "zZ9_");
    for bad in ["", "_a", "1a", "a-b", "a b", "é", "aé", "a\n"] {
        assert_eq!(
            EntityID::try_from(bad),
            Err(InvalidEntityIDError { id: bad.to_string() })
        );
        assert_eq!(
            EntityID::try_from(bad.to_string()),
            Err(InvalidEntityIDError { id: bad.to_string() })
        );
    }
    assert_eq!(id("abc"), id("abc").clone());
    assert_ne!(id("abc"), id("abd"));
    for number in 0..32u8 {
        assert_eq!(PinID::try_from(number).unwrap().get(), number);
    }
    for number in 32..=255u8 {
        assert_eq!(PinID::try_from(number), Err(InvalidPinIDError { id: number }));
    }
}

#[test]
fn test_instruction_encoding() {
    let cases = [
        (End, vec![0x00]),
        (Instruction::And, vec![0x01]),
        (Or, vec![0x02]),
        (Instruction::Xor, vec![0x03]),
        (Not, vec![0x04]),
        (Pop, vec![0x05]),
        (SetOutput { output: pin(31), value: Value::Low }, vec![0x80, 0xDF]),
        (SetOutput { output: pin(0), value: Value::High }, vec![0x81, 0xC0]),
        (Toggle { output: pin(7) }, vec![0x82, 0xC7]),
        (On { input: pin(1), edge: Edge::Falling }, vec![0x84, 0xC1]),
        (On { input: pin(1), edge: Edge::Rising }, vec![0x85, 0xC1]),
        (
            If { number: pin(9), is_was: IsWas::Was, value: Value::Low, in_out: InOut::Input },
            vec![0x88, 0xC9],
        ),
        (
            If { number: pin(9), is_was: IsWas::Is, value: Value::Low, in_out: InOut::Input },
            vec![0x8C, 0xC9],
        ),
        (
            If { number: pin(9), is_was: IsWas::Was, value: Value::Low, in_out: InOut::Output },
            vec![0x8A, 0xC9],
        ),
        (
            If { number: pin(9), is_was: IsWas::Was, value: Value::High, in_out: InOut::Input },
            vec![0x89, 0xC9],
        ),
    ];
    for (instruction, bytes) in cases {
        let encoding = instruction.encode();
        let encoded = match encoding {
            InstructionEncoding::SingleByte(b) => vec![b],
            InstructionEncoding::DualByte(b1, b2) => vec![b1, b2],
        };
        assert_eq!(encoded, bytes);
        assert_eq!(instruction.byte_size(), bytes.len());
        assert_eq!(Instruction::decode(&encoding), Ok(instruction));
    }
    assert_eq!(InstructionEncoding::single_byte(0x85), InstructionEncoding::SingleByte(0x05));
    assert_eq!(
        InstructionEncoding::dual_byte(0xFF, 0xFF),
        InstructionEncoding::DualByte(0xBF, 0xFF)
    );
    let malformed = Err(DecodingError { kind: DecodingErrorKind::Instruction });
    for byte in [0x06u8, 0x07, 0x40, 0x7F] {
        assert_eq!(Instruction::decode(&InstructionEncoding::SingleByte(byte)), malformed);
    }
    for first in [0x83u8, 0x86, 0x87, 0x90, 0xBF] {
        assert_eq!(Instruction::decode(&InstructionEncoding::DualByte(first, 0xC0)), malformed);
    }
    // A pin that the controller does not have.
    assert_eq!(Instruction::decode(&InstructionEncoding::DualByte(0x82, 0xE0)), malformed);
    // Only the low bits are read.
    assert_eq!(Instruction::decode(&InstructionEncoding::SingleByte(0x85)), Ok(Pop));
    assert_eq!(
        Instruction::decode(&InstructionEncoding::DualByte(0x02, 0x07)),
        Ok(Toggle { output: pin(7) })
    );
}

#[test]
fn test_decoding_errors() {
    let kind = |bytes: &[u8]| bytecode::Program::decode(bytes).unwrap_err().kind;
    let good = stairs().encode();
    assert_eq!(kind(&[]), DecodingErrorKind::Truncated);
    assert_eq!(kind(&good[..7]), DecodingErrorKind::Truncated);
    let mut bad = good.clone();
    bad[3] = b'l';
    assert_eq!(kind(&bad), DecodingErrorKind::Magic);
    assert_eq!(kind(&good[..good.len() - 1]), DecodingErrorKind::Length);
    let mut bad = good.clone();
    bad.push(0);
    assert_eq!(kind(&bad), DecodingErrorKind::Length);
    // The length is judged before the checksum.
    let mut bad = good.clone();
    bad[5] = 21;
    bad[6] ^= 1;
    assert_eq!(kind(&bad), DecodingErrorKind::Length);
    let mut bad = good.clone();
    bad[7] ^= 1;
    assert_eq!(kind(&bad), DecodingErrorKind::Checksum);
    // The checksum is judged before the instructions.
    let mut bad = good.clone();
    bad[8] = 0xC0;
    assert_eq!(kind(&bad), DecodingErrorKind::Checksum);
    // The empty body has the checksum zero.
    assert_eq!(
        bytecode::Program::decode(&[b'S', b'H', b'A', b'L', 0, 0, 0, 0]),
        Ok(bytecode::Program { instructions: vec![], source_locations: vec![] })
    );
}

/// A serialised program whose instruction bytes were changed, with the right
/// length and checksum.
fn with_checksum(instructions: Vec<Instruction>, patch: impl Fn(&mut Vec<u8>)) -> Vec<u8> {
    let program = bytecode::Program { instructions, source_locations: vec![] };
    let mut body = program.instruction_bytes();
    patch(&mut body);
    let crc = crc::Crc::<u16>::new(&crc::CRC_16_XMODEM).checksum(&body);
    let mut bytes = b"SHAL".to_vec();
    bytes.extend_from_slice(&(body.len() as u16).to_be_bytes());
    bytes.extend_from_slice(&crc.to_be_bytes());
    bytes.extend_from_slice(&body);
    bytes
}

#[test]
fn test_decoding_malformed_instructions() {
    let kind = |bytes: &[u8]| bytecode::Program::decode(bytes).unwrap_err().kind;
    // A second byte where a first is expected.
    let bytes = with_checksum(vec![Pop], |body| body.insert(0, 0xC1));
    assert_eq!(kind(&bytes), DecodingErrorKind::Instruction);
    // A first byte without its second.
    let bytes = with_checksum(vec![Pop], |body| body.push(0x82));
    assert_eq!(kind(&bytes), DecodingErrorKind::Instruction);
    // A first byte followed by a whole instruction.
    let bytes = with_checksum(vec![Pop], |body| body.insert(0, 0x82));
    assert_eq!(kind(&bytes), DecodingErrorKind::Instruction);
    // A first byte followed by a first byte.
    let bytes = with_checksum(vec![Toggle { output: pin(1) }], |body| body[1] = 0x82);
    assert_eq!(kind(&bytes), DecodingErrorKind::Instruction);
    // An unknown opcode.
    let bytes = with_checksum(vec![Pop], |body| body[0] = 0x06);
    assert_eq!(kind(&bytes), DecodingErrorKind::Instruction);
    // A pin from 32 on.
    let bytes = with_checksum(vec![Toggle { output: pin(1) }], |body| body[1] = 0xE1);
    assert_eq!(kind(&bytes), DecodingErrorKind::Instruction);
    // Unchanged bytes are read.
    let bytes = with_checksum(vec![Toggle { output: pin(1) }, End, Pop], |_| {});
    assert_eq!(
        bytecode::Program::decode(&bytes).unwrap().instructions,
        vec![Toggle { output: pin(1) }, End, Pop]
    );
}

#[test]
fn test_stack_errors() {
    let run = |instructions: Vec<Instruction>| {
        let program = bytecode::Program { instructions, source_locations: vec![] };
        let result =
            try_run_program(&program, &0.into(), &0.into(), &0.into()).map(|set| set.value());
        // Whether the stack fails is known without running the program, and
        // is the same on other inputs.
        assert_eq!(check_stack_discipline(&program), result.map(|_| ()));
        let other = try_run_program(&program, &1.into(), &0xFFFF.into(), &7.into());
        assert_eq!(other.map(|_| ()), result.map(|_| ()));
        result
    };
    assert_eq!(run(vec![Pop]), Err(StackError::StackUnderflow));
    assert_eq!(run(vec![Not]), Err(StackError::StackUnderflow));
    let test = If { number: pin(0), is_was: IsWas::Is, value: Value::Low, in_out: InOut::Input };
    assert_eq!(run(vec![test, Or]), Err(StackError::StackUnderflow));
    assert_eq!(run(vec![test; 32]), Ok(0));
    assert_eq!(run(vec![test; 33]), Err(StackError::StackOverflow));
    // Nothing after `End` runs.
    assert_eq!(run(vec![End, Pop]), Ok(0));
    // Without an `End` the program runs to its last instruction.
    assert_eq!(run(vec![Toggle { output: pin(3) }]), Ok(8));
    assert_eq!(run(vec![]), Ok(0));
}

#[test]
fn test_interpreter_semantics() {
    let run = |source: &str, input_old: u32, input_new: u32, output_old: u32| {
        let program = compile(&parse(source).unwrap()).unwrap();
        run_program(&program, &input_old.into(), &input_new.into(), &output_old.into()).value()
    };
    // Actions outside every block always take effect.
    assert_eq!(run("set output 5 high; toggle output 1;", 0, 0, 2), 0b10_0000);
    // An exclusive or holds where exactly one side holds.
    let xor = "if input 0 is high xor input 1 is high { set output 0 high; }";
    assert_eq!(run(xor, 0, 0b00, 0), 0);
    assert_eq!(run(xor, 0, 0b01, 0), 1);
    assert_eq!(run(xor, 0, 0b10, 0), 1);
    assert_eq!(run(xor, 0, 0b11, 0), 0);
    let and = "if input 0 is high and input 1 is high { set output 0 high; }";
    assert_eq!(run(and, 0, 0b01, 0), 0);
    assert_eq!(run(and, 0, 0b11, 0), 1);
    let not = "if not input 0 is high { set output 0 high; } else { set output 1 high; }";
    assert_eq!(run(not, 0, 0, 0), 0b01);
    assert_eq!(run(not, 0, 1, 0), 0b10);
    // `was` reads the old samples, also of the outputs.
    let was = "set output 0 high; if output 0 was low and input 3 was high { set output 1 high; }";
    assert_eq!(run(was, 0b1000, 0, 0), 0b11);
    assert_eq!(run(was, 0b1000, 0, 1), 0b01);
    assert_eq!(run(was, 0, 0b1000, 0), 0b01);
    // `is` of an output reads what the program has made of it.
    let is = "toggle output 0; if output 0 is high { set output 1 high; }";
    assert_eq!(run(is, 0, 0, 0), 0b11);
    assert_eq!(run(is, 0, 0, 1), 0b00);
    // A falling edge; an inner block is gated by the outer one too.
    let nested = "on fedge input 2 { if input 0 is high { toggle output 4; } set output 31 high; }";
    assert_eq!(run(nested, 0b100, 0b001, 0), 0x8000_0010);
    assert_eq!(run(nested, 0b100, 0b000, 0), 0x8000_0000);
    assert_eq!(run(nested, 0b000, 0b001, 0), 0);
    assert_eq!(run(nested, 0b100, 0b101, 0), 0);
}

#[test]
fn test_bit_set_and_stack() {
    let mut set = FixedBitSet::new();
    assert_eq!(set.value(), 0);
    assert_eq!(set.set(0, true), Ok(()));
    assert_eq!(set.set(31, true), Ok(()));
    assert_eq!(set.value(), 0x8000_0001);
    assert_eq!(set.get(31), Ok(true));
    assert_eq!(set.get(30), Ok(false));
    assert_eq!(set.set(0, false), Ok(()));
    assert_eq!(set.value(), 0x8000_0000);
    assert_eq!(set.set(32, true), Err(BitSetError::OutOfBounds));
    assert_eq!(set.get(32), Err(BitSetError::OutOfBounds));
    assert_eq!(u32::from(set), 0x8000_0000);
    assert_eq!(FixedBitSet::from_value(7), FixedBitSet::from(7));
    set.clear();
    assert_eq!(set.value(), 0);

    let mut stack = BitStack::new();
    assert!(stack.all_one());
    assert_eq!(stack.peek(), None);
    assert_eq!(stack.pop(), Err(StackError::StackUnderflow));
    assert_eq!(stack.push(true), Ok(()));
    assert!(stack.all_one());
    assert_eq!(stack.push(false), Ok(()));
    assert!(!stack.all_one());
    assert_eq!(stack.depth(), 2);
    assert_eq!(stack.peek(), Some(false));
    assert_eq!(stack.pop(), Ok(false));
    assert!(stack.all_one());
    assert_eq!(stack.pop(), Ok(true));
    for _ in 0..32 {
        assert_eq!(stack.push(true), Ok(()));
    }
    assert!(stack.all_one());
    assert_eq!(stack.depth(), 32);
    assert_eq!(stack.push(true), Err(StackError::StackOverflow));
    assert_eq!(stack.pop(), Ok(true));
    assert_eq!(stack.push(false), Ok(()));
    assert!(!stack.all_one());
}

#[test]
fn test_flag_bits() {
    assert!(Edge::Rising.as_bit());
    assert!(!Edge::Falling.as_bit());
    assert_eq!(Edge::from_bit(true), Edge::Rising);
    assert_eq!(Edge::from_bit(false), Edge::Falling);
    assert!(Value::High.as_bit());
    assert_eq!(Value::from_bit(false), Value::Low);
    assert!(IsWas::Is.as_bit());
    assert_eq!(IsWas::from_bit(false), IsWas::Was);
    assert!(InOut::Output.as_bit());
    assert_eq!(InOut::from_bit(false), InOut::Input);
}

#[test]
fn test_tokens() {
    let tokens = tokenize(&to_chars("on redge\tbutton_1 {\n set output 12 high ; }")).unwrap();
    let kinds: Vec<TokenKind> = tokens.iter().map(|token| token.kind).collect();
    assert_eq!(
        kinds,
        vec![
            TokenKind::On,
            TokenKind::Redge,
            TokenKind::Identifier,
            TokenKind::LeftBrace,
            TokenKind::SetTo,
            TokenKind::Output,
            TokenKind::Number,
            TokenKind::High,
            TokenKind::Semicolon,
            TokenKind::RightBrace,
        ]
    );
    assert_eq!(tokens[2], Token { kind: TokenKind::Identifier, start: 9, end: 17 });
    assert_eq!(tokenize(&to_chars(" \r\n\t")), Ok(vec![]));
    assert_eq!(
        tokenize(&to_chars("toggle é;")),
        Err(LexError::UnexpectedCharacter { at: 7 })
    );
    assert_eq!(
        tokenize(&to_chars("toggle 1a; #")),
        Err(LexError::InvalidWord { start: 7, end: 9 })
    );
    assert_eq!(
        tokenize(&to_chars("toggle _x;")),
        Err(LexError::InvalidWord { start: 7, end: 9 })
    );
    // Words are read whole: these are identifiers, not keywords.
    let tokens = tokenize(&to_chars("toggles output1 If")).unwrap();
    assert!(tokens.iter().all(|token| token.kind == TokenKind::Identifier));
}

#[test]
fn test_syntax_errors() {
    let at = |line, column| Err(ParseError::SyntaxError { location: SourceLoc(line, column) });
    assert_eq!(parse_text("toggle output 1"), at(1, 16));
    assert_eq!(parse_text("toggle output 1;\n  set output 2;"), at(2, 15));
    assert_eq!(parse_text("toggle;"), at(1, 7));
    assert_eq!(parse_text("}"), at(1, 1));
    assert_eq!(parse_text("if input 1 is high toggle output 1;"), at(1, 20));
    assert_eq!(parse_text("if (input 1 is high { }"), at(1, 21));
    assert_eq!(parse_text("if input 1 is high and { }"), at(1, 24));
    assert_eq!(parse_text("if input 1 high { }"), at(1, 12));
    assert_eq!(parse_text("on input 1 { }"), at(1, 4));
    assert_eq!(parse_text("on redge input 1 { } else { }"), at(1, 22));
    assert_eq!(parse_text("if input 1 is low { } else toggle output 1;"), at(1, 28));
    assert_eq!(parse_text("toggle output 1; @"), at(1, 18));
    // Keywords are no names.
    assert_eq!(parse_text("toggle high;"), at(1, 8));
    // A pin that is too large to be a pin at all.
    assert_eq!(parse_text("toggle output 256;"), at(1, 15));
    assert_eq!(parse_text("toggle output 99999999999999999999;"), at(1, 15));
    assert_eq!(
        parse_text("toggle output 32;"),
        Err(ParseError::InvalidPinIDError(InvalidPinIDError { id: 32 }))
    );
    assert_eq!(
        parse_text("if input 255 is low { }"),
        Err(ParseError::InvalidPinIDError(InvalidPinIDError { id: 255 }))
    );
    assert_eq!(
        parse_text("toggle output 1; toggle 2nd;"),
        Err(ParseError::InvalidEntityIDError(InvalidEntityIDError { id: "2nd".to_string() }))
    );
    assert_eq!(
        parse_text("toggle output 031;"),
        Ok(vec![Statement::Action(Action::Toggle(Output::Number(pin(31))))])
    );
    let chars = to_chars("ab\ncd\n");
    assert_eq!(source_location(&chars, 0), SourceLoc(1, 1));
    assert_eq!(source_location(&chars, 2), SourceLoc(1, 3));
    assert_eq!(source_location(&chars, 3), SourceLoc(2, 1));
    assert_eq!(source_location(&chars, 6), SourceLoc(3, 1));
}

#[test]
fn test_grammar_shapes() {
    // Operators have no precedence: what follows an operator is its right side.
    let statements = parse_text("if a is low and b is low or c is low { }").unwrap();
    let leaf = |name: &str| Condition::Entity(id(name), IsWas::Is, Value::Low);
    assert_eq!(
        statements,
        vec![Statement::IfElse(
            Condition::And(
                Box::new(leaf("a")),
                Box::new(Condition::Or(Box::new(leaf("b")), Box::new(leaf("c")))),
            ),
            vec![],
            vec![],
        )]
    );
    let statements = parse_text("if (a is low and b is low) or not not c is low { }").unwrap();
    assert_eq!(
        statements,
        vec![Statement::IfElse(
            Condition::Or(
                Box::new(Condition::And(Box::new(leaf("a")), Box::new(leaf("b")))),
                Box::new(Condition::Not(Box::new(Condition::Not(Box::new(leaf("c")))))),
            ),
            vec![],
            vec![],
        )]
    );
    // An `else if` is a conditional in the else block.
    let statements =
        parse_text("if a is low { } else if b is low { toggle x; } else { toggle y; }").unwrap();
    assert_eq!(
        statements,
        vec![Statement::IfElse(
            leaf("a"),
            vec![],
            vec![Statement::IfElse(
                leaf("b"),
                vec![Statement::Action(Action::Toggle(Output::Entity(id("x"))))],
                vec![Statement::Action(Action::Toggle(Output::Entity(id("y"))))],
            )],
        )]
    );
    let statements = parse_text("on fedge door { on redge input 2 { } }").unwrap();
    assert_eq!(
        statements,
        vec![Statement::Event {
            edge: Edge::Falling,
            input: Input::Entity(id("door")),
            statements: vec![Statement::Event {
                edge: Edge::Rising,
                input: Input::Number(pin(2)),
                statements: vec![],
            }],
        }]
    );
}

/// What a program means, worked out on the syntax tree.
struct Meaning<'a> {
    declarations: &'a IODeclarations,
    input_old: u32,
    input_new: u32,
    output_old: u32,
}

impl Meaning<'_> {
    fn input(&self, input: &Input) -> u8 {
        match input {
            Input::Number(pin) => pin.get(),
            Input::Entity(id) => self.declarations.inputs.get(id).unwrap().pin.get(),
        }
    }

    fn output(&self, output: &Output) -> u8 {
        match output {
            Output::Number(pin) => pin.get(),
            Output::Entity(id) => self.declarations.outputs.get(id).unwrap().pin.get(),
        }
    }

    fn level(&self, sample: u32, pin: u8, value: &Value) -> bool {
        (sample & (1 << pin) != 0) == (*value == Value::High)
    }

    fn holds(&self, condition: &Condition, now: u32) -> bool {
        let inputs = |is_was: &IsWas| match is_was {
            IsWas::Was => self.input_old,
            IsWas::Is => self.input_new,
        };
        let outputs = |is_was: &IsWas| match is_was {
            IsWas::Was => self.output_old,
            IsWas::Is => now,
        };
        match condition {
            Condition::And(l, r) => self.holds(l, now) && self.holds(r, now),
            Condition::Or(l, r) => self.holds(l, now) || self.holds(r, now),
            Condition::Xor(l, r) => self.holds(l, now) != self.holds(r, now),
            Condition::Not(c) => !self.holds(c, now),
            Condition::Input(input, is_was, value) => {
                self.level(inputs(is_was), self.input(input), value)
            }
            Condition::Output(output, is_was, value) => {
                self.level(outputs(is_was), self.output(output), value)
            }
            Condition::Entity(id, is_was, value) => match self.declarations.inputs.get(id) {
                Some(declaration) => self.level(inputs(is_was), declaration.pin.get(), value),
                None => self.level(
                    outputs(is_was),
                    self.declarations.outputs.get(id).unwrap().pin.get(),
                    value,
                ),
            },
        }
    }

    fn block(&self, statements: &[Statement], mut now: u32, enabled: bool) -> u32 {
        for statement in statements {
            now = match statement {
                Statement::Action(_) if !enabled => now,
                Statement::Action(Action::Toggle(output)) => now ^ (1 << self.output(output)),
                Statement::Action(Action::SetOutput(output, Value::High)) => {
                    now | (1 << self.output(output))
                }
                Statement::Action(Action::SetOutput(output, Value::Low)) => {
                    now & !(1 << self.output(output))
                }
                Statement::IfElse(condition, first, second) => {
                    let holds = self.holds(condition, now);
                    let after = self.block(first, now, enabled && holds);
                    self.block(second, after, enabled && !holds)
                }
                Statement::Event { edge, input, statements } => {
                    let pin = self.input(input);
                    let was = self.input_old & (1 << pin) != 0;
                    let is = self.input_new & (1 << pin) != 0;
                    let seen = match edge {
                        Edge::Rising => !was && is,
                        Edge::Falling => was && !is,
                    };
                    self.block(statements, now, enabled && seen)
                }
            };
        }
        now
    }
}

#[test]
fn test_compiled_meaning() {
    let declarations = IODeclarations {
        inputs: declare(&[("door", 0), ("both", 1)]),
        outputs: declare(&[("lamp", 0), ("both", 2)]),
    };
    let sources = [
        SCENARIO,
        "toggle lamp; set output 1 high; if lamp is high { set output 1 low; }",
        "on redge door { if both is high xor lamp was high { toggle both; } else { \
         if not (input 1 was low or output 1 is low) { set lamp high; } toggle output 1; } } \
         on fedge both { toggle lamp; if lamp is high and lamp was low { set both low; } }",
        "if door is low { toggle lamp; if lamp is low { toggle output 1; } else if door was high \
         { set both high; } } else { on redge input 1 { toggle both; } }",
    ];
    for source in sources {
        let program = Program {
            declarations: declarations.clone(),
            statements: parse_text(source).unwrap(),
        };
        let compiled = compile(&program).unwrap();
        for bits in 0..512u32 {
            let meaning = Meaning {
                declarations: &declarations,
                input_old: bits & 3,
                input_new: (bits >> 2) & 3,
                output_old: (bits >> 4) & 7,
            };
            let expected = meaning.block(&program.statements, meaning.output_old, true);
            let output = run_program(
                &compiled,
                &meaning.input_old.into(),
                &meaning.input_new.into(),
                &meaning.output_old.into(),
            );
            assert_eq!(output.value(), expected, "{source} on {bits:#b}");
        }
    }
}

#[test]
fn test_copies() {
    let declarations =
        IODeclarations { inputs: declare(&[("a", 1)]), outputs: declare(&[("x", 2)]) };
    let program = Program {
        declarations,
        statements: parse_text(
            "on redge a { if not (input 1 is low and x was high) xor a is low { toggle x; } \
             else if output 3 is high or a is high { set output 4 low; } }",
        )
        .unwrap(),
    };
    let copy = program.clone();
    assert_eq!(copy, program);
    assert_eq!(copy.statements[0].clone(), program.statements[0]);
    assert_eq!(compile(&copy), compile(&program));
}

#[test]
fn test_split_source() {
    assert_eq!(split_source("toggle output 1;"), (None, "toggle output 1;"));
    assert_eq!(split_source(""), (None, ""));
    assert_eq!(split_source("---"), (Some(""), ""));
    assert_eq!(split_source("a\n---\nb"), (Some("a\n"), "\nb"));
    assert_eq!(split_source("a\n--- \t\r\nb"), (Some("a\n"), "\nb"));
    // The white space after the dashes belongs to the separator up to its
    // last line end.
    assert_eq!(split_source("a\n---\n\n\n  b"), (Some("a\n"), "\n  b"));
    assert_eq!(split_source("a\n---\n \u{a0}\n"), (Some("a\n"), ""));
    // The first separator line cuts.
    assert_eq!(split_source("---\n---\n"), (Some(""), "\n---\n"));
    assert_eq!(split_source("x\n---\ny\n---\nz"), (Some("x\n"), "\ny\n---\nz"));
    // No separator: dashes inside a line, or followed by more on the line.
    assert_eq!(split_source("a ---\nb"), (None, "a ---\nb"));
    assert_eq!(split_source("a\n--- b\n"), (None, "a\n--- b\n"));
    assert_eq!(split_source("a\n--\nb"), (None, "a\n--\nb"));
    assert_eq!(split_source("é\n---\nü"), (Some("é\n"), "\nü"));
}
