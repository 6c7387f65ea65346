//! Uploading a program to the controller: what is checked before a program
//! is sent, how its bytes are cut into messages, and how the upload goes on
//! with every answer of the controller.

use crate::controller::message::{MessageBody, MAX_MESSAGE_BODY_LENGTH};
use crate::controller::program_header::ProgramHeader;
use crate::handlers::message::Message;
use crate::shal::ast::IODeclarations;
use crate::shal::bytecode::{
    depth_exceeded_at, encode_instructions, header_of, lemma_take_step, max_depth,
    size_exceeded_at, stack_safe, Program,
};
use crate::shal::bytecode;
use crate::shal::compiler::{compile, CompileError};
use crate::shal::compiler;
use crate::shal::interpreter::{lemma_safe_program_runs, run, StackError};
use crate::shal::semantics::{lemma_compile_preserves_meaning, program_effect, Samples};
use crate::shal::parser::{parse, ParseError};
use crate::shal::parser;
use vstd::prelude::*;

verus! {

/// The deepest stack that the controller has.
pub const STACK_DEPTH_LIMIT: i32 = 32;

/// The largest program, in bytes, that the controller holds.
pub const PROGRAM_SIZE_LIMIT: usize = 248;

/// Why a text gives no program to upload.
#[derive(Debug, PartialEq, Eq)]
pub enum ProgrammerError {
    ParseError(parser::ParseError),
    CompileError(compiler::CompileError),
    StackLimitError(bytecode::StackLimitError),
    ProgramSizeError(bytecode::ProgramSizeError),
}

/// The program needs no deeper stack than the controller has.
pub open spec fn fits_stack(code: Seq<bytecode::Instruction>) -> bool {
    forall|i: int| !#[trigger] depth_exceeded_at(code, STACK_DEPTH_LIMIT as int, i)
}

/// The program has no more bytes than the controller holds.
pub open spec fn fits_size(code: Seq<bytecode::Instruction>) -> bool {
    forall|i: int| !#[trigger] size_exceeded_at(code, PROGRAM_SIZE_LIMIT as int, i)
}

/// A program that has an instruction and fits the controller's stack needs
/// no deeper stack than the simulator has.
pub proof fn lemma_fitting_depth(code: Seq<bytecode::Instruction>)
    requires
        code.len() > 0,
        fits_stack(code),
    ensures
        max_depth(code) <= STACK_DEPTH_LIMIT,
{
    lemma_take_step(code, code.len() - 1);
    assert(!depth_exceeded_at(code, STACK_DEPTH_LIMIT as int, code.len() - 1));
}

/// Compiles a program and checks that it fits the controller: its stack
/// first, then its size. The first of these that fails is the error.
///
/// A program that was made so runs on the simulator without a stack error,
/// whatever the inputs and outputs are, and yields the outputs that the
/// program that was compiled asks for.
pub fn compile_checked(ast_program: &crate::shal::ast::Program) -> (r: Result<
    Program,
    ProgrammerError,
>)
    ensures
        match compiler::lower_program(*ast_program) {
            Err(name) => r matches Err(ProgrammerError::CompileError(e)) && compiler::is_unknown(
                e,
                name,
            ),
            Ok(code) => if !fits_stack(code) {
                r matches Err(ProgrammerError::StackLimitError(_))
            } else if !fits_size(code) {
                r matches Err(ProgrammerError::ProgramSizeError(_))
            } else {
                r matches Ok(program) && program.instructions@ == code
                    && program.source_locations@.len() == 0 && program.wf()
            },
        },
        r matches Ok(program) ==> stack_safe(program.instructions@, 0) && forall|
            input_old: u32,
            input_new: u32,
            output_old: u32,
        | #[trigger]
            run(program.instructions@, input_old, input_new, output_old) == Ok::<u32, StackError>(
                program_effect(*ast_program, Samples { input_old, input_new, output_old }),
            ),
{
    let program = match compile(ast_program) {
        Ok(program) => program,
        Err(e) => {
            return Err(ProgrammerError::CompileError(e));
        },
    };
    assert(bytecode::depth_limit(Some(STACK_DEPTH_LIMIT)) == STACK_DEPTH_LIMIT as int);
    assert(bytecode::size_limit(Some(PROGRAM_SIZE_LIMIT)) == PROGRAM_SIZE_LIMIT as int);
    match program.check_stack_depth(Some(STACK_DEPTH_LIMIT)) {
        Ok(_) => {},
        Err(e) => {
            return Err(ProgrammerError::StackLimitError(e));
        },
    }
    assert(fits_stack(program.instructions@));
    match program.check_program_size(Some(PROGRAM_SIZE_LIMIT)) {
        Ok(_) => {},
        Err(e) => {
            return Err(ProgrammerError::ProgramSizeError(e));
        },
    }
    assert(fits_size(program.instructions@));
    proof {
        lemma_fitting_depth(program.instructions@);
        assert forall|input_old: u32, input_new: u32, output_old: u32| #[trigger]
            run(program.instructions@, input_old, input_new, output_old) == Ok::<u32, StackError>(
                program_effect(*ast_program, Samples { input_old, input_new, output_old }),
            ) by {
            lemma_safe_program_runs(program.instructions@, input_old, input_new, output_old);
            lemma_compile_preserves_meaning(
                *ast_program,
                Samples { input_old, input_new, output_old },
            );
        }
    }
    Ok(program)
}

/// Makes the program of a text that is fit to upload: it reads the text
/// with its declarations, compiles it, and checks that the program fits the
/// controller. The first of these that fails is the error.
pub fn build(declarations: IODeclarations, input: &str) -> (r: Result<Program, ProgrammerError>)
    ensures
        r matches Err(ProgrammerError::ParseError(_)) <==> !(parser::parses(input@)
            && parser::declarations_valid(declarations)),
        r matches Err(ProgrammerError::ParseError(e)) ==> if parser::parses(input@) {
            parser::is_declaration_fault(e, declarations)
        } else {
            parser::is_parse_of(Err(e), input@)
        },
        r matches Ok(program) ==> {
            &&& program.wf()
            &&& fits_stack(program.instructions@)
            &&& fits_size(program.instructions@)
            &&& stack_safe(program.instructions@, 0)
            &&& forall|input_old: u32, input_new: u32, output_old: u32| #[trigger]
                run(program.instructions@, input_old, input_new, output_old) is Ok
        },
{
    let program_ast = match parse(declarations, input) {
        Ok(ast) => ast,
        Err(e) => {
            return Err(ProgrammerError::ParseError(e));
        },
    };
    compile_checked(&program_ast)
}

/// Where an upload stands.
#[derive(Copy, Clone, Debug, PartialEq, Eq, Structural)]
pub enum State {
    /// The start was announced; the controller has not answered yet.
    AwaitingAck,
    /// The program was sent; the controller has not confirmed it yet.
    Uploading,
}

/// Whether an upload is over.
#[derive(Copy, Clone, Debug, PartialEq, Eq, Structural)]
pub enum HandleMessageResult {
    Done,
    Continue,
}

/// What reaches the programmer: a message, the news that messages were
/// missed, or the news that no more will come.
#[derive(Clone, Debug)]
pub enum Incoming {
    Received(Message),
    Lagged(u64),
    Closed,
}

/// What the programmer does about what reached it.
#[derive(Copy, Clone, Debug, PartialEq, Eq, Structural)]
pub enum Step {
    /// Nothing.
    Ignore,
    /// It sends the program and waits for its confirmation.
    Upload,
    /// It announces the start again and waits for the answer.
    Retry,
    /// The upload is over.
    Finish,
}

/// What the programmer does in a state, for a program with a header, about
/// what reached it.
///
/// While it waits for the answer to the start, the answer with the
/// program's header makes it upload, and one with another header makes it
/// start again. While it waits for the confirmation, the confirmation with
/// the program's header ends the upload, and one with another header makes
/// it start again. The news that no more messages will come ends the
/// upload. Nothing else matters.
pub open spec fn step_of(state: State, header: ProgramHeader, incoming: Incoming) -> Step {
    match incoming {
        Incoming::Received(Message::ReceivedFromController(body)) => match (state, body) {
            (State::AwaitingAck, MessageBody::ProgramStartAck { header: answered }) => if answered
                == header {
                Step::Upload
            } else {
                Step::Retry
            },
            (State::Uploading, MessageBody::ProgramEndAck { header: answered }) => if answered
                == header {
                Step::Finish
            } else {
                Step::Retry
            },
            _ => Step::Ignore,
        },
        Incoming::Received(_) => Step::Ignore,
        Incoming::Lagged(_) => Step::Ignore,
        Incoming::Closed => Step::Finish,
    }
}

/// The state after a step.
pub open spec fn state_after(state: State, step: Step) -> State {
    match step {
        Step::Upload => State::Uploading,
        Step::Retry => State::AwaitingAck,
        _ => state,
    }
}

/// The bytes of a program cut into the bodies of messages: pieces of 125
/// bytes, and a last piece of at most 125 bytes, which may be empty.
pub open spec fn upload_chunks(bytes: Seq<u8>) -> Seq<Seq<u8>>
    decreases bytes.len(),
{
    if bytes.len() <= MAX_MESSAGE_BODY_LENGTH {
        seq![bytes]
    } else {
        seq![bytes.take(MAX_MESSAGE_BODY_LENGTH as int)] + upload_chunks(
            bytes.skip(MAX_MESSAGE_BODY_LENGTH as int),
        )
    }
}

/// The messages send the pieces in their order: the last as the end of the
/// program, the others as data.
pub open spec fn sends_chunks(messages: Seq<MessageBody>, chunks: Seq<Seq<u8>>) -> bool {
    &&& messages.len() == chunks.len()
    &&& forall|i: int|
        0 <= i < messages.len() - 1 ==> (#[trigger] messages[i] matches MessageBody::ProgramData {
            code,
        } && code@ == chunks[i])
    &&& messages.len() > 0 ==> (messages.last() matches MessageBody::ProgramEnd { code } && code@
        == chunks.last())
}

/// The messages that upload the bytes of a program.
pub fn upload_messages(bytes: &Vec<u8>) -> (messages: Vec<MessageBody>)
    ensures
        sends_chunks(messages@, upload_chunks(bytes@)),
        messages@.len() > 0,
{
    let n = bytes.len();
    let mut messages: Vec<MessageBody> = Vec::new();
    let mut start: usize = 0;
    let ghost mut chunks: Seq<Seq<u8>> = Seq::empty();
    proof {
        assert(bytes@.skip(0) =~= bytes@);
        assert(chunks + upload_chunks(bytes@) =~= upload_chunks(bytes@));
    }
    while n - start > MAX_MESSAGE_BODY_LENGTH
        invariant
            start <= n,
            n == bytes@.len(),
            messages@.len() == chunks.len(),
            forall|i: int|
                0 <= i < messages@.len() ==> (#[trigger] messages@[i]
                    matches MessageBody::ProgramData { code } && code@ == chunks[i]),
            upload_chunks(bytes@) == chunks + upload_chunks(bytes@.skip(start as int)),
        decreases n - start,
    {
        let ghost rest = bytes@.skip(start as int);
        let mut code: Vec<u8> = Vec::new();
        let mut i: usize = 0;
        while i < MAX_MESSAGE_BODY_LENGTH
            invariant
                i <= MAX_MESSAGE_BODY_LENGTH,
                n == bytes@.len(),
                n - start > MAX_MESSAGE_BODY_LENGTH,
                rest == bytes@.skip(start as int),
                code@ == rest.take(i as int),
            decreases MAX_MESSAGE_BODY_LENGTH - i,
        {
            code.push(bytes[start + i]);
            assert(code@ =~= rest.take(i as int + 1));
            i += 1;
        }
        proof {
            assert(rest.skip(MAX_MESSAGE_BODY_LENGTH as int) =~= bytes@.skip(
                start + MAX_MESSAGE_BODY_LENGTH,
            ));
            let next = chunks.push(code@);
            assert(chunks + (seq![code@] + upload_chunks(rest.skip(MAX_MESSAGE_BODY_LENGTH as int)))
                =~= next + upload_chunks(rest.skip(MAX_MESSAGE_BODY_LENGTH as int)));
            chunks = next;
        }
        messages.push(MessageBody::ProgramData { code });
        start += MAX_MESSAGE_BODY_LENGTH;
    }
    let ghost rest = bytes@.skip(start as int);
    let mut code: Vec<u8> = Vec::new();
    let mut i: usize = start;
    while i < n
        invariant
            start <= i <= n,
            n == bytes@.len(),
            rest == bytes@.skip(start as int),
            code@ == rest.take(i - start),
        decreases n - i,
    {
        code.push(bytes[i]);
        assert(code@ =~= rest.take(i - start + 1));
        i += 1;
    }
    proof {
        assert(code@ =~= rest);
        assert(chunks + seq![rest] =~= chunks.push(rest));
    }
    messages.push(MessageBody::ProgramEnd { code });
    messages
}

/// The upload of one program.
#[derive(Clone, Debug)]
pub struct Programmer {
    pub state: State,
    pub program: Program,
}

/// What the programmer asks for after it was told of something.
#[derive(Clone, Debug)]
pub struct Reaction {
    /// Whether the upload is over.
    pub result: HandleMessageResult,
    /// The messages to send to the controller, in their order.
    pub send: Vec<MessageBody>,
}

impl Programmer {
    /// The upload of a program, and the message that announces it.
    pub fn new(program: Program) -> (r: (Programmer, MessageBody))
        ensures
            r.0.state == State::AwaitingAck,
            r.0.program == program,
            r.1 == (MessageBody::ProgramStart { header: header_of(program.instructions@) }),
    {
        let start = MessageBody::ProgramStart { header: program.header() };
        (Programmer { state: State::AwaitingAck, program }, start)
    }

    /// Takes what reached the programmer, and tells what to send and
    /// whether the upload is over.
    pub fn handle_message(&mut self, incoming: &Incoming) -> (r: Reaction)
        ensures
            final(self).program == old(self).program,
            ({
                let header = header_of(old(self).program.instructions@);
                let step = step_of(old(self).state, header, *incoming);
                &&& final(self).state == state_after(old(self).state, step)
                &&& r.result == if step == Step::Finish {
                    HandleMessageResult::Done
                } else {
                    HandleMessageResult::Continue
                }
                &&& step == Step::Ignore || step == Step::Finish ==> r.send@.len() == 0
                &&& step == Step::Retry ==> r.send@ == seq![MessageBody::ProgramStart { header }]
                &&& step == Step::Upload ==> sends_chunks(
                    r.send@,
                    upload_chunks(encode_instructions(old(self).program.instructions@)),
                )
            }),
    {
        let header = self.program.header();
        let step = match incoming {
            Incoming::Received(Message::ReceivedFromController(body)) => match body {
                MessageBody::ProgramStartAck { header: answered } => match self.state {
                    State::AwaitingAck => if *answered == header {
                        Step::Upload
                    } else {
                        Step::Retry
                    },
                    State::Uploading => Step::Ignore,
                },
                MessageBody::ProgramEndAck { header: answered } => match self.state {
                    State::Uploading => if *answered == header {
                        Step::Finish
                    } else {
                        Step::Retry
                    },
                    State::AwaitingAck => Step::Ignore,
                },
                _ => Step::Ignore,
            },
            Incoming::Received(_) => Step::Ignore,
            Incoming::Lagged(_) => Step::Ignore,
            Incoming::Closed => Step::Finish,
        };
        match step {
            Step::Upload => Reaction { result: HandleMessageResult::Continue, send: self.upload() },
            Step::Retry => Reaction { result: HandleMessageResult::Continue, send: self.retry() },
            Step::Finish => Reaction { result: HandleMessageResult::Done, send: Vec::new() },
            Step::Ignore => Reaction { result: HandleMessageResult::Continue, send: Vec::new() },
        }
    }

    /// The messages that send the program; the programmer then waits for
    /// the confirmation.
    pub fn upload(&mut self) -> (send: Vec<MessageBody>)
        ensures
            final(self).program == old(self).program,
            final(self).state == State::Uploading,
            sends_chunks(
                send@,
                upload_chunks(encode_instructions(old(self).program.instructions@)),
            ),
    {
        let bytes = self.program.instruction_bytes();
        self.state = State::Uploading;
        upload_messages(&bytes)
    }

    /// The message that announces the program again; the programmer then
    /// waits for the answer.
    pub fn retry(&mut self) -> (send: Vec<MessageBody>)
        ensures
            final(self).program == old(self).program,
            final(self).state == State::AwaitingAck,
            send@ == seq![
                MessageBody::ProgramStart { header: header_of(old(self).program.instructions@) },
            ],
    {
        let mut send: Vec<MessageBody> = Vec::new();
        send.push(MessageBody::ProgramStart { header: self.program.header() });
        self.state = State::AwaitingAck;
        assert(send@ =~= seq![
            MessageBody::ProgramStart { header: header_of(old(self).program.instructions@) },
        ]);
        send
    }
}

} // verus!
