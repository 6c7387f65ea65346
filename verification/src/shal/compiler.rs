//! The compiler: it resolves entity names to pins and lowers the syntax tree
//! to a flat sequence of instructions without jumps.

use crate::shal::ast::{
    find_entry, Action, Condition, EntityID, IODeclarations, Input, Output, PinID, SourceLoc,
    Statement,
};
use crate::shal::ast;
use crate::shal::bytecode::{
    depth_after, deserialized, lemma_nested_empty, lemma_nested_join,
    lemma_nested_one, lemma_round_trip, nested, program_size, serialized, single_trailing_end,
    stack_safe, DecodingErrorKind, InOut, Instruction,
};
use crate::text::{decimal, push_decimal};
use vstd::string::StringExecFns;
use crate::shal::bytecode;
use crate::shal::common::{Edge, IsWas, Value};
use vstd::prelude::*;

verus! {

broadcast use {vstd::std_specs::vec::group_vec_axioms, vstd::seq::group_seq_axioms};

/// Why a program was not compiled.
#[derive(Debug, PartialEq, Eq)]
pub enum CompileError {
    /// A statement names an entity that is not declared.
    UnknownEntityError { name: EntityID, location: Option<SourceLoc> },
}

/// The text of a source position, or of none.
pub open spec fn location_text(location: Option<SourceLoc>) -> Seq<char> {
    match location {
        Some(SourceLoc(line, column)) => "line "@ + decimal(line as nat) + ", col "@ + decimal(
            column as nat,
        ),
        None => "<null>"@,
    }
}

/// The text of a source position, or of none.
pub fn loc_to_string(source_loc: &Option<SourceLoc>) -> (text: String)
    ensures
        text@ == location_text(*source_loc),
{
    match source_loc {
        Some(SourceLoc(line, column)) => {
            let mut text = String::from_str("line ");
            push_decimal(&mut text, *line as u64);
            text.append(", col ");
            push_decimal(&mut text, *column as u64);
            text
        },
        None => String::from_str("<null>"),
    }
}

impl CompileError {
    /// The message of the error.
    pub open spec fn message(self) -> Seq<char> {
        match self {
            CompileError::UnknownEntityError { name, location } => "Unknown entity: "@ + name@
                + " at "@ + location_text(location),
        }
    }

    /// The message of the error.
    pub fn to_string(&self) -> (text: String)
        ensures
            text@ == self.message(),
    {
        match self {
            CompileError::UnknownEntityError { name, location } => {
                let mut text = String::from_str("Unknown entity: ");
                text.append(name.as_str());
                text.append(" at ");
                text.append(loc_to_string(location).as_str());
                text
            },
        }
    }
}

/// The result of lowering: the instructions, or else the characters of the
/// first entity name, in source order, that is not declared.
pub type Lowered = Result<Seq<Instruction>, Seq<char>>;

/// The instructions of `first` followed by those of `second`; the first
/// failure wins.
pub open spec fn lowered_then(first: Lowered, second: Lowered) -> Lowered {
    match first {
        Err(name) => Err(name),
        Ok(a) => match second {
            Err(name) => Err(name),
            Ok(b) => Ok(a + b),
        },
    }
}

/// The pin of an input reference: the pin itself, or the pin declared for
/// the name among the inputs.
pub open spec fn resolve_input(declarations: IODeclarations, input: Input) -> Result<
    PinID,
    Seq<char>,
> {
    match input {
        Input::Number(pin) => Ok(pin),
        Input::Entity(id) => match find_entry(declarations.inputs@, id@) {
            Some(declaration) => Ok(declaration.pin),
            None => Err(id@),
        },
    }
}

/// The pin of an output reference: the pin itself, or the pin declared for
/// the name among the outputs.
pub open spec fn resolve_output(declarations: IODeclarations, output: Output) -> Result<
    PinID,
    Seq<char>,
> {
    match output {
        Output::Number(pin) => Ok(pin),
        Output::Entity(id) => match find_entry(declarations.outputs@, id@) {
            Some(declaration) => Ok(declaration.pin),
            None => Err(id@),
        },
    }
}

/// The pin and kind of a bare entity name: the inputs are searched first,
/// then the outputs.
pub open spec fn resolve_entity(declarations: IODeclarations, name: Seq<char>) -> Result<
    (PinID, InOut),
    Seq<char>,
> {
    match find_entry(declarations.inputs@, name) {
        Some(declaration) => Ok((declaration.pin, InOut::Input)),
        None => match find_entry(declarations.outputs@, name) {
            Some(declaration) => Ok((declaration.pin, InOut::Output)),
            None => Err(name),
        },
    }
}

/// The instruction of an action.
pub open spec fn lower_action(declarations: IODeclarations, action: Action) -> Lowered {
    match action {
        Action::Toggle(output) => match resolve_output(declarations, output) {
            Ok(pin) => Ok(seq![Instruction::Toggle { output: pin }]),
            Err(name) => Err(name),
        },
        Action::SetOutput(output, value) => match resolve_output(declarations, output) {
            Ok(pin) => Ok(seq![Instruction::SetOutput { output: pin, value }]),
            Err(name) => Err(name),
        },
    }
}

/// The instructions of a condition. They leave one value more on the stack:
/// the left operand's instructions come first, then the right operand's,
/// then the operator.
pub open spec fn lower_condition(declarations: IODeclarations, condition: Condition) -> Lowered
    decreases condition,
{
    match condition {
        Condition::And(left, right) => lowered_then(
            lowered_then(
                lower_condition(declarations, *left),
                lower_condition(declarations, *right),
            ),
            Ok(seq![Instruction::And]),
        ),
        Condition::Or(left, right) => lowered_then(
            lowered_then(
                lower_condition(declarations, *left),
                lower_condition(declarations, *right),
            ),
            Ok(seq![Instruction::Or]),
        ),
        Condition::Xor(left, right) => lowered_then(
            lowered_then(
                lower_condition(declarations, *left),
                lower_condition(declarations, *right),
            ),
            Ok(seq![Instruction::Xor]),
        ),
        Condition::Not(operand) => lowered_then(
            lower_condition(declarations, *operand),
            Ok(seq![Instruction::Not]),
        ),
        Condition::Input(input, is_was, value) => match resolve_input(declarations, input) {
            Ok(number) => Ok(
                seq![Instruction::If { number, is_was, value, in_out: InOut::Input }],
            ),
            Err(name) => Err(name),
        },
        Condition::Output(output, is_was, value) => match resolve_output(declarations, output) {
            Ok(number) => Ok(
                seq![Instruction::If { number, is_was, value, in_out: InOut::Output }],
            ),
            Err(name) => Err(name),
        },
        Condition::Entity(entity, is_was, value) => match resolve_entity(declarations, entity@) {
            Ok((number, in_out)) => Ok(seq![Instruction::If { number, is_was, value, in_out }]),
            Err(name) => Err(name),
        },
    }
}

/// The instructions of a statement.
///
/// A conditional is its condition, its first block, then, only where the
/// second block is not empty, a `Not` and the second block, and a closing
/// `Pop`. An event block is an `On`, its statements and a closing `Pop`.
pub open spec fn lower_statement(declarations: IODeclarations, statement: Statement) -> Lowered
    decreases statement,
{
    match statement {
        Statement::Action(action) => lower_action(declarations, action),
        Statement::IfElse(condition, if_block, else_block) => lowered_then(
            lowered_then(
                lowered_then(
                    lower_condition(declarations, condition),
                    lower_block(declarations, if_block@),
                ),
                if else_block@.len() == 0 {
                    Ok(Seq::empty())
                } else {
                    lowered_then(Ok(seq![Instruction::Not]), lower_block(declarations, else_block@))
                },
            ),
            Ok(seq![Instruction::Pop]),
        ),
        Statement::Event { edge, input, statements } => lowered_then(
            lowered_then(
                match resolve_input(declarations, input) {
                    Ok(pin) => Ok(seq![Instruction::On { input: pin, edge }]),
                    Err(name) => Err(name),
                },
                lower_block(declarations, statements@),
            ),
            Ok(seq![Instruction::Pop]),
        ),
    }
}

/// The instructions of a list of statements, in their order.
pub open spec fn lower_block(declarations: IODeclarations, statements: Seq<Statement>) -> Lowered
    decreases statements,
{
    if statements.len() == 0 {
        Ok(Seq::empty())
    } else {
        lowered_then(
            lower_block(declarations, statements.drop_last()),
            lower_statement(declarations, statements.last()),
        )
    }
}

/// The instructions of a program: those of its statements and a final `End`.
pub open spec fn lower_program(program: ast::Program) -> Lowered {
    lowered_then(
        lower_block(program.declarations, program.statements@),
        Ok(seq![Instruction::End]),
    )
}

/// The error says that the entity with the characters `name` is unknown, at
/// no known position.
pub open spec fn is_unknown(error: CompileError, name: Seq<char>) -> bool {
    match error {
        CompileError::UnknownEntityError { name: n, location } => n@ == name && location is None,
    }
}

/// Every instruction's pins are pins of the controller.
pub open spec fn all_wf(code: Seq<Instruction>) -> bool {
    forall|i: int| 0 <= i < code.len() ==> (#[trigger] code[i]).wf()
}

/// The pin of an input reference; an undeclared name is an error that holds
/// the name.
fn retrieve_input(declarations: &IODeclarations, input: &Input) -> (r: Result<PinID, CompileError>)
    ensures
        match resolve_input(*declarations, *input) {
            Ok(pin) => r == Ok::<PinID, CompileError>(pin) && pin.wf(),
            Err(name) => r matches Err(e) && is_unknown(e, name),
        },
{
    match input {
        Input::Number(number) => Ok(number.checked()),
        Input::Entity(entity_id) => {
            match declarations.inputs.get(entity_id) {
                Some(declaration) => Ok(declaration.pin.checked()),
                None => Err(
                    CompileError::UnknownEntityError { name: entity_id.clone(), location: None },
                ),
            }
        },
    }
}

/// The pin of an output reference; an undeclared name is an error that holds
/// the name.
fn retrieve_output(declarations: &IODeclarations, output: &Output) -> (r: Result<
    PinID,
    CompileError,
>)
    ensures
        match resolve_output(*declarations, *output) {
            Ok(pin) => r == Ok::<PinID, CompileError>(pin) && pin.wf(),
            Err(name) => r matches Err(e) && is_unknown(e, name),
        },
{
    match output {
        Output::Number(number) => Ok(number.checked()),
        Output::Entity(entity_id) => {
            match declarations.outputs.get(entity_id) {
                Some(declaration) => Ok(declaration.pin.checked()),
                None => Err(
                    CompileError::UnknownEntityError { name: entity_id.clone(), location: None },
                ),
            }
        },
    }
}

/// The pin and kind of a bare entity name: an input if one is declared under
/// the name, else an output; a name declared as neither is an error that
/// holds the name.
fn retrieve_entity(declarations: &IODeclarations, entity_id: &EntityID) -> (r: Result<
    (PinID, InOut),
    CompileError,
>)
    ensures
        match resolve_entity(*declarations, entity_id@) {
            Ok(found) => r == Ok::<(PinID, InOut), CompileError>(found) && found.0.wf(),
            Err(name) => r matches Err(e) && is_unknown(e, name),
        },
{
    match declarations.inputs.get(entity_id) {
        Some(declaration) => Ok((declaration.pin.checked(), InOut::Input)),
        None => match declarations.outputs.get(entity_id) {
            Some(declaration) => Ok((declaration.pin.checked(), InOut::Output)),
            None => Err(
                CompileError::UnknownEntityError { name: entity_id.clone(), location: None },
            ),
        },
    }
}

/// Appends the instruction of an action.
fn handle_action(declarations: &IODeclarations, code: &mut Vec<Instruction>, action: &Action) -> (r:
    Result<(), CompileError>)
    requires
        all_wf(old(code)@),
    ensures
        match lower_action(*declarations, *action) {
            Ok(lowered) => r is Ok && final(code)@ == old(code)@ + lowered && all_wf(final(code)@),
            Err(name) => r matches Err(e) && is_unknown(e, name),
        },
{
    match action {
        Action::Toggle(output) => {
            let number = match retrieve_output(declarations, output) {
                Ok(number) => number,
                Err(e) => {
                    return Err(e);
                },
            };
            code.push(Instruction::Toggle { output: number });
            assert(code@ =~= old(code)@ + seq![Instruction::Toggle { output: number }]);
        },
        Action::SetOutput(output, value) => {
            let number = match retrieve_output(declarations, output) {
                Ok(number) => number,
                Err(e) => {
                    return Err(e);
                },
            };
            code.push(Instruction::SetOutput { output: number, value: *value });
            assert(code@ =~= old(code)@ + seq![
                Instruction::SetOutput { output: number, value: *value },
            ]);
        },
    }
    Ok(())
}

/// Appends the instructions of a condition.
fn handle_condition(
    declarations: &IODeclarations,
    code: &mut Vec<Instruction>,
    condition: &Condition,
) -> (r: Result<(), CompileError>)
    requires
        all_wf(old(code)@),
    ensures
        match lower_condition(*declarations, *condition) {
            Ok(lowered) => r is Ok && final(code)@ == old(code)@ + lowered && all_wf(final(code)@),
            Err(name) => r matches Err(e) && is_unknown(e, name),
        },
    decreases condition,
{
    let ghost start = code@;
    match condition {
        Condition::And(left, right) => {
            handle_condition(declarations, code, left)?;
            handle_condition(declarations, code, right)?;
            code.push(Instruction::And);
            proof {
                let l = lower_condition(*declarations, **left)->Ok_0;
                let r = lower_condition(*declarations, **right)->Ok_0;
                assert(code@ =~= start + ((l + r) + seq![Instruction::And]));
            }
        },
        Condition::Or(left, right) => {
            handle_condition(declarations, code, left)?;
            handle_condition(declarations, code, right)?;
            code.push(Instruction::Or);
            proof {
                let l = lower_condition(*declarations, **left)->Ok_0;
                let r = lower_condition(*declarations, **right)->Ok_0;
                assert(code@ =~= start + ((l + r) + seq![Instruction::Or]));
            }
        },
        Condition::Xor(left, right) => {
            handle_condition(declarations, code, left)?;
            handle_condition(declarations, code, right)?;
            code.push(Instruction::Xor);
            proof {
                let l = lower_condition(*declarations, **left)->Ok_0;
                let r = lower_condition(*declarations, **right)->Ok_0;
                assert(code@ =~= start + ((l + r) + seq![Instruction::Xor]));
            }
        },
        Condition::Not(operand) => {
            handle_condition(declarations, code, operand)?;
            code.push(Instruction::Not);
            proof {
                let o = lower_condition(*declarations, **operand)->Ok_0;
                assert(code@ =~= start + (o + seq![Instruction::Not]));
            }
        },
        Condition::Input(input, is_was, value) => {
            let number = retrieve_input(declarations, input)?;
            let instruction = Instruction::If {
                number,
                is_was: *is_was,
                value: *value,
                in_out: InOut::Input,
            };
            code.push(instruction);
            assert(code@ =~= start + seq![instruction]);
        },
        Condition::Output(output, is_was, value) => {
            let number = retrieve_output(declarations, output)?;
            let instruction = Instruction::If {
                number,
                is_was: *is_was,
                value: *value,
                in_out: InOut::Output,
            };
            code.push(instruction);
            assert(code@ =~= start + seq![instruction]);
        },
        Condition::Entity(entity, is_was, value) => {
            let (number, in_out) = retrieve_entity(declarations, entity)?;
            let instruction = Instruction::If { number, is_was: *is_was, value: *value, in_out };
            code.push(instruction);
            assert(code@ =~= start + seq![instruction]);
        },
    }
    Ok(())
}

/// Appends the instructions of a list of statements, in their order.
fn handle_block(
    declarations: &IODeclarations,
    code: &mut Vec<Instruction>,
    statements: &Vec<Statement>,
) -> (r: Result<(), CompileError>)
    requires
        all_wf(old(code)@),
    ensures
        match lower_block(*declarations, statements@) {
            Ok(lowered) => r is Ok && final(code)@ == old(code)@ + lowered && all_wf(final(code)@),
            Err(name) => r matches Err(e) && is_unknown(e, name),
        },
    decreases statements, 2int,
{
    let ghost start = code@;
    let n = statements.len();
    let mut i: usize = 0;
    assert(statements@.take(0) =~= Seq::<Statement>::empty());
    assert(code@ =~= start + Seq::<Instruction>::empty());
    while i < n
        invariant
            i <= n,
            n == statements@.len(),
            all_wf(code@),
            lower_block(*declarations, statements@.take(i as int)) is Ok,
            code@ == start + lower_block(*declarations, statements@.take(i as int))->Ok_0,
        decreases n - i,
    {
        let ghost before = code@;
        let ghost done = lower_block(*declarations, statements@.take(i as int))->Ok_0;
        proof {
            assert(statements@.take(i as int + 1).drop_last() =~= statements@.take(i as int));
            assert(statements@.take(i as int + 1).last() == statements@[i as int]);
            lemma_block_failure(*declarations, statements@, i as int + 1);
        }
        handle_statement(declarations, code, &statements[i])?;
        proof {
            let next = lower_statement(*declarations, statements@[i as int])->Ok_0;
            assert(code@ =~= start + (done + next));
        }
        i += 1;
    }
    assert(statements@.take(n as int) =~= statements@);
    Ok(())
}

/// A failure in a part of a block is the failure of the whole block.
pub proof fn lemma_block_failure(
    declarations: IODeclarations,
    statements: Seq<Statement>,
    index: int,
)
    requires
        0 <= index <= statements.len(),
    ensures
        lower_block(declarations, statements.take(index)) matches Err(name) ==> lower_block(
            declarations,
            statements,
        ) == Err::<Seq<Instruction>, Seq<char>>(name),
    decreases statements.len(),
{
    if index == statements.len() {
        assert(statements.take(index) =~= statements);
    } else {
        lemma_block_failure(declarations, statements.drop_last(), index);
        assert(statements.drop_last().take(index) =~= statements.take(index));
    }
}

/// Appends the instructions of a statement.
fn handle_statement(
    declarations: &IODeclarations,
    code: &mut Vec<Instruction>,
    statement: &Statement,
) -> (r: Result<(), CompileError>)
    requires
        all_wf(old(code)@),
    ensures
        match lower_statement(*declarations, *statement) {
            Ok(lowered) => r is Ok && final(code)@ == old(code)@ + lowered && all_wf(final(code)@),
            Err(name) => r matches Err(e) && is_unknown(e, name),
        },
    decreases statement, 1int,
{
    match statement {
        Statement::Action(action) => handle_action(declarations, code, action),
        Statement::IfElse(..) => handle_if_else(declarations, code, statement),
        Statement::Event { .. } => handle_event(declarations, code, statement),
    }
}

/// Appends the instructions of a conditional: the condition, the first
/// block, a `Not` and the second block where that is not empty, and a `Pop`.
fn handle_if_else(
    declarations: &IODeclarations,
    code: &mut Vec<Instruction>,
    statement: &Statement,
) -> (r: Result<(), CompileError>)
    requires
        all_wf(old(code)@),
        statement is IfElse,
    ensures
        match lower_statement(*declarations, *statement) {
            Ok(lowered) => r is Ok && final(code)@ == old(code)@ + lowered && all_wf(final(code)@),
            Err(name) => r matches Err(e) && is_unknown(e, name),
        },
    decreases statement, 0int,
{
    let ghost start = code@;
    if let Statement::IfElse(condition, if_block, else_block) = statement {
        handle_condition(declarations, code, condition)?;
        handle_block(declarations, code, if_block)?;
        let ghost tested = lower_condition(*declarations, *condition)->Ok_0;
        let ghost first = lower_block(*declarations, if_block@)->Ok_0;
        if else_block.len() > 0 {
            code.push(Instruction::Not);
            handle_block(declarations, code, else_block)?;
            code.push(Instruction::Pop);
            proof {
                let second = lower_block(*declarations, else_block@)->Ok_0;
                assert(code@ =~= start + (((tested + first) + (seq![Instruction::Not] + second))
                    + seq![Instruction::Pop]));
            }
        } else {
            code.push(Instruction::Pop);
            assert(code@ =~= start + (((tested + first) + Seq::<Instruction>::empty())
                + seq![Instruction::Pop]));
        }
    }
    Ok(())
}

/// Appends the instructions of an event block: an `On`, the statements and
/// a `Pop`.
fn handle_event(
    declarations: &IODeclarations,
    code: &mut Vec<Instruction>,
    statement: &Statement,
) -> (r: Result<(), CompileError>)
    requires
        all_wf(old(code)@),
        statement is Event,
    ensures
        match lower_statement(*declarations, *statement) {
            Ok(lowered) => r is Ok && final(code)@ == old(code)@ + lowered && all_wf(final(code)@),
            Err(name) => r matches Err(e) && is_unknown(e, name),
        },
    decreases statement, 0int,
{
    let ghost start = code@;
    if let Statement::Event { edge, input, statements } = statement {
        let number = retrieve_input(declarations, input)?;
        let instruction = Instruction::On { input: number, edge: *edge };
        code.push(instruction);
        handle_block(declarations, code, statements)?;
        code.push(Instruction::Pop);
        proof {
            let body = lower_block(*declarations, statements@)->Ok_0;
            assert(code@ =~= start + ((seq![instruction] + body) + seq![Instruction::Pop]));
        }
    }
    Ok(())
}

/// Compiles a program: the instructions of its statements in source order
/// and a final `End`. No source positions are recorded.
///
/// The program is refused exactly where it names an entity that is not
/// declared; the error holds the first such name in source order.
pub fn compile(ast_program: &ast::Program) -> (r: Result<bytecode::Program, CompileError>)
    ensures
        match lower_program(*ast_program) {
            Ok(lowered) => r matches Ok(program) && program.instructions@ == lowered
                && program.source_locations@.len() == 0 && program.wf(),
            Err(name) => r matches Err(e) && is_unknown(e, name),
        },
        r matches Ok(program) ==> single_trailing_end(program.instructions@) && stack_safe(
            program.instructions@,
            0,
        ) && depth_after(program.instructions@) == 0,
{
    proof {
        if lower_program(*ast_program) is Ok {
            lemma_compiled_nested(*ast_program);
        }
    }
    let mut instructions: Vec<Instruction> = Vec::new();
    handle_block(&ast_program.declarations, &mut instructions, &ast_program.statements)?;
    instructions.push(Instruction::End);
    proof {
        let body = lower_block(ast_program.declarations, ast_program.statements@)->Ok_0;
        assert(instructions@ =~= body + seq![Instruction::End]);
    }
    Ok(bytecode::Program { instructions, source_locations: Vec::new() })
}

/// The instructions of a condition never take more values than the stack
/// holds, and leave one value more on it.
pub proof fn lemma_condition_nested(declarations: IODeclarations, condition: Condition, depth: int)
    requires
        depth >= 0,
        lower_condition(declarations, condition) is Ok,
    ensures
        nested(lower_condition(declarations, condition)->Ok_0, depth, 1),
    decreases condition,
{
    match condition {
        Condition::And(left, right) => {
            lemma_condition_nested(declarations, *left, depth);
            lemma_condition_nested(declarations, *right, depth + 1);
            lemma_operands_nested(
                lower_condition(declarations, *left)->Ok_0,
                lower_condition(declarations, *right)->Ok_0,
                Instruction::And,
                depth,
            );
        },
        Condition::Or(left, right) => {
            lemma_condition_nested(declarations, *left, depth);
            lemma_condition_nested(declarations, *right, depth + 1);
            lemma_operands_nested(
                lower_condition(declarations, *left)->Ok_0,
                lower_condition(declarations, *right)->Ok_0,
                Instruction::Or,
                depth,
            );
        },
        Condition::Xor(left, right) => {
            lemma_condition_nested(declarations, *left, depth);
            lemma_condition_nested(declarations, *right, depth + 1);
            lemma_operands_nested(
                lower_condition(declarations, *left)->Ok_0,
                lower_condition(declarations, *right)->Ok_0,
                Instruction::Xor,
                depth,
            );
        },
        Condition::Not(operand) => {
            lemma_condition_nested(declarations, *operand, depth);
            lemma_nested_one(Instruction::Not, depth + 1);
            lemma_nested_join(
                lower_condition(declarations, *operand)->Ok_0,
                seq![Instruction::Not],
                depth,
                1,
                0,
            );
        },
        Condition::Input(input, is_was, value) => {
            let number = resolve_input(declarations, input)->Ok_0;
            lemma_nested_one(Instruction::If { number, is_was, value, in_out: InOut::Input }, depth);
        },
        Condition::Output(output, is_was, value) => {
            let number = resolve_output(declarations, output)->Ok_0;
            lemma_nested_one(
                Instruction::If { number, is_was, value, in_out: InOut::Output },
                depth,
            );
        },
        Condition::Entity(entity, is_was, value) => {
            let (number, in_out) = resolve_entity(declarations, entity@)->Ok_0;
            lemma_nested_one(Instruction::If { number, is_was, value, in_out }, depth);
        },
    }
}

/// Two operands and their operator are nested and leave one value more.
proof fn lemma_operands_nested(
    left: Seq<Instruction>,
    right: Seq<Instruction>,
    operator: Instruction,
    depth: int,
)
    requires
        operator == Instruction::And || operator == Instruction::Or || operator
            == Instruction::Xor,
        nested(left, depth, 1),
        nested(right, depth + 1, 1),
        depth >= 0,
    ensures
        nested((left + right) + seq![operator], depth, 1),
{
    lemma_nested_join(left, right, depth, 1, 1);
    lemma_nested_one(operator, depth + 2);
    lemma_nested_join(left + right, seq![operator], depth, 2, -1);
}

/// The instructions of a statement never take more values than the stack
/// holds, and leave on it what they found.
pub proof fn lemma_statement_nested(declarations: IODeclarations, statement: Statement, depth: int)
    requires
        depth >= 0,
        lower_statement(declarations, statement) is Ok,
    ensures
        nested(lower_statement(declarations, statement)->Ok_0, depth, 0),
    decreases statement,
{
    match statement {
        Statement::Action(action) => {
            match action {
                Action::Toggle(output) => {
                    let pin = resolve_output(declarations, output)->Ok_0;
                    lemma_nested_one(Instruction::Toggle { output: pin }, depth);
                },
                Action::SetOutput(output, value) => {
                    let pin = resolve_output(declarations, output)->Ok_0;
                    lemma_nested_one(Instruction::SetOutput { output: pin, value }, depth);
                },
            }
        },
        Statement::IfElse(condition, if_block, else_block) => {
            let tested = lower_condition(declarations, condition)->Ok_0;
            let first = lower_block(declarations, if_block@)->Ok_0;
            lemma_condition_nested(declarations, condition, depth);
            lemma_block_nested(declarations, if_block@, depth + 1);
            lemma_nested_join(tested, first, depth, 1, 0);
            let other = if else_block@.len() == 0 {
                Seq::<Instruction>::empty()
            } else {
                seq![Instruction::Not] + lower_block(declarations, else_block@)->Ok_0
            };
            if else_block@.len() == 0 {
                lemma_nested_empty(depth + 1);
            } else {
                let second = lower_block(declarations, else_block@)->Ok_0;
                lemma_block_nested(declarations, else_block@, depth + 1);
                lemma_nested_one(Instruction::Not, depth + 1);
                lemma_nested_join(seq![Instruction::Not], second, depth + 1, 0, 0);
            }
            lemma_nested_join(tested + first, other, depth, 1, 0);
            lemma_nested_one(Instruction::Pop, depth + 1);
            lemma_nested_join((tested + first) + other, seq![Instruction::Pop], depth, 1, -1);
        },
        Statement::Event { edge, input, statements } => {
            let pin = resolve_input(declarations, input)->Ok_0;
            let on = seq![Instruction::On { input: pin, edge }];
            let body = lower_block(declarations, statements@)->Ok_0;
            lemma_nested_one(Instruction::On { input: pin, edge }, depth);
            lemma_block_nested(declarations, statements@, depth + 1);
            lemma_nested_join(on, body, depth, 1, 0);
            lemma_nested_one(Instruction::Pop, depth + 1);
            lemma_nested_join(on + body, seq![Instruction::Pop], depth, 1, -1);
        },
    }
}

/// The instructions of a list of statements never take more values than
/// the stack holds, and leave on it what they found.
pub proof fn lemma_block_nested(
    declarations: IODeclarations,
    statements: Seq<Statement>,
    depth: int,
)
    requires
        depth >= 0,
        lower_block(declarations, statements) is Ok,
    ensures
        nested(lower_block(declarations, statements)->Ok_0, depth, 0),
    decreases statements,
{
    if statements.len() > 0 {
        lemma_block_nested(declarations, statements.drop_last(), depth);
        lemma_statement_nested(declarations, statements.last(), depth);
        lemma_nested_join(
            lower_block(declarations, statements.drop_last())->Ok_0,
            lower_statement(declarations, statements.last())->Ok_0,
            depth,
            0,
            0,
        );
    }
}

/// A compiled program ends in its only `End`, never takes a value from an
/// empty stack, and leaves the stack empty.
pub proof fn lemma_compiled_nested(program: ast::Program)
    requires
        lower_program(program) is Ok,
    ensures
        single_trailing_end(lower_program(program)->Ok_0),
        stack_safe(lower_program(program)->Ok_0, 0),
        depth_after(lower_program(program)->Ok_0) == 0,
{
    let body = lower_block(program.declarations, program.statements@)->Ok_0;
    let code = lower_program(program)->Ok_0;
    lemma_block_nested(program.declarations, program.statements@, 0);
    assert(code.drop_last() =~= body);
}

/// Whatever refers to an entity that is declared neither as an input nor as
/// an output is refused with that entity's name.
pub proof fn lemma_unknown_entity(declarations: IODeclarations, entity: EntityID)
    requires
        find_entry(declarations.inputs@, entity@) is None,
        find_entry(declarations.outputs@, entity@) is None,
    ensures
        resolve_input(declarations, Input::Entity(entity)) == Err::<PinID, Seq<char>>(entity@),
        resolve_output(declarations, Output::Entity(entity)) == Err::<PinID, Seq<char>>(entity@),
        resolve_entity(declarations, entity@) == Err::<(PinID, InOut), Seq<char>>(entity@),
        forall|value: Value|
            #[trigger] lower_statement(
                declarations,
                Statement::Action(Action::SetOutput(Output::Entity(entity), value)),
            ) == Err::<Seq<Instruction>, Seq<char>>(entity@),
        lower_statement(declarations, Statement::Action(Action::Toggle(Output::Entity(entity))))
            == Err::<Seq<Instruction>, Seq<char>>(entity@),
        forall|edge: Edge, statements: Vec<Statement>|
            #[trigger] lower_statement(
                declarations,
                Statement::Event { edge, input: Input::Entity(entity), statements },
            ) == Err::<Seq<Instruction>, Seq<char>>(entity@),
        forall|is_was: IsWas, value: Value|
            #[trigger] lower_condition(declarations, Condition::Entity(entity, is_was, value))
                == Err::<Seq<Instruction>, Seq<char>>(entity@),
{
}

/// A program with a statement that fails is refused with the name that the
/// first such statement is refused with.
pub proof fn lemma_first_failure(program: ast::Program, index: int)
    requires
        0 <= index < program.statements@.len(),
        lower_statement(program.declarations, program.statements@[index]) is Err,
        forall|j: int|
            0 <= j < index ==> lower_statement(
                program.declarations,
                #[trigger] program.statements@[j],
            ) is Ok,
    ensures
        lower_program(program) == Err::<Seq<Instruction>, Seq<char>>(
            lower_statement(program.declarations, program.statements@[index])->Err_0,
        ),
{
    let declarations = program.declarations;
    let statements = program.statements@;
    lemma_block_of_good(declarations, statements.take(index));
    assert(statements.take(index + 1).drop_last() =~= statements.take(index));
    lemma_block_failure(declarations, statements, index + 1);
}

/// A list of statements of which none fails does not fail.
pub proof fn lemma_block_of_good(declarations: IODeclarations, statements: Seq<Statement>)
    requires
        forall|j: int|
            0 <= j < statements.len() ==> lower_statement(declarations, #[trigger] statements[j])
                is Ok,
    ensures
        lower_block(declarations, statements) is Ok,
    decreases statements.len(),
{
    if statements.len() > 0 {
        assert forall|j: int| 0 <= j < statements.drop_last().len() implies lower_statement(
            declarations,
            #[trigger] statements.drop_last()[j],
        ) is Ok by {
            assert(statements.drop_last()[j] == statements[j]);
        }
        lemma_block_of_good(declarations, statements.drop_last());
        assert(statements.last() == statements[statements.len() - 1]);
    }
}

/// A compiled program of at most 65535 instruction bytes is read back from
/// its serialised form as the instructions that were compiled.
pub proof fn lemma_compiled_round_trip(program: ast::Program)
    requires
        lower_program(program) is Ok,
        all_wf(lower_program(program)->Ok_0),
        program_size(lower_program(program)->Ok_0) <= u16::MAX,
    ensures
        deserialized(serialized(lower_program(program)->Ok_0)) == Ok::<
            Seq<Instruction>,
            DecodingErrorKind,
        >(lower_program(program)->Ok_0),
{
    lemma_round_trip(lower_program(program)->Ok_0);
}

} // verus!
