//! What a program means, and that compiling keeps the meaning.
//!
//! A program is run once for every change of the inputs. It sees the old
//! and the new sample of the inputs and the outputs as they were, and it
//! yields the outputs as they shall be. Its statements take effect in their
//! order. A condition is judged once, where its block starts; the first
//! block of a conditional takes effect where the condition holds, the
//! second where it does not. A block inside a block takes effect only where
//! the outer one does.

use crate::shal::ast::{Action, Condition, IODeclarations, Statement};
use crate::shal::ast;
use crate::shal::bytecode::{InOut, Instruction};
use crate::shal::compiler::{
    lemma_block_nested, lower_block, lower_condition, lower_program, lower_statement,
    resolve_entity, resolve_input, resolve_output,
};
use crate::shal::common::AsBit;
use crate::shal::interpreter::{
    all_true, bit_is_set, condition_holds, edge_seen, lemma_all_true_push, lemma_run_is_segment,
    lemma_run_segment_join, lemma_run_segment_one, run, run_segment, step, with_bit, Machine,
    StackError,
};
use vstd::prelude::*;

verus! {

broadcast use {vstd::std_specs::vec::group_vec_axioms, vstd::seq::group_seq_axioms};

/// What a program sees of the world: the old and the new sample of the
/// inputs, and the outputs as they were.
pub struct Samples {
    pub input_old: u32,
    pub input_new: u32,
    pub output_old: u32,
}

/// Whether a condition holds, given the outputs as the program has made
/// them so far.
pub open spec fn condition_value(
    declarations: IODeclarations,
    condition: Condition,
    samples: Samples,
    output: u32,
) -> bool
    decreases condition,
{
    match condition {
        Condition::And(left, right) => condition_value(declarations, *left, samples, output)
            && condition_value(declarations, *right, samples, output),
        Condition::Or(left, right) => condition_value(declarations, *left, samples, output)
            || condition_value(declarations, *right, samples, output),
        Condition::Xor(left, right) => condition_value(declarations, *left, samples, output)
            != condition_value(declarations, *right, samples, output),
        Condition::Not(operand) => !condition_value(declarations, *operand, samples, output),
        Condition::Input(input, is_was, value) => condition_holds(
            resolve_input(declarations, input)->Ok_0@,
            is_was,
            value,
            InOut::Input,
            samples.input_old,
            samples.input_new,
            samples.output_old,
            output,
        ),
        Condition::Output(pin, is_was, value) => condition_holds(
            resolve_output(declarations, pin)->Ok_0@,
            is_was,
            value,
            InOut::Output,
            samples.input_old,
            samples.input_new,
            samples.output_old,
            output,
        ),
        Condition::Entity(entity, is_was, value) => condition_holds(
            resolve_entity(declarations, entity@)->Ok_0.0@,
            is_was,
            value,
            resolve_entity(declarations, entity@)->Ok_0.1,
            samples.input_old,
            samples.input_new,
            samples.output_old,
            output,
        ),
    }
}

/// The outputs after an action, which takes effect only where it is
/// enabled.
pub open spec fn action_effect(
    declarations: IODeclarations,
    action: Action,
    output: u32,
    enabled: bool,
) -> u32 {
    if !enabled {
        output
    } else {
        match action {
            Action::Toggle(pin) => {
                let number = resolve_output(declarations, pin)->Ok_0@;
                with_bit(output, number, !bit_is_set(output, number))
            },
            Action::SetOutput(pin, value) => with_bit(
                output,
                resolve_output(declarations, pin)->Ok_0@,
                value.bit(),
            ),
        }
    }
}

/// The outputs after a statement.
pub open spec fn statement_effect(
    declarations: IODeclarations,
    statement: Statement,
    samples: Samples,
    output: u32,
    enabled: bool,
) -> u32
    decreases statement,
{
    match statement {
        Statement::Action(action) => action_effect(declarations, action, output, enabled),
        Statement::IfElse(condition, if_block, else_block) => {
            let holds = condition_value(declarations, condition, samples, output);
            let after = block_effect(declarations, if_block@, samples, output, enabled && holds);
            block_effect(declarations, else_block@, samples, after, enabled && !holds)
        },
        Statement::Event { edge, input, statements } => block_effect(
            declarations,
            statements@,
            samples,
            output,
            enabled && edge_seen(
                resolve_input(declarations, input)->Ok_0@,
                edge,
                samples.input_old,
                samples.input_new,
            ),
        ),
    }
}

/// The outputs after a list of statements, which take effect in their
/// order.
pub open spec fn block_effect(
    declarations: IODeclarations,
    statements: Seq<Statement>,
    samples: Samples,
    output: u32,
    enabled: bool,
) -> u32
    decreases statements,
{
    if statements.len() == 0 {
        output
    } else {
        statement_effect(
            declarations,
            statements.last(),
            samples,
            block_effect(declarations, statements.drop_last(), samples, output, enabled),
            enabled,
        )
    }
}

/// The outputs that a program asks for.
pub open spec fn program_effect(program: ast::Program, samples: Samples) -> u32 {
    block_effect(program.declarations, program.statements@, samples, samples.output_old, true)
}

/// What instructions make of the machine's state on given samples.
pub open spec fn runs(code: Seq<Instruction>, samples: Samples, state: Machine) -> Result<
    Machine,
    StackError,
> {
    run_segment(code, samples.input_old, samples.input_new, samples.output_old, state)
}

/// The state with one value more on the stack.
pub open spec fn pushed(state: Machine, value: bool) -> Machine {
    Machine { output: state.output, stack: state.stack.push(value) }
}

/// Where a sequence of two parts runs without a stack error, the first
/// part does, and the second does where the first ends.
pub proof fn lemma_runs_parts(
    first: Seq<Instruction>,
    second: Seq<Instruction>,
    samples: Samples,
    state: Machine,
)
    requires
        runs(first + second, samples, state) is Ok,
    ensures
        runs(first, samples, state) is Ok,
        runs(second, samples, runs(first, samples, state)->Ok_0) == runs(
            first + second,
            samples,
            state,
        ),
{
    lemma_run_segment_join(
        first,
        second,
        samples.input_old,
        samples.input_new,
        samples.output_old,
        state,
    );
}

/// One instruction run alone does its step.
pub proof fn lemma_runs_one(instruction: Instruction, samples: Samples, state: Machine)
    ensures
        runs(seq![instruction], samples, state) == step(
            instruction,
            samples.input_old,
            samples.input_new,
            samples.output_old,
            state,
        ),
{
    lemma_run_segment_one(
        instruction,
        samples.input_old,
        samples.input_new,
        samples.output_old,
        state,
    );
}

/// The instructions of a condition put the condition's value on the stack
/// and change nothing else.
pub proof fn lemma_condition_runs(
    declarations: IODeclarations,
    condition: Condition,
    samples: Samples,
    state: Machine,
)
    requires
        lower_condition(declarations, condition) is Ok,
        runs(lower_condition(declarations, condition)->Ok_0, samples, state) is Ok,
    ensures
        runs(lower_condition(declarations, condition)->Ok_0, samples, state) == Ok::<
            Machine,
            StackError,
        >(pushed(state, condition_value(declarations, condition, samples, state.output))),
    decreases condition,
{
    let code = lower_condition(declarations, condition)->Ok_0;
    match condition {
        Condition::And(left, right) => {
            let first = lower_condition(declarations, *left)->Ok_0;
            let second = lower_condition(declarations, *right)->Ok_0;
            lemma_runs_parts(first + second, seq![Instruction::And], samples, state);
            lemma_runs_parts(first, second, samples, state);
            lemma_condition_runs(declarations, *left, samples, state);
            let l = condition_value(declarations, *left, samples, state.output);
            lemma_condition_runs(declarations, *right, samples, pushed(state, l));
            let r = condition_value(declarations, *right, samples, state.output);
            lemma_operator_runs(Instruction::And, samples, state, l, r);
        },
        Condition::Or(left, right) => {
            let first = lower_condition(declarations, *left)->Ok_0;
            let second = lower_condition(declarations, *right)->Ok_0;
            lemma_runs_parts(first + second, seq![Instruction::Or], samples, state);
            lemma_runs_parts(first, second, samples, state);
            lemma_condition_runs(declarations, *left, samples, state);
            let l = condition_value(declarations, *left, samples, state.output);
            lemma_condition_runs(declarations, *right, samples, pushed(state, l));
            let r = condition_value(declarations, *right, samples, state.output);
            lemma_operator_runs(Instruction::Or, samples, state, l, r);
        },
        Condition::Xor(left, right) => {
            let first = lower_condition(declarations, *left)->Ok_0;
            let second = lower_condition(declarations, *right)->Ok_0;
            lemma_runs_parts(first + second, seq![Instruction::Xor], samples, state);
            lemma_runs_parts(first, second, samples, state);
            lemma_condition_runs(declarations, *left, samples, state);
            let l = condition_value(declarations, *left, samples, state.output);
            lemma_condition_runs(declarations, *right, samples, pushed(state, l));
            let r = condition_value(declarations, *right, samples, state.output);
            lemma_operator_runs(Instruction::Xor, samples, state, l, r);
        },
        Condition::Not(operand) => {
            let inner = lower_condition(declarations, *operand)->Ok_0;
            lemma_runs_parts(inner, seq![Instruction::Not], samples, state);
            lemma_condition_runs(declarations, *operand, samples, state);
            let value = condition_value(declarations, *operand, samples, state.output);
            let between = pushed(state, value);
            lemma_runs_one(Instruction::Not, samples, between);
            assert(between.stack.drop_last() =~= state.stack);
        },
        Condition::Input(input, is_was, value) => {
            let number = resolve_input(declarations, input)->Ok_0;
            lemma_runs_one(
                Instruction::If { number, is_was, value, in_out: InOut::Input },
                samples,
                state,
            );
        },
        Condition::Output(pin, is_was, value) => {
            let number = resolve_output(declarations, pin)->Ok_0;
            lemma_runs_one(
                Instruction::If { number, is_was, value, in_out: InOut::Output },
                samples,
                state,
            );
        },
        Condition::Entity(entity, is_was, value) => {
            let (number, in_out) = resolve_entity(declarations, entity@)->Ok_0;
            lemma_runs_one(Instruction::If { number, is_was, value, in_out }, samples, state);
        },
    }
}

/// An operator takes the two newest values from the stack and puts its
/// value of them there.
proof fn lemma_operator_runs(
    operator: Instruction,
    samples: Samples,
    state: Machine,
    left: bool,
    right: bool,
)
    requires
        operator == Instruction::And || operator == Instruction::Or || operator
            == Instruction::Xor,
    ensures
        runs(seq![operator], samples, pushed(pushed(state, left), right)) == Ok::<
            Machine,
            StackError,
        >(
            pushed(
                state,
                if operator == Instruction::And {
                    left && right
                } else if operator == Instruction::Or {
                    left || right
                } else {
                    left != right
                },
            ),
        ),
{
    let before = pushed(pushed(state, left), right);
    lemma_runs_one(operator, samples, before);
    let n = before.stack.len() as int;
    assert(before.stack.take(n - 2) =~= state.stack);
    assert(before.stack[n - 1] == right);
    assert(before.stack[n - 2] == left);
}

/// The state with other outputs and the same stack.
pub open spec fn with_output(state: Machine, output: u32) -> Machine {
    Machine { output, stack: state.stack }
}

/// The instructions of a statement make the outputs what the statement
/// means, where every condition on the stack holds, and leave the stack as
/// it was.
pub proof fn lemma_statement_runs(
    declarations: IODeclarations,
    statement: Statement,
    samples: Samples,
    state: Machine,
)
    requires
        lower_statement(declarations, statement) is Ok,
        runs(lower_statement(declarations, statement)->Ok_0, samples, state) is Ok,
    ensures
        runs(lower_statement(declarations, statement)->Ok_0, samples, state) == Ok::<
            Machine,
            StackError,
        >(
            with_output(
                state,
                statement_effect(
                    declarations,
                    statement,
                    samples,
                    state.output,
                    all_true(state.stack),
                ),
            ),
        ),
    decreases statement,
{
    let enabled = all_true(state.stack);
    match statement {
        Statement::Action(action) => {
            match action {
                Action::Toggle(pin) => {
                    let number = resolve_output(declarations, pin)->Ok_0;
                    lemma_runs_one(Instruction::Toggle { output: number }, samples, state);
                },
                Action::SetOutput(pin, value) => {
                    let number = resolve_output(declarations, pin)->Ok_0;
                    lemma_runs_one(
                        Instruction::SetOutput { output: number, value },
                        samples,
                        state,
                    );
                },
            }
        },
        Statement::IfElse(condition, if_block, else_block) => {
            let tested = lower_condition(declarations, condition)->Ok_0;
            let first = lower_block(declarations, if_block@)->Ok_0;
            let other = if else_block@.len() == 0 {
                Seq::<Instruction>::empty()
            } else {
                seq![Instruction::Not] + lower_block(declarations, else_block@)->Ok_0
            };
            let pop = seq![Instruction::Pop];
            lemma_runs_parts((tested + first) + other, pop, samples, state);
            lemma_runs_parts(tested + first, other, samples, state);
            lemma_runs_parts(tested, first, samples, state);
            lemma_condition_runs(declarations, condition, samples, state);
            let holds = condition_value(declarations, condition, samples, state.output);
            let judged = pushed(state, holds);
            lemma_all_true_push(state.stack, holds);
            lemma_block_runs(declarations, if_block@, samples, judged);
            let after = block_effect(
                declarations,
                if_block@,
                samples,
                state.output,
                enabled && holds,
            );
            let then_done = with_output(judged, after);
            if else_block@.len() == 0 {
                lemma_runs_one(Instruction::Pop, samples, then_done);
                assert(then_done.stack.drop_last() =~= state.stack);
            } else {
                let second = lower_block(declarations, else_block@)->Ok_0;
                lemma_runs_parts(seq![Instruction::Not], second, samples, then_done);
                lemma_runs_one(Instruction::Not, samples, then_done);
                let turned = Machine { output: after, stack: state.stack.push(!holds) };
                assert(then_done.stack.drop_last().push(!holds) =~= turned.stack);
                lemma_all_true_push(state.stack, !holds);
                lemma_block_runs(declarations, else_block@, samples, turned);
                let end = block_effect(
                    declarations,
                    else_block@,
                    samples,
                    after,
                    enabled && !holds,
                );
                let else_done = with_output(turned, end);
                lemma_runs_one(Instruction::Pop, samples, else_done);
                assert(else_done.stack.drop_last() =~= state.stack);
            }
        },
        Statement::Event { edge, input, statements } => {
            let number = resolve_input(declarations, input)->Ok_0;
            let on = seq![Instruction::On { input: number, edge }];
            let body = lower_block(declarations, statements@)->Ok_0;
            let pop = seq![Instruction::Pop];
            lemma_runs_parts(on + body, pop, samples, state);
            lemma_runs_parts(on, body, samples, state);
            lemma_runs_one(Instruction::On { input: number, edge }, samples, state);
            let seen = edge_seen(number@, edge, samples.input_old, samples.input_new);
            let judged = pushed(state, seen);
            lemma_all_true_push(state.stack, seen);
            lemma_block_runs(declarations, statements@, samples, judged);
            let after = block_effect(
                declarations,
                statements@,
                samples,
                state.output,
                enabled && seen,
            );
            let done = with_output(judged, after);
            lemma_runs_one(Instruction::Pop, samples, done);
            assert(done.stack.drop_last() =~= state.stack);
        },
    }
}

/// The instructions of a list of statements make the outputs what the
/// statements mean, where every condition on the stack holds, and leave
/// the stack as it was.
pub proof fn lemma_block_runs(
    declarations: IODeclarations,
    statements: Seq<Statement>,
    samples: Samples,
    state: Machine,
)
    requires
        lower_block(declarations, statements) is Ok,
        runs(lower_block(declarations, statements)->Ok_0, samples, state) is Ok,
    ensures
        runs(lower_block(declarations, statements)->Ok_0, samples, state) == Ok::<
            Machine,
            StackError,
        >(
            with_output(
                state,
                block_effect(
                    declarations,
                    statements,
                    samples,
                    state.output,
                    all_true(state.stack),
                ),
            ),
        ),
    decreases statements,
{
    if statements.len() > 0 {
        let before = lower_block(declarations, statements.drop_last())->Ok_0;
        let last = lower_statement(declarations, statements.last())->Ok_0;
        lemma_runs_parts(before, last, samples, state);
        lemma_block_runs(declarations, statements.drop_last(), samples, state);
        let between = with_output(
            state,
            block_effect(
                declarations,
                statements.drop_last(),
                samples,
                state.output,
                all_true(state.stack),
            ),
        );
        lemma_statement_runs(declarations, statements.last(), samples, between);
    }
}

/// Compiling keeps the meaning: a compiled program that runs without a
/// stack error yields the outputs that the program asks for.
pub proof fn lemma_compile_preserves_meaning(program: ast::Program, samples: Samples)
    requires
        lower_program(program) is Ok,
        run(
            lower_program(program)->Ok_0,
            samples.input_old,
            samples.input_new,
            samples.output_old,
        ) is Ok,
    ensures
        run(
            lower_program(program)->Ok_0,
            samples.input_old,
            samples.input_new,
            samples.output_old,
        ) == Ok::<u32, StackError>(program_effect(program, samples)),
{
    let body = lower_block(program.declarations, program.statements@)->Ok_0;
    let code = lower_program(program)->Ok_0;
    let start = Machine { output: samples.output_old, stack: Seq::empty() };
    assert(code =~= body.push(Instruction::End));
    lemma_block_nested(program.declarations, program.statements@, 0);
    assert(body.take(0) =~= Seq::<Instruction>::empty());
    lemma_run_is_segment(
        body,
        0,
        samples.input_old,
        samples.input_new,
        samples.output_old,
        start,
        start,
    );
    lemma_block_runs(program.declarations, program.statements@, samples, start);
}

} // verus!
