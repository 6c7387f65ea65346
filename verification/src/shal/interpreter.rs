//! A simulator of the controller: it runs a compiled program on sampled
//! inputs and outputs and yields the outputs that the program asks for.
//!
//! The machine has no jumps. Every instruction up to the first `End` runs;
//! `Toggle` and `SetOutput` change the outputs only while every value on the
//! stack of conditions is true.

use crate::shal::bytecode::{
    depth_after, lemma_max_depth_monotone, lemma_take_step, max_depth, stack_need, stack_safe,
    InOut, Instruction, Program,
};
use crate::shal::ast::PinID;
use crate::shal::common::{AsBit, Edge, IsWas, Value};
use vstd::prelude::*;
use vstd::std_specs::convert::FromSpecImpl;

verus! {

/// The number of bits of a bit set, and of values that the stack can hold.
pub const CAPACITY: u8 = 32;

/// Tells whether bit `bit` of `set` is one.
pub open spec fn bit_is_set(set: u32, bit: u8) -> bool {
    set & (1u32 << bit) != 0
}

/// `set` with bit `bit` made one or zero.
pub open spec fn with_bit(set: u32, bit: u8, value: bool) -> u32 {
    if value {
        set | (1u32 << bit)
    } else {
        set & !(1u32 << bit)
    }
}

/// Writing a bit makes it what was written and leaves the others.
pub proof fn lemma_with_bit(set: u32, bit: u8, value: bool, other: u8)
    requires
        bit < 32,
        other < 32,
    ensures
        bit_is_set(with_bit(set, bit, value), bit) == value,
        other != bit ==> bit_is_set(with_bit(set, bit, value), other) == bit_is_set(set, other),
{
    assert((set | (1u32 << bit)) & (1u32 << bit) != 0) by (bit_vector)
        requires
            bit < 32,
    ;
    assert((set & !(1u32 << bit)) & (1u32 << bit) == 0) by (bit_vector)
        requires
            bit < 32,
    ;
    assert(other != bit ==> (((set | (1u32 << bit)) & (1u32 << other) != 0) == (set & (1u32
        << other) != 0))) by (bit_vector)
        requires
            bit < 32,
            other < 32,
    ;
    assert(other != bit ==> (((set & !(1u32 << bit)) & (1u32 << other) != 0) == (set & (1u32
        << other) != 0))) by (bit_vector)
        requires
            bit < 32,
            other < 32,
    ;
}

/// The lowest `count` bits.
pub open spec fn low_mask(count: u8) -> u32 {
    if count == 0 {
        0
    } else {
        0xffff_ffffu32 >> ((32 - count) as u32)
    }
}

/// The lowest `count` bits of `set` are all one exactly if `set` holds the
/// whole mask of them.
pub proof fn lemma_low_mask(set: u32, count: u8)
    requires
        count <= 32,
    ensures
        (set & low_mask(count) == low_mask(count)) <==> (forall|i: u8|
            i < count ==> #[trigger] bit_is_set(set, i)),
    decreases count,
{
    if count == 0 {
        assert(set & 0 == 0) by (bit_vector);
    } else {
        let less = (count - 1) as u8;
        lemma_low_mask(set, less);
        let m = low_mask(less);
        let b = 1u32 << less;
        assert(low_mask(count) == m | b) by {
            if less == 0 {
                assert(0xffff_ffffu32 >> 31u32 == 0u32 | (1u32 << 0u8)) by (bit_vector);
            } else {
                assert(0xffff_ffffu32 >> ((32 - count) as u32) == (0xffff_ffffu32 >> ((32
                    - less) as u32)) | (1u32 << less)) by (bit_vector)
                    requires
                        0 < less < 32,
                        count == less + 1,
                ;
            }
        }
        assert((set & (m | b) == (m | b)) == ((set & m == m) && (set & b == b))) by (bit_vector);
        assert((set & b == b) == (set & b != 0)) by (bit_vector)
            requires
                b == 1u32 << less,
                less < 32,
        ;
        if set & low_mask(count) == low_mask(count) {
            assert forall|i: u8| i < count implies #[trigger] bit_is_set(set, i) by {
                if i == less {
                } else {
                    assert(i < less);
                }
            }
        }
        if forall|i: u8| i < count ==> #[trigger] bit_is_set(set, i) {
            assert(bit_is_set(set, less));
            assert forall|i: u8| i < less implies #[trigger] bit_is_set(set, i) by {
                assert(i < count);
            }
        }
    }
}

/// A set of thirty-two bits.
#[derive(Copy, Clone, Debug, PartialEq, Eq, Structural)]
pub struct FixedBitSet {
    set: u32,
}

/// A bit was asked for that the set does not have.
#[derive(Copy, Clone, Debug, PartialEq, Eq, Structural)]
pub enum BitSetError {
    OutOfBounds,
}

impl View for FixedBitSet {
    type V = u32;

    closed spec fn view(&self) -> u32 {
        self.set
    }
}

impl FixedBitSet {
    /// The set with no bit.
    pub fn new() -> (r: Self)
        ensures
            r@ == 0,
    {
        FixedBitSet { set: 0 }
    }

    /// The set whose bits are those of `value`.
    pub fn from_value(value: u32) -> (r: Self)
        ensures
            r@ == value,
    {
        FixedBitSet { set: value }
    }

    /// Makes bit `bit` one or zero; a bit from 32 on is refused and leaves
    /// the set as it was.
    pub fn set(&mut self, bit: u8, value: bool) -> (r: Result<(), BitSetError>)
        ensures
            bit < CAPACITY ==> r is Ok && final(self)@ == with_bit(old(self)@, bit, value),
            bit >= CAPACITY ==> r == Err::<(), BitSetError>(BitSetError::OutOfBounds),
            bit >= CAPACITY ==> final(self)@ == old(self)@,
    {
        if bit >= 32 {
            Err(BitSetError::OutOfBounds)
        } else if value {
            self.set |= 1u32 << bit;
            Ok(())
        } else {
            self.set &= !(1u32 << bit);
            Ok(())
        }
    }

    /// Tells whether bit `bit` is one; a bit from 32 on is refused.
    pub fn get(&self, bit: u8) -> (r: Result<bool, BitSetError>)
        ensures
            bit < CAPACITY ==> r == Ok::<bool, BitSetError>(bit_is_set(self@, bit)),
            bit >= CAPACITY ==> r == Err::<bool, BitSetError>(BitSetError::OutOfBounds),
    {
        if bit >= 32 {
            Err(BitSetError::OutOfBounds)
        } else {
            Ok(self.set & (1u32 << bit) != 0)
        }
    }

    /// Makes every bit zero.
    pub fn clear(&mut self)
        ensures
            final(self)@ == 0,
    {
        self.set = 0;
    }

    /// The bits as a number.
    pub fn value(&self) -> (r: u32)
        ensures
            r == self@,
    {
        self.set
    }
}

impl From<u32> for FixedBitSet {
    /// The set whose bits are those of `value`.
    fn from(value: u32) -> (r: Self)
        ensures
            r@ == value,
    {
        FixedBitSet { set: value }
    }
}

impl FromSpecImpl<u32> for FixedBitSet {
    open spec fn obeys_from_spec() -> bool {
        true
    }

    closed spec fn from_spec(value: u32) -> Self {
        FixedBitSet { set: value }
    }
}

impl From<FixedBitSet> for u32 {
    /// The bits as a number.
    fn from(bitset: FixedBitSet) -> (r: u32)
        ensures
            r == bitset@,
    {
        bitset.value()
    }
}

impl FromSpecImpl<FixedBitSet> for u32 {
    open spec fn obeys_from_spec() -> bool {
        true
    }

    open spec fn from_spec(bitset: FixedBitSet) -> u32 {
        bitset@
    }
}

/// A stack of at most thirty-two truth values, kept in the bits of a word.
#[derive(Copy, Clone, Debug, PartialEq, Eq, Structural)]
pub struct BitStack {
    stack: u32,
    stack_depth: u8,
}

/// The stack was asked to hold more than it can, or to give what it has not.
#[derive(Copy, Clone, Debug, PartialEq, Eq, Structural)]
pub enum StackError {
    StackOverflow,
    StackUnderflow,
}

impl View for BitStack {
    type V = Seq<bool>;

    /// The values from the oldest to the newest.
    closed spec fn view(&self) -> Seq<bool> {
        Seq::new(self.stack_depth as nat, |i: int| value_at(self.stack, i))
    }
}

/// The value that a stack kept in `bits` holds at `index`.
pub open spec fn value_at(bits: u32, index: int) -> bool {
    bit_is_set(bits, index as u8)
}

/// Every value of a stack is true.
pub open spec fn all_true(stack: Seq<bool>) -> bool {
    forall|i: int| 0 <= i < stack.len() ==> #[trigger] stack[i]
}

impl BitStack {
    #[verifier::type_invariant]
    pub closed spec fn wf(self) -> bool {
        self.stack_depth <= CAPACITY
    }

    /// The empty stack.
    pub fn new() -> (r: Self)
        ensures
            r@.len() == 0,
    {
        BitStack { stack: 0, stack_depth: 0 }
    }

    /// The number of values on the stack.
    pub fn depth(&self) -> (r: u8)
        ensures
            r == self@.len(),
            r <= CAPACITY,
    {
        proof {
            use_type_invariant(self);
        }
        self.stack_depth
    }

    /// Puts a value on the stack; a full stack refuses it and stays as it
    /// was.
    pub fn push(&mut self, value: bool) -> (r: Result<(), StackError>)
        ensures
            old(self)@.len() < CAPACITY ==> r is Ok && final(self)@ == old(self)@.push(value),
            old(self)@.len() >= CAPACITY ==> r == Err::<(), StackError>(
                StackError::StackOverflow,
            ),
            old(self)@.len() >= CAPACITY ==> final(self)@ == old(self)@,
    {
        proof {
            use_type_invariant(&*self);
        }
        if self.stack_depth >= 32 {
            Err(StackError::StackOverflow)
        } else {
            let depth = self.stack_depth;
            let bits = if value {
                self.stack | (1u32 << depth)
            } else {
                self.stack & !(1u32 << depth)
            };
            proof {
                assert(bits == with_bit(self.stack, depth, value));
                assert forall|i: int| 0 <= i < depth implies #[trigger] value_at(bits, i)
                    == value_at(self.stack, i) by {
                    lemma_with_bit(self.stack, depth, value, i as u8);
                }
                lemma_with_bit(self.stack, depth, value, depth);
            }
            let ghost before = self@;
            *self = BitStack { stack: bits, stack_depth: depth + 1 };
            assert(self@ =~= before.push(value));
            Ok(())
        }
    }

    /// Takes the newest value from the stack; an empty stack has none.
    pub fn pop(&mut self) -> (r: Result<bool, StackError>)
        ensures
            old(self)@.len() > 0 ==> r == Ok::<bool, StackError>(old(self)@.last()) && final(self)@
                == old(self)@.drop_last(),
            old(self)@.len() == 0 ==> r == Err::<bool, StackError>(StackError::StackUnderflow),
            old(self)@.len() == 0 ==> final(self)@ == old(self)@,
            old(self)@.len() <= CAPACITY,
    {
        proof {
            use_type_invariant(&*self);
        }
        match self.peek() {
            None => Err(StackError::StackUnderflow),
            Some(top) => {
                let ghost before = self@;
                *self = BitStack { stack: self.stack, stack_depth: self.stack_depth - 1 };
                assert(self@ =~= before.drop_last());
                Ok(top)
            },
        }
    }

    /// The newest value on the stack, if there is one.
    pub fn peek(&self) -> (r: Option<bool>)
        ensures
            self@.len() > 0 ==> r == Some(self@.last()),
            self@.len() == 0 ==> r is None,
    {
        proof {
            use_type_invariant(self);
        }
        if self.stack_depth == 0 {
            None
        } else {
            Some(self.stack & (1u32 << (self.stack_depth - 1)) != 0)
        }
    }

    /// Tells whether every value on the stack is true. Of an empty stack
    /// that holds.
    pub fn all_one(&self) -> (r: bool)
        ensures
            r == all_true(self@),
    {
        proof {
            use_type_invariant(self);
            lemma_low_mask(self.stack, self.stack_depth);
            if forall|i: u8| i < self.stack_depth ==> #[trigger] bit_is_set(self.stack, i) {
                assert forall|i: int| 0 <= i < self@.len() implies #[trigger] self@[i] by {
                    assert(bit_is_set(self.stack, i as u8));
                }
            }
            if all_true(self@) {
                assert forall|i: u8| i < self.stack_depth implies #[trigger] bit_is_set(
                    self.stack,
                    i,
                ) by {
                    assert(self@[i as int]);
                }
            }
        }
        if self.stack_depth == 0 {
            return true;
        }
        let mask = 0xffff_ffffu32 >> ((32 - self.stack_depth) as u32);
        self.stack & mask == mask
    }
}

/// The state of the machine between two instructions.
pub struct Machine {
    /// The outputs as the program has made them so far.
    pub output: u32,
    /// The values of the open conditions, the innermost last.
    pub stack: Seq<bool>,
}

/// The value that a condition instruction puts on the stack: whether the pin
/// has the given level in the chosen sample. `Was` of an input is its old
/// sample, `Is` its new one; `Was` of an output is what it was before the
/// program ran, `Is` what the program has made it so far.
pub open spec fn condition_holds(
    number: u8,
    is_was: IsWas,
    value: Value,
    in_out: InOut,
    input_old: u32,
    input_new: u32,
    output_old: u32,
    output_new: u32,
) -> bool {
    let sample = match (is_was, in_out) {
        (IsWas::Was, InOut::Input) => input_old,
        (IsWas::Is, InOut::Input) => input_new,
        (IsWas::Was, InOut::Output) => output_old,
        (IsWas::Is, InOut::Output) => output_new,
    };
    bit_is_set(sample, number) == value.bit()
}

/// The value that an event instruction puts on the stack: whether the input
/// went from low to high, for a rising edge, or from high to low, for a
/// falling one.
pub open spec fn edge_seen(input: u8, edge: Edge, input_old: u32, input_new: u32) -> bool {
    match edge {
        Edge::Rising => !bit_is_set(input_old, input) && bit_is_set(input_new, input),
        Edge::Falling => bit_is_set(input_old, input) && !bit_is_set(input_new, input),
    }
}

/// What one instruction other than `End` makes of the machine's state, or
/// the stack error that it meets.
pub open spec fn step(
    instruction: Instruction,
    input_old: u32,
    input_new: u32,
    output_old: u32,
    state: Machine,
) -> Result<Machine, StackError> {
    let stack = state.stack;
    let n = stack.len() as int;
    match instruction {
        Instruction::End => Ok(state),
        Instruction::Not => if n < 1 {
            Err(StackError::StackUnderflow)
        } else {
            Ok(Machine { output: state.output, stack: stack.drop_last().push(!stack[n - 1]) })
        },
        Instruction::And => if n < 2 {
            Err(StackError::StackUnderflow)
        } else {
            Ok(
                Machine {
                    output: state.output,
                    stack: stack.take(n - 2).push(stack[n - 1] && stack[n - 2]),
                },
            )
        },
        Instruction::Or => if n < 2 {
            Err(StackError::StackUnderflow)
        } else {
            Ok(
                Machine {
                    output: state.output,
                    stack: stack.take(n - 2).push(stack[n - 1] || stack[n - 2]),
                },
            )
        },
        Instruction::Xor => if n < 2 {
            Err(StackError::StackUnderflow)
        } else {
            Ok(
                Machine {
                    output: state.output,
                    stack: stack.take(n - 2).push(stack[n - 1] != stack[n - 2]),
                },
            )
        },
        Instruction::Pop => if n < 1 {
            Err(StackError::StackUnderflow)
        } else {
            Ok(Machine { output: state.output, stack: stack.drop_last() })
        },
        Instruction::If { number, is_was, value, in_out } => if n >= CAPACITY {
            Err(StackError::StackOverflow)
        } else {
            Ok(
                Machine {
                    output: state.output,
                    stack: stack.push(
                        condition_holds(
                            number@,
                            is_was,
                            value,
                            in_out,
                            input_old,
                            input_new,
                            output_old,
                            state.output,
                        ),
                    ),
                },
            )
        },
        Instruction::On { input, edge } => if n >= CAPACITY {
            Err(StackError::StackOverflow)
        } else {
            Ok(
                Machine {
                    output: state.output,
                    stack: stack.push(edge_seen(input@, edge, input_old, input_new)),
                },
            )
        },
        Instruction::Toggle { output } => if all_true(stack) {
            Ok(
                Machine {
                    output: with_bit(state.output, output@, !bit_is_set(state.output, output@)),
                    stack,
                },
            )
        } else {
            Ok(state)
        },
        Instruction::SetOutput { output, value } => if all_true(stack) {
            Ok(Machine { output: with_bit(state.output, output@, value.bit()), stack })
        } else {
            Ok(state)
        },
    }
}

/// The outputs that the machine ends with when it runs `code` from the
/// instruction at `pc` in the state `state`: it runs one instruction after
/// the other and stops at the first `End`, at the end of the code, or at a
/// stack error.
pub open spec fn run_from(
    code: Seq<Instruction>,
    pc: int,
    input_old: u32,
    input_new: u32,
    output_old: u32,
    state: Machine,
) -> Result<u32, StackError>
    decreases code.len() - pc,
{
    if pc < 0 || pc >= code.len() || code[pc] == Instruction::End {
        Ok(state.output)
    } else {
        match step(code[pc], input_old, input_new, output_old, state) {
            Err(e) => Err(e),
            Ok(next) => run_from(code, pc + 1, input_old, input_new, output_old, next),
        }
    }
}

/// The outputs that a program asks for, given the old and the new sample of
/// the inputs and the outputs as they were; or the stack error that it
/// meets. The outputs start as they were, and the stack empty.
pub open spec fn run(code: Seq<Instruction>, input_old: u32, input_new: u32, output_old: u32)
    -> Result<u32, StackError> {
    run_from(
        code,
        0,
        input_old,
        input_new,
        output_old,
        Machine { output: output_old, stack: Seq::empty() },
    )
}

/// What a sequence of instructions without `End` makes of the machine's
/// state: each instruction in turn does its step, up to the first stack
/// error.
pub open spec fn run_segment(
    code: Seq<Instruction>,
    input_old: u32,
    input_new: u32,
    output_old: u32,
    state: Machine,
) -> Result<Machine, StackError>
    decreases code.len(),
{
    if code.len() == 0 {
        Ok(state)
    } else {
        match run_segment(code.drop_last(), input_old, input_new, output_old, state) {
            Err(e) => Err(e),
            Ok(before) => step(code.last(), input_old, input_new, output_old, before),
        }
    }
}

/// Instructions run one after the other: the second sequence starts where
/// the first ends.
pub proof fn lemma_run_segment_join(
    first: Seq<Instruction>,
    second: Seq<Instruction>,
    input_old: u32,
    input_new: u32,
    output_old: u32,
    state: Machine,
)
    ensures
        run_segment(first + second, input_old, input_new, output_old, state) == match run_segment(
            first,
            input_old,
            input_new,
            output_old,
            state,
        ) {
            Err(e) => Err(e),
            Ok(between) => run_segment(second, input_old, input_new, output_old, between),
        },
    decreases second.len(),
{
    if second.len() == 0 {
        assert(first + second =~= first);
    } else {
        assert((first + second).drop_last() =~= first + second.drop_last());
        assert((first + second).last() == second.last());
        lemma_run_segment_join(
            first,
            second.drop_last(),
            input_old,
            input_new,
            output_old,
            state,
        );
    }
}

/// One instruction run alone does its step.
pub proof fn lemma_run_segment_one(
    instruction: Instruction,
    input_old: u32,
    input_new: u32,
    output_old: u32,
    state: Machine,
)
    ensures
        run_segment(seq![instruction], input_old, input_new, output_old, state) == step(
            instruction,
            input_old,
            input_new,
            output_old,
            state,
        ),
{
    let code = seq![instruction];
    assert(code.drop_last() =~= Seq::<Instruction>::empty());
    assert(run_segment(code.drop_last(), input_old, input_new, output_old, state) == Ok::<
        Machine,
        StackError,
    >(state));
}

/// A stack error in a part of a sequence is the error of the whole.
pub proof fn lemma_run_segment_failure(
    code: Seq<Instruction>,
    index: int,
    input_old: u32,
    input_new: u32,
    output_old: u32,
    state: Machine,
)
    requires
        0 <= index <= code.len(),
    ensures
        run_segment(code.take(index), input_old, input_new, output_old, state) matches Err(e)
            ==> run_segment(code, input_old, input_new, output_old, state) == Err::<
            Machine,
            StackError,
        >(e),
    decreases code.len(),
{
    if index == code.len() {
        assert(code.take(index) =~= code);
    } else {
        assert(code.drop_last().take(index) =~= code.take(index));
        lemma_run_segment_failure(
            code.drop_last(),
            index,
            input_old,
            input_new,
            output_old,
            state,
        );
    }
}

/// A program that is instructions without `End` and a final `End` yields
/// the outputs that the instructions end with.
pub proof fn lemma_run_is_segment(
    body: Seq<Instruction>,
    pc: int,
    input_old: u32,
    input_new: u32,
    output_old: u32,
    start: Machine,
    state: Machine,
)
    requires
        0 <= pc <= body.len(),
        crate::shal::bytecode::free_of_end(body),
        run_segment(body.take(pc), input_old, input_new, output_old, start) == Ok::<
            Machine,
            StackError,
        >(state),
    ensures
        run_from(body.push(Instruction::End), pc, input_old, input_new, output_old, state)
            == match run_segment(body, input_old, input_new, output_old, start) {
            Ok(end) => Ok::<u32, StackError>(end.output),
            Err(e) => Err(e),
        },
    decreases body.len() - pc,
{
    let code = body.push(Instruction::End);
    if pc == body.len() {
        assert(body.take(pc) =~= body);
        assert(code[pc] == Instruction::End);
    } else {
        assert(code[pc] == body[pc]);
        assert(body.take(pc + 1).drop_last() =~= body.take(pc));
        assert(body.take(pc + 1).last() == body[pc]);
        match step(body[pc], input_old, input_new, output_old, state) {
            Ok(next) => {
                lemma_run_is_segment(body, pc + 1, input_old, input_new, output_old, start, next);
            },
            Err(e) => {
                lemma_run_segment_failure(body, pc + 1, input_old, input_new, output_old, start);
            },
        }
    }
}

/// Every value of a stack with one value more is true if every value of
/// the stack is, and the new value too.
pub proof fn lemma_all_true_push(stack: Seq<bool>, value: bool)
    ensures
        all_true(stack.push(value)) == (all_true(stack) && value),
{
    if all_true(stack.push(value)) {
        assert(stack.push(value)[stack.len() as int]);
        assert forall|i: int| 0 <= i < stack.len() implies #[trigger] stack[i] by {
            assert(stack.push(value)[i]);
        }
    }
}

/// A part of a program that is safe on a stack is safe on it too.
pub proof fn lemma_stack_safe_prefix(code: Seq<Instruction>, index: int, depth: int)
    requires
        0 <= index <= code.len(),
        stack_safe(code, depth),
    ensures
        stack_safe(code.take(index), depth),
    decreases code.len(),
{
    if index == code.len() {
        assert(code.take(index) =~= code);
    } else {
        lemma_stack_safe_prefix(code.drop_last(), index, depth);
        assert(code.drop_last().take(index) =~= code.take(index));
    }
}

/// A program that never takes more than the stack holds, and never needs
/// more than the stack can hold, runs from any of its instructions without
/// a stack error, if the stack holds what the instructions before left.
pub proof fn lemma_run_from_safe(
    code: Seq<Instruction>,
    pc: int,
    input_old: u32,
    input_new: u32,
    output_old: u32,
    state: Machine,
)
    requires
        0 <= pc <= code.len(),
        stack_safe(code, 0),
        max_depth(code) <= CAPACITY,
        state.stack.len() == depth_after(code.take(pc)),
    ensures
        run_from(code, pc, input_old, input_new, output_old, state) is Ok,
    decreases code.len() - pc,
{
    if pc < code.len() && code[pc] != Instruction::End {
        lemma_take_step(code, pc);
        lemma_stack_safe_prefix(code, pc + 1, 0);
        lemma_max_depth_monotone(code, pc + 1);
        let part = code.take(pc + 1);
        assert(stack_safe(part, 0));
        assert(depth_after(part.drop_last()) >= stack_need(part.last()));
        assert(depth_after(part) <= max_depth(part));
        let next = step(code[pc], input_old, input_new, output_old, state)->Ok_0;
        assert(next.stack.len() == depth_after(part));
        lemma_run_from_safe(code, pc + 1, input_old, input_new, output_old, next);
    }
}

/// A program that never takes more than the stack holds, and never needs
/// more than the stack can hold, runs without a stack error on every input.
pub proof fn lemma_safe_program_runs(
    code: Seq<Instruction>,
    input_old: u32,
    input_new: u32,
    output_old: u32,
)
    requires
        stack_safe(code, 0),
        max_depth(code) <= CAPACITY,
    ensures
        run(code, input_old, input_new, output_old) is Ok,
{
    assert(code.take(0) =~= Seq::<Instruction>::empty());
    lemma_run_from_safe(
        code,
        0,
        input_old,
        input_new,
        output_old,
        Machine { output: output_old, stack: Seq::empty() },
    );
}

/// The stack error, if any, that a program meets when it runs from the
/// instruction at `pc` with `depth` values on the stack. It is found from
/// the instructions alone: every instruction takes and leaves as many
/// values whatever the values are.
pub open spec fn stack_outcome(code: Seq<Instruction>, pc: int, depth: int) -> Result<
    (),
    StackError,
>
    decreases code.len() - pc,
{
    if pc < 0 || pc >= code.len() || code[pc] == Instruction::End {
        Ok(())
    } else if depth < stack_need(code[pc]) {
        Err(StackError::StackUnderflow)
    } else if (code[pc] is If || code[pc] is On) && depth >= CAPACITY {
        Err(StackError::StackOverflow)
    } else {
        stack_outcome(code, pc + 1, depth + crate::shal::bytecode::stack_effect(code[pc]))
    }
}

/// Whether a program meets a stack error, and which, does not depend on the
/// inputs and outputs.
pub proof fn lemma_stack_outcome(
    code: Seq<Instruction>,
    pc: int,
    input_old: u32,
    input_new: u32,
    output_old: u32,
    state: Machine,
)
    requires
        0 <= pc,
    ensures
        match stack_outcome(code, pc, state.stack.len() as int) {
            Ok(()) => run_from(code, pc, input_old, input_new, output_old, state) is Ok,
            Err(e) => run_from(code, pc, input_old, input_new, output_old, state) == Err::<
                u32,
                StackError,
            >(e),
        },
    decreases code.len() - pc,
{
    if pc < code.len() && code[pc] != Instruction::End {
        if let Ok(next) = step(code[pc], input_old, input_new, output_old, state) {
            lemma_stack_outcome(code, pc + 1, input_old, input_new, output_old, next);
        }
    }
}

/// Tells whether a program meets a stack error when it runs, and which;
/// that is the same for all inputs and outputs.
pub fn check_stack_discipline(program: &Program) -> (r: Result<(), StackError>)
    ensures
        r == stack_outcome(program.instructions@, 0, 0),
        forall|input_old: u32, input_new: u32, output_old: u32|
            match r {
                Ok(()) => #[trigger] run(program.instructions@, input_old, input_new, output_old)
                    is Ok,
                Err(e) => run(program.instructions@, input_old, input_new, output_old) == Err::<
                    u32,
                    StackError,
                >(e),
            },
{
    let n = program.instructions.len();
    let ghost code = program.instructions@;
    let mut depth: u8 = 0;
    let mut pc: usize = 0;
    let mut result: Result<(), StackError> = Ok(());
    loop
        invariant_except_break
            pc <= n,
            n == code.len(),
            code == program.instructions@,
            depth <= CAPACITY,
            result == Ok::<(), StackError>(()),
            stack_outcome(code, 0, 0) == stack_outcome(code, pc as int, depth as int),
        ensures
            result == stack_outcome(code, 0, 0),
        decreases n - pc,
    {
        if pc >= n {
            assert(stack_outcome(code, pc as int, depth as int) == Ok::<(), StackError>(()));
            break ;
        }
        match program.instructions[pc] {
            Instruction::End => {
                assert(stack_outcome(code, pc as int, depth as int) == Ok::<(), StackError>(()));
                break ;
            },
            Instruction::Not => {
                if depth < 1 {
                    result = Err(StackError::StackUnderflow);
                    break ;
                }
            },
            Instruction::Pop => {
                if depth < 1 {
                    result = Err(StackError::StackUnderflow);
                    break ;
                }
                depth -= 1;
            },
            Instruction::And | Instruction::Or | Instruction::Xor => {
                if depth < 2 {
                    result = Err(StackError::StackUnderflow);
                    break ;
                }
                depth -= 1;
            },
            Instruction::If { .. } | Instruction::On { .. } => {
                if depth >= CAPACITY {
                    result = Err(StackError::StackOverflow);
                    break ;
                }
                depth += 1;
            },
            Instruction::Toggle { .. } | Instruction::SetOutput { .. } => {},
        }
        pc += 1;
    }
    proof {
        assert forall|input_old: u32, input_new: u32, output_old: u32|
            match result {
                Ok(()) => #[trigger] run(code, input_old, input_new, output_old) is Ok,
                Err(e) => run(code, input_old, input_new, output_old) == Err::<u32, StackError>(
                    e,
                ),
            } by {
            lemma_stack_outcome(
                code,
                0,
                input_old,
                input_new,
                output_old,
                Machine { output: output_old, stack: Seq::empty() },
            );
        }
    }
    result
}

/// Tells whether the bit of a pin is one.
fn read_pin(set: &FixedBitSet, pin: PinID) -> (r: bool)
    ensures
        r == bit_is_set(set@, pin@),
{
    match set.get(pin.get()) {
        Ok(b) => b,
        Err(_) => false,
    }
}

/// Makes the bit of a pin one or zero.
fn write_pin(set: &mut FixedBitSet, pin: PinID, value: bool)
    ensures
        final(set)@ == with_bit(old(set)@, pin@, value),
{
    let _ = set.set(pin.get(), value);
}

/// Runs a program on the old and the new sample of the inputs and on the
/// outputs as they were, and yields the outputs that it asks for, or the
/// stack error that it meets.
pub fn try_run_program(
    program: &Program,
    input_old: &FixedBitSet,
    input_new: &FixedBitSet,
    output_old: &FixedBitSet,
) -> (r: Result<FixedBitSet, StackError>)
    ensures
        match run(program.instructions@, input_old@, input_new@, output_old@) {
            Ok(output) => r matches Ok(set) && set@ == output,
            Err(e) => r == Err::<FixedBitSet, StackError>(e),
        },
{
    let mut output_new = *output_old;
    let mut stack = BitStack::new();
    let n = program.instructions.len();
    let mut pc: usize = 0;
    let ghost code = program.instructions@;
    assert(stack@ =~= Seq::<bool>::empty());
    while pc < n
        invariant
            pc <= n,
            n == code.len(),
            code == program.instructions@,
            run(code, input_old@, input_new@, output_old@) == run_from(
                code,
                pc as int,
                input_old@,
                input_new@,
                output_old@,
                Machine { output: output_new@, stack: stack@ },
            ),
        decreases n - pc,
    {
        let ghost state = Machine { output: output_new@, stack: stack@ };
        let ghost depth = stack@.len() as int;
        match program.instructions[pc] {
            Instruction::End => {
                return Ok(output_new);
            },
            Instruction::Not => {
                let b = stack.pop()?;
                stack.push(!b)?;
            },
            Instruction::And => {
                let b1 = stack.pop()?;
                let b2 = stack.pop()?;
                stack.push(b1 && b2)?;
                assert(state.stack.drop_last().drop_last() =~= state.stack.take(depth - 2));
            },
            Instruction::Or => {
                let b1 = stack.pop()?;
                let b2 = stack.pop()?;
                stack.push(b1 || b2)?;
                assert(state.stack.drop_last().drop_last() =~= state.stack.take(depth - 2));
            },
            Instruction::Xor => {
                let b1 = stack.pop()?;
                let b2 = stack.pop()?;
                stack.push(b1 != b2)?;
                assert(state.stack.drop_last().drop_last() =~= state.stack.take(depth - 2));
            },
            Instruction::Pop => {
                let _ = stack.pop()?;
            },
            Instruction::If { number, is_was, value, in_out } => {
                let sample = match (is_was, in_out) {
                    (IsWas::Was, InOut::Input) => read_pin(input_old, number),
                    (IsWas::Is, InOut::Input) => read_pin(input_new, number),
                    (IsWas::Was, InOut::Output) => read_pin(output_old, number),
                    (IsWas::Is, InOut::Output) => read_pin(&output_new, number),
                };
                stack.push(sample == value.as_bit())?;
            },
            Instruction::On { input, edge } => {
                let before = read_pin(input_old, input);
                let now = read_pin(input_new, input);
                let seen = match edge {
                    Edge::Rising => !before && now,
                    Edge::Falling => before && !now,
                };
                stack.push(seen)?;
            },
            Instruction::Toggle { output } => {
                if stack.all_one() {
                    let before = read_pin(&output_new, output);
                    write_pin(&mut output_new, output, !before);
                }
            },
            Instruction::SetOutput { output, value } => {
                if stack.all_one() {
                    write_pin(&mut output_new, output, value.as_bit());
                }
            },
        }
        pc += 1;
    }
    Ok(output_new)
}

/// Runs a program that meets no stack error on the old and the new sample
/// of the inputs and on the outputs as they were, and yields the outputs
/// that it asks for.
pub fn run_program(
    program: &Program,
    input_old: &FixedBitSet,
    input_new: &FixedBitSet,
    output_old: &FixedBitSet,
) -> (r: FixedBitSet)
    requires
        run(program.instructions@, input_old@, input_new@, output_old@) is Ok,
    ensures
        r@ == run(program.instructions@, input_old@, input_new@, output_old@)->Ok_0,
{
    match try_run_program(program, input_old, input_new, output_old) {
        Ok(output) => output,
        Err(_) => *output_old,
    }
}

} // verus!
