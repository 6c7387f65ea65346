//! Small enumerations shared by the syntax tree and the bytecode.

use vstd::prelude::*;

verus! {

/// A transition of an input between two samples.
#[derive(Copy, Clone, Debug, PartialEq, Eq, Structural)]
pub enum Edge {
    Rising,
    Falling,
}

/// Selects the previous (`Was`) or the current (`Is`) sample of a pin.
#[derive(Copy, Clone, Debug, PartialEq, Eq, Structural)]
pub enum IsWas {
    Was,
    Is,
}

/// The level of a pin.
#[derive(Copy, Clone, Debug, PartialEq, Eq, Structural)]
pub enum Value {
    Low,
    High,
}

/// A two-valued type that is packed into one flag bit of an instruction.
pub trait AsBit: Sized {
    /// The flag bit that stands for `self`.
    spec fn bit(&self) -> bool;

    /// The value that a flag bit stands for.
    spec fn of_bit(b: bool) -> Self;

    /// Every value is recovered from its flag bit.
    proof fn lemma_bit_round_trip(&self)
        ensures
            Self::of_bit(self.bit()) == *self,
    ;

    fn as_bit(&self) -> (b: bool)
        ensures
            b == self.bit(),
    ;

    fn from_bit(b: bool) -> (r: Self)
        ensures
            r == Self::of_bit(b),
            r.bit() == b,
    ;
}

impl AsBit for Edge {
    open spec fn bit(&self) -> bool {
        *self == Edge::Rising
    }

    open spec fn of_bit(b: bool) -> Self {
        if b {
            Edge::Rising
        } else {
            Edge::Falling
        }
    }

    proof fn lemma_bit_round_trip(&self) {
    }

    fn as_bit(&self) -> (b: bool) {
        match self {
            Edge::Falling => false,
            Edge::Rising => true,
        }
    }

    fn from_bit(b: bool) -> (r: Self) {
        if b {
            Edge::Rising
        } else {
            Edge::Falling
        }
    }
}

impl AsBit for Value {
    open spec fn bit(&self) -> bool {
        *self == Value::High
    }

    open spec fn of_bit(b: bool) -> Self {
        if b {
            Value::High
        } else {
            Value::Low
        }
    }

    proof fn lemma_bit_round_trip(&self) {
    }

    fn as_bit(&self) -> (b: bool) {
        match self {
            Value::Low => false,
            Value::High => true,
        }
    }

    fn from_bit(b: bool) -> (r: Self) {
        if b {
            Value::High
        } else {
            Value::Low
        }
    }
}

impl AsBit for IsWas {
    open spec fn bit(&self) -> bool {
        *self == IsWas::Is
    }

    open spec fn of_bit(b: bool) -> Self {
        if b {
            IsWas::Is
        } else {
            IsWas::Was
        }
    }

    proof fn lemma_bit_round_trip(&self) {
    }

    fn as_bit(&self) -> (b: bool) {
        match self {
            IsWas::Was => false,
            IsWas::Is => true,
        }
    }

    fn from_bit(b: bool) -> (r: Self) {
        if b {
            IsWas::Is
        } else {
            IsWas::Was
        }
    }
}

} // verus!
