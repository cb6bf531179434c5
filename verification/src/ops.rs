//! Operator tags shared by the abstract syntax tree, the bytecode encoding
//! and the error reports.

use vstd::prelude::*;

verus! {

/// Binary operators the expression grammar produces.
#[derive(Debug, Clone, Copy, PartialEq, Eq, Structural)]
pub enum Binary {
    Add,
    Subtract,
    Multiply,
    Divide,
    Modulo,
}

/// Unary operators the expression grammar produces.
#[derive(Debug, Clone, Copy, PartialEq, Eq, Structural)]
pub enum Unary {
    Not,
    Negate,
}

impl Binary {
    /// Byte tag used when the operator stands as an instruction operand.
    pub fn to_byte(self) -> (r: u8)
        ensures
            r == binary_byte(self),
    {
        match self {
            Binary::Add => 0,
            Binary::Subtract => 1,
            Binary::Multiply => 2,
            Binary::Divide => 3,
            Binary::Modulo => 4,
        }
    }

    /// Decodes an operator byte; bytes outside the tag range are refused.
    pub fn try_from_byte(byte: u8) -> (r: Option<Binary>)
        ensures
            r == binary_from_byte(byte),
    {
        match byte {
            0 => Some(Binary::Add),
            1 => Some(Binary::Subtract),
            2 => Some(Binary::Multiply),
            3 => Some(Binary::Divide),
            4 => Some(Binary::Modulo),
            _ => None,
        }
    }
}

/// Byte tag of a binary operator.
pub open spec fn binary_byte(op: Binary) -> u8 {
    match op {
        Binary::Add => 0,
        Binary::Subtract => 1,
        Binary::Multiply => 2,
        Binary::Divide => 3,
        Binary::Modulo => 4,
    }
}

/// Decoding of a binary operator byte.
pub open spec fn binary_from_byte(byte: u8) -> Option<Binary> {
    if byte == 0 {
        Some(Binary::Add)
    } else if byte == 1 {
        Some(Binary::Subtract)
    } else if byte == 2 {
        Some(Binary::Multiply)
    } else if byte == 3 {
        Some(Binary::Divide)
    } else if byte == 4 {
        Some(Binary::Modulo)
    } else {
        None
    }
}

impl Unary {
    /// Byte tag used when the operator stands as an instruction operand.
    pub fn to_byte(self) -> (r: u8)
        ensures
            r == unary_byte(self),
    {
        match self {
            Unary::Not => 0,
            Unary::Negate => 1,
        }
    }

    /// Decodes an operator byte; bytes outside the tag range are refused.
    pub fn try_from_byte(byte: u8) -> (r: Option<Unary>)
        ensures
            r == unary_from_byte(byte),
    {
        match byte {
            0 => Some(Unary::Not),
            1 => Some(Unary::Negate),
            _ => None,
        }
    }
}

/// Byte tag of a unary operator.
pub open spec fn unary_byte(op: Unary) -> u8 {
    match op {
        Unary::Not => 0,
        Unary::Negate => 1,
    }
}

/// Decoding of a unary operator byte.
pub open spec fn unary_from_byte(byte: u8) -> Option<Unary> {
    if byte == 0 {
        Some(Unary::Not)
    } else if byte == 1 {
        Some(Unary::Negate)
    } else {
        None
    }
}

/// Every binary operator byte round-trips through the decoder.
pub proof fn lemma_binary_byte_round_trip(op: Binary)
    ensures
        binary_from_byte(binary_byte(op)) == Some(op),
{
}

/// Every unary operator byte round-trips through the decoder.
pub proof fn lemma_unary_byte_round_trip(op: Unary)
    ensures
        unary_from_byte(unary_byte(op)) == Some(op),
{
}

} // verus!
