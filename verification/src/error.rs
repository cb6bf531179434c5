//! Failure conditions, grouped by origin: scanning and parsing, bytecode
//! decoding and compilation, the variable store, and the execution loop.
//! Every condition is an explicit result; nothing is defaulted silently.

use vstd::prelude::*;

use crate::ops::{Binary, Unary};
use crate::token::TokenType;
use crate::value::ValueKind;

verus! {

/// Errors raised while scanning source text, parsing tokens, or applying a
/// value operator.
#[derive(Debug)]
pub enum ParseError {
    /// A token that no grammar rule accepts at this position, with the
    /// 1-based source line it stood on.
    UnexpectedToken(TokenType, u64),
    /// A specific token kind was required and something else stood there,
    /// on the given source line.
    ExpectedToken(TokenType, u64),
    /// Numeric literal text that does not denote a representable number,
    /// on the given source line.
    InvalidNumericLiteral(String, u64),
    /// A unary operator applied to an operand kind it is not defined on.
    IllegalUnaryOperation(ValueKind, Unary),
    /// A binary operator applied to operand kinds it is not defined on.
    IllegalBinaryOperation(ValueKind, ValueKind, Binary),
    /// Division or remainder with a zero divisor.
    DivisionByZero(Binary),
}

/// Errors raised by the variable store.
#[derive(Debug)]
pub enum MemoryError {
    /// The name already exists in the exact scope the declaration targets.
    AlreadyDeclared(String),
    /// The name is absent from every scope on the lookup chain.
    NoSuchVariable(String),
    /// The name is declared but was never assigned a value.
    UninitializedVariableAccess(String),
    /// An index was applied to a value that is not a list.
    CannotIndex(String),
    /// A read through an index past the end of the list.
    IndexOutOfBounds(String, usize),
}

/// Errors raised while encoding or decoding bytecode.
#[derive(Debug)]
pub enum CompilerError {
    /// An opcode byte that no instruction corresponds to.
    InvalidInstruction(u8),
    /// An operator operand byte that no operator corresponds to.
    InvalidOperator(u8),
    /// The constant pool outgrew the one-byte address space.
    TooManyConstants,
    /// The byte stream ended in the middle of an instruction.
    UnexpectedEnd,
}

/// Errors raised by the execution loop itself.
#[derive(Debug)]
pub enum RuntimeError {
    /// An instruction needed an operand and the stack was empty.
    StackMissingValue,
    /// A constant-pool address past the end of the pool.
    OutOfBoundsMemoryAccess,
    /// A variable-name address whose pool entry is not a string.
    ExpectedName(usize),
    /// An index operand that is not a non-negative number.
    InvalidIndex,
}

/// Umbrella over every failure the pipeline can surface.
#[derive(Debug)]
pub enum UmpteenError {
    Parse(ParseError),
    Memory(MemoryError),
    Compiler(CompilerError),
    Runtime(RuntimeError),
}

} // verus!
