//! The instruction set: a fixed enumeration of opcodes, each with a known
//! operand arity and a byte-exact serialization. An instruction serializes
//! to one opcode byte; its operand bytes follow it in the byte stream.

use vstd::prelude::*;

use crate::error::CompilerError;

verus! {

/// One executable operation. Operand bytes hold constant-pool addresses or
/// operator tags.
#[derive(Debug, Clone, Copy, PartialEq, Eq, Structural)]
pub enum Instr {
    /// Loads the constant at the address operand and pushes it.
    Constant,
    /// Pops one value, renders it, and emits it to the output stream.
    Print,
    /// Pushes the address operand as a deferred constant-pool reference.
    Push,
    /// Writes a popped value to the variable named by the first operand; the
    /// second operand says whether an index is popped as well.
    Assign,
    /// Reads the variable named by the first operand and pushes its value;
    /// the second operand says whether an index is popped first.
    Get,
    /// Pops two values and applies the binary operator in the operand tag.
    BinOp,
    /// Pops one value and applies the unary operator in the operand tag.
    UnOp,
    /// Halts the program.
    Exit,
}

impl Instr {
    /// The number of operand bytes the instruction requires. This is the
    /// number of distinct arguments to read, each one byte wide.
    pub fn arg_count(&self) -> (r: usize)
        ensures
            r == instr_arg_count(*self),
    {
        match self {
            Instr::Constant => 1,
            Instr::Print => 0,
            Instr::Push => 1,
            Instr::Assign => 2,
            Instr::Get => 2,
            Instr::BinOp => 1,
            Instr::UnOp => 1,
            Instr::Exit => 0,
        }
    }

    /// The full encoded width: one opcode byte plus the operand bytes.
    pub fn offset(&self) -> (r: usize)
        ensures
            r == instr_width(*self),
    {
        1 + self.arg_count()
    }

    /// The opcode byte the instruction serializes to.
    pub fn to_byte(self) -> (r: u8)
        ensures
            r == instr_opcode(self),
    {
        match self {
            Instr::Constant => 0,
            Instr::Print => 1,
            Instr::Push => 2,
            Instr::Assign => 3,
            Instr::Get => 4,
            Instr::BinOp => 5,
            Instr::UnOp => 6,
            Instr::Exit => 255,
        }
    }

    /// Decodes one opcode byte; an unknown byte is a decode error naming it.
    pub fn try_from_byte(byte: u8) -> (r: Result<Instr, CompilerError>)
        ensures
            match r {
                Ok(i) => instr_from_byte(byte) == Some(i),
                Err(e) => instr_from_byte(byte) is None && (e matches
                    CompilerError::InvalidInstruction(b) && b == byte),
            },
    {
        match byte {
            0 => Ok(Instr::Constant),
            1 => Ok(Instr::Print),
            2 => Ok(Instr::Push),
            3 => Ok(Instr::Assign),
            4 => Ok(Instr::Get),
            5 => Ok(Instr::BinOp),
            6 => Ok(Instr::UnOp),
            255 => Ok(Instr::Exit),
            x => Err(CompilerError::InvalidInstruction(x)),
        }
    }
}

/// Operand-byte count of an instruction.
pub open spec fn instr_arg_count(i: Instr) -> nat {
    match i {
        Instr::Constant => 1,
        Instr::Print => 0,
        Instr::Push => 1,
        Instr::Assign => 2,
        Instr::Get => 2,
        Instr::BinOp => 1,
        Instr::UnOp => 1,
        Instr::Exit => 0,
    }
}

/// Encoded width of an instruction: opcode byte plus operands.
pub open spec fn instr_width(i: Instr) -> nat {
    1 + instr_arg_count(i)
}

/// Opcode byte of an instruction.
pub open spec fn instr_opcode(i: Instr) -> u8 {
    match i {
        Instr::Constant => 0,
        Instr::Print => 1,
        Instr::Push => 2,
        Instr::Assign => 3,
        Instr::Get => 4,
        Instr::BinOp => 5,
        Instr::UnOp => 6,
        Instr::Exit => 255,
    }
}

/// Decoding of an opcode byte; bytes outside the opcode set decode to
/// nothing.
pub open spec fn instr_from_byte(byte: u8) -> Option<Instr> {
    if byte == 0 {
        Some(Instr::Constant)
    } else if byte == 1 {
        Some(Instr::Print)
    } else if byte == 2 {
        Some(Instr::Push)
    } else if byte == 3 {
        Some(Instr::Assign)
    } else if byte == 4 {
        Some(Instr::Get)
    } else if byte == 5 {
        Some(Instr::BinOp)
    } else if byte == 6 {
        Some(Instr::UnOp)
    } else if byte == 255 {
        Some(Instr::Exit)
    } else {
        None
    }
}

/// Every instruction's opcode byte decodes back to that instruction.
pub proof fn lemma_instr_byte_round_trip(i: Instr)
    ensures
        instr_from_byte(instr_opcode(i)) == Some(i),
{
}

/// One decoded instruction paired with the byte offset it was read from.
#[derive(Debug, Clone, Copy)]
pub struct Codepoint {
    pub instr: Instr,
    pub offset: usize,
}

impl Codepoint {
    /// Pairs an instruction with its source offset.
    pub fn new(instr: Instr, offset: usize) -> (r: Codepoint)
        ensures
            r.instr == instr,
            r.offset == offset,
    {
        Codepoint { instr, offset }
    }
}

} // verus!
