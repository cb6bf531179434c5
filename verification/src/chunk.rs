//! The bytecode container: a constant pool, a decoded instruction list kept
//! for disassembly, and the raw byte stream that is actually executed. A
//! chunk is produced once by the compiler and is read-only during execution.

use vstd::prelude::*;

use crate::error::CompilerError;
use crate::instr::{
    instr_arg_count, instr_from_byte, instr_opcode, instr_width, lemma_instr_byte_round_trip,
    Codepoint, Instr,
};
use crate::value::Value;

verus! {

/// The three raw parts of a chunk: constant pool, instruction list, bytes.
pub type Bytecode = (Vec<Value>, Vec<Instr>, Vec<u8>);

/// An append-only buffer of compiled bytecode.
pub struct Chunk {
    /// The constant pool, referenced by position.
    pub data: Vec<Value>,
    /// The decoded instruction list, for disassembly and debugging.
    pub code: Vec<Instr>,
    /// The raw executable encoding: opcode bytes followed by operand bytes.
    pub bytes: Vec<u8>,
}

impl Chunk {
    /// An empty chunk.
    pub fn new() -> (c: Chunk)
        ensures
            c.data@.len() == 0,
            c.code@.len() == 0,
            c.bytes@.len() == 0,
    {
        Chunk { data: Vec::new(), code: Vec::new(), bytes: Vec::new() }
    }

    /// Appends a value to the constant pool and returns its address. The
    /// address is stable: later reads through it yield this value.
    pub fn write_val(&mut self, val: Value) -> (addr: usize)
        ensures
            addr == old(self).data@.len(),
            final(self).data@ == old(self).data@.push(val),
            final(self).code@ == old(self).code@,
            final(self).bytes@ == old(self).bytes@,
    {
        self.data.push(val);
        self.data.len() - 1
    }

    /// Appends an instruction to the decoded instruction list.
    pub fn write_instr(&mut self, instr: Instr)
        ensures
            final(self).code@ == old(self).code@.push(instr),
            final(self).data@ == old(self).data@,
            final(self).bytes@ == old(self).bytes@,
    {
        self.code.push(instr)
    }

    /// Appends one byte to the raw stream.
    pub fn write_byte(&mut self, byte: u8)
        ensures
            final(self).bytes@ == old(self).bytes@.push(byte),
            final(self).data@ == old(self).data@,
            final(self).code@ == old(self).code@,
    {
        self.bytes.push(byte)
    }

    /// Appends a run of bytes to the raw stream.
    pub fn write_bytes(&mut self, arg: &[u8])
        ensures
            final(self).bytes@ == old(self).bytes@ + arg@,
            final(self).data@ == old(self).data@,
            final(self).code@ == old(self).code@,
    {
        let ghost start = self.bytes@;
        let mut i: usize = 0;
        while i < arg.len()
            invariant
                i <= arg@.len(),
                self.bytes@ == start + arg@.subrange(0, i as int),
                self.data@ == old(self).data@,
                self.code@ == old(self).code@,
                start == old(self).bytes@,
            decreases arg@.len() - i,
        {
            self.write_byte(arg[i]);
            proof {
                assert(start + arg@.subrange(0, i as int) + seq![arg@[i as int]] =~= start
                    + arg@.subrange(0, i + 1 as int));
            }
            i += 1;
        }
        proof {
            assert(arg@.subrange(0, arg@.len() as int) =~= arg@);
        }
    }

    /// Reads one byte of the raw stream.
    pub fn get_byte(&self, i: usize) -> (r: u8)
        requires
            i < self.bytes@.len(),
        ensures
            r == self.bytes@[i as int],
    {
        self.bytes[i]
    }

    /// Reads one constant-pool entry without consuming it.
    pub fn get_val(&self, addr: usize) -> (r: &Value)
        requires
            addr < self.data@.len(),
        ensures
            *r == self.data@[addr as int],
    {
        &self.data[addr]
    }

    /// Appends one operand-less instruction to both views at once: the
    /// instruction list gains the decoded form, the byte stream gains the
    /// opcode byte. The two views stay synchronized by construction.
    pub fn write_op0(&mut self, instr: Instr)
        requires
            instr_arg_count(instr) == 0,
        ensures
            final(self).code@ == old(self).code@.push(instr),
            final(self).bytes@ == old(self).bytes@ + seq![instr_opcode(instr)],
            final(self).data@ == old(self).data@,
    {
        self.write_instr(instr);
        self.write_byte(instr.to_byte());
        proof {
            assert(old(self).bytes@.push(instr_opcode(instr)) =~= old(self).bytes@
                + seq![instr_opcode(instr)]);
        }
    }

    /// Appends one one-operand instruction to both views at once.
    pub fn write_op1(&mut self, instr: Instr, a: u8)
        requires
            instr_arg_count(instr) == 1,
        ensures
            final(self).code@ == old(self).code@.push(instr),
            final(self).bytes@ == old(self).bytes@ + seq![instr_opcode(instr), a],
            final(self).data@ == old(self).data@,
    {
        self.write_instr(instr);
        self.write_byte(instr.to_byte());
        self.write_byte(a);
        proof {
            assert(old(self).bytes@.push(instr_opcode(instr)).push(a) =~= old(self).bytes@
                + seq![instr_opcode(instr), a]);
        }
    }

    /// Appends one two-operand instruction to both views at once.
    pub fn write_op2(&mut self, instr: Instr, a: u8, b: u8)
        requires
            instr_arg_count(instr) == 2,
        ensures
            final(self).code@ == old(self).code@.push(instr),
            final(self).bytes@ == old(self).bytes@ + seq![instr_opcode(instr), a, b],
            final(self).data@ == old(self).data@,
    {
        self.write_instr(instr);
        self.write_byte(instr.to_byte());
        self.write_byte(a);
        self.write_byte(b);
        proof {
            assert(old(self).bytes@.push(instr_opcode(instr)).push(a).push(b) =~= old(
                self,
            ).bytes@ + seq![instr_opcode(instr), a, b]);
        }
    }

    /// Decodes the instruction at a byte offset, returning it with the
    /// offset of the next instruction.
    pub fn read_op(&self, offset: usize) -> (r: Result<(Instr, usize), CompilerError>)
        ensures
            match r {
                Ok((i, next)) => decode_ok(self.bytes@, offset as int) && i == decoded_instr(
                    self.bytes@,
                    offset as int,
                ) && next == offset + instr_width(i),
                Err(e) => !decode_ok(self.bytes@, offset as int) && e == decode_err(
                    self.bytes@,
                    offset as int,
                ),
            },
    {
        if offset >= self.bytes.len() {
            return Err(CompilerError::UnexpectedEnd);
        }
        let instr = match Instr::try_from_byte(self.bytes[offset]) {
            Ok(i) => i,
            Err(e) => {
                return Err(e);
            },
        };
        let argc = instr.arg_count();
        if self.bytes.len() - offset - 1 < argc {
            return Err(CompilerError::UnexpectedEnd);
        }
        Ok((instr, offset + 1 + argc))
    }
}

impl Default for Chunk {
    /// The default chunk is the empty one.
    fn default() -> (c: Chunk)
        ensures
            c.data@.len() == 0,
            c.code@.len() == 0,
            c.bytes@.len() == 0,
    {
        Chunk::new()
    }
}

/// Whether the byte stream holds a whole, recognizable instruction at the
/// offset: the opcode byte is in range, decodes, and all its operand bytes
/// are present.
pub open spec fn decode_ok(bytes: Seq<u8>, offset: int) -> bool {
    &&& 0 <= offset < bytes.len()
    &&& instr_from_byte(bytes[offset]) is Some
    &&& offset + instr_width(instr_from_byte(bytes[offset]).unwrap()) <= bytes.len()
}

/// The instruction decoded at the offset, when decoding succeeds.
pub open spec fn decoded_instr(bytes: Seq<u8>, offset: int) -> Instr
    recommends
        decode_ok(bytes, offset),
{
    instr_from_byte(bytes[offset]).unwrap()
}

/// The decode error at the offset, when decoding fails: an unknown opcode
/// byte is named; a stream that ends inside an instruction is truncated.
pub open spec fn decode_err(bytes: Seq<u8>, offset: int) -> CompilerError
    recommends
        !decode_ok(bytes, offset),
{
    if 0 <= offset < bytes.len() {
        match instr_from_byte(bytes[offset]) {
            Some(_) => CompilerError::UnexpectedEnd,
            None => CompilerError::InvalidInstruction(bytes[offset]),
        }
    } else {
        CompilerError::UnexpectedEnd
    }
}

/// Encoding an instruction and then decoding from its own offset reproduces
/// the instruction and advances the offset by exactly one opcode byte plus
/// its operand bytes.
pub proof fn lemma_encode_decode_round_trip(prefix: Seq<u8>, i: Instr, args: Seq<u8>)
    requires
        args.len() == instr_arg_count(i),
    ensures
        ({
            let bytes = prefix + seq![instr_opcode(i)] + args;
            &&& decode_ok(bytes, prefix.len() as int)
            &&& decoded_instr(bytes, prefix.len() as int) == i
            &&& prefix.len() + instr_width(i) == bytes.len()
        }),
{
    let bytes = prefix + seq![instr_opcode(i)] + args;
    assert(bytes[prefix.len() as int] == instr_opcode(i));
    lemma_instr_byte_round_trip(i);
}

/// The summed encoded widths of the first instructions of a list: the
/// byte offset at which the next one starts.
pub open spec fn widths_sum(code: Seq<Instr>, n: int) -> int
    decreases n,
{
    if n <= 0 {
        0
    } else {
        widths_sum(code, n - 1) + instr_width(code[n - 1])
    }
}

/// Walking one instruction advances the summed-width offset by exactly one
/// opcode byte plus that opcode's declared operand bytes.
pub proof fn lemma_walk_offset_advance(code: Seq<Instr>, k: int)
    requires
        0 <= k < code.len(),
    ensures
        widths_sum(code, k + 1) == widths_sum(code, k) + 1 + instr_arg_count(code[k]),
{
}

/// A forward-only walk over a chunk's instruction list, yielding each
/// instruction paired with its byte offset, restartable from zero by
/// building a fresh one.
pub struct ChunkIntoIterator {
    chunk: Chunk,
    index: usize,
    offset: usize,
}

impl ChunkIntoIterator {
    /// Starts a walk at the beginning of the chunk.
    pub fn new(chunk: Chunk) -> (r: ChunkIntoIterator)
        ensures
            r.wf(),
            r.pos() == 0,
            r.instrs() == chunk.code@,
    {
        ChunkIntoIterator { chunk, index: 0, offset: 0 }
    }

    /// The instruction list being walked.
    pub closed spec fn instrs(&self) -> Seq<Instr> {
        self.chunk.code@
    }

    /// How many instructions have been yielded so far.
    pub closed spec fn pos(&self) -> int {
        self.index as int
    }

    /// The walk's internal invariant: the cursor stays on the list, and the
    /// byte offset equals the summed widths of the instructions already
    /// yielded, as far as the machine can count them.
    pub closed spec fn wf(&self) -> bool {
        &&& self.index <= self.chunk.code@.len()
        &&& (self.offset as int == widths_sum(self.chunk.code@, self.index as int) || widths_sum(
            self.chunk.code@,
            self.index as int,
        ) > usize::MAX)
    }

    /// Yields the next instruction paired with the byte offset it starts
    /// at — the summed encoded widths of those already yielded — or nothing
    /// once the instruction list is exhausted.
    pub fn next(&mut self) -> (r: Option<Codepoint>)
        requires
            old(self).wf(),
        ensures
            final(self).wf(),
            final(self).instrs() == old(self).instrs(),
            old(self).pos() < old(self).instrs().len() ==> {
                &&& r is Some
                &&& r.unwrap().instr == old(self).instrs()[old(self).pos()]
                &&& widths_sum(old(self).instrs(), old(self).pos()) <= usize::MAX
                    ==> r.unwrap().offset as int == widths_sum(old(self).instrs(), old(self).pos())
                &&& final(self).pos() == old(self).pos() + 1
            },
            old(self).pos() >= old(self).instrs().len() ==> {
                &&& r is None
                &&& final(self).pos() == old(self).pos()
            },
    {
        if self.index >= self.chunk.code.len() {
            return None;
        }
        let instr = self.chunk.code[self.index];
        let here = self.offset;
        self.index = self.index + 1;
        let width = instr.offset();
        proof {
            lemma_walk_offset_advance(self.chunk.code@, self.index as int - 1);
        }
        if self.offset <= usize::MAX - width {
            self.offset = self.offset + width;
        }
        Some(Codepoint::new(instr, here))
    }
}

impl Chunk {
    /// Hands the chunk over to a forward-only instruction walk.
    pub fn into_iter(self) -> (r: ChunkIntoIterator)
        ensures
            r.wf(),
            r.pos() == 0,
            r.instrs() == self.code@,
    {
        ChunkIntoIterator::new(self)
    }
}

} // verus!
