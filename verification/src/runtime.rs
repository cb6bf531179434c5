//! The virtual machine: a state machine over one chunk. The position is a
//! byte offset into the raw stream, starting at zero; each step decodes one
//! instruction, advances by its encoded width, and dispatches it against
//! the operand stack and the variable store. The loop ends at the halt
//! opcode or when the stream is exhausted.

use vstd::prelude::*;

use crate::ast::{Ast, Stmt};
use crate::chunk::{decode_err, decode_ok, decoded_instr, Chunk};
use crate::compile::{Compiler, Program};
use crate::lexer::Lexer;
use crate::parse::Parser;
use crate::compile::pool_model;
use crate::env::{
    mem_err_matches, Env, EnvModel, MemErr, Stack, StackItem,
};
use crate::error::{CompilerError, MemoryError, ParseError, RuntimeError, UmpteenError};
use crate::instr::{instr_width, Instr};
use crate::ops::{binary_from_byte, unary_from_byte};
use crate::value::{
    binary_result, render_model, unary_result, value_model, Value, ValueModel,
};

verus! {

/// Model of one operand-stack entry.
pub enum StackEntry {
    Address(int),
    Value(ValueModel),
}

/// Model of a stack item.
pub open spec fn item_model(it: StackItem) -> StackEntry {
    match it {
        StackItem::Address(a) => StackEntry::Address(a as int),
        StackItem::Value(v) => StackEntry::Value(value_model(v)),
    }
}

/// Model of the whole operand stack, bottom first.
pub open spec fn stack_model(s: Seq<StackItem>) -> Seq<StackEntry> {
    s.map_values(|it: StackItem| item_model(it))
}

/// Model of the output stream: one rendered line per print executed.
pub open spec fn out_model(o: Seq<String>) -> Seq<Seq<char>> {
    o.map_values(|s: String| s@)
}

/// The machine state the execution model threads: the variable store, the
/// operand stack, and the output stream.
#[verifier::ext_equal]
pub struct VmState {
    pub env: EnvModel,
    pub stack: Seq<StackEntry>,
    pub out: Seq<Seq<char>>,
}

/// The failures a step can end in.
pub enum VmErr {
    /// The byte stream did not decode.
    Decode(CompilerError),
    /// The variable store refused the operation, about the given name.
    Memory(MemErr, Seq<char>),
    /// A value operator was applied to operands it is not defined on.
    Op(ParseError),
    /// The stack or an address operand was unusable.
    Abort(RuntimeError),
}

/// Whether an error value reports the given step failure.
pub open spec fn vm_err_matches(e: UmpteenError, k: VmErr) -> bool {
    match (e, k) {
        (UmpteenError::Compiler(a), VmErr::Decode(b)) => a == b,
        (UmpteenError::Memory(me), VmErr::Memory(k2, nm)) => mem_err_matches(me, k2, nm),
        (UmpteenError::Parse(pe), VmErr::Op(pe2)) => pe == pe2,
        (UmpteenError::Runtime(re), VmErr::Abort(r2)) => re == r2,
        _ => false,
    }
}

/// What one whole run of a chunk comes to: the final machine state and the
/// overall result.
#[verifier::ext_equal]
pub struct ExecOutcome {
    pub state: VmState,
    pub result: Result<ValueModel, VmErr>,
}

/// Resolution of a stack entry when it is consumed: a plain value is
/// itself; a deferred address reads the constant pool, in range only.
pub open spec fn resolve_entry(data: Seq<ValueModel>, it: StackEntry) -> Result<
    ValueModel,
    VmErr,
> {
    match it {
        StackEntry::Value(v) => Ok(v),
        StackEntry::Address(a) => if 0 <= a < data.len() {
            Ok(data[a])
        } else {
            Err(VmErr::Abort(RuntimeError::OutOfBoundsMemoryAccess))
        },
    }
}

/// The variable name a pool address stands for: the entry must exist and
/// hold a string.
pub open spec fn name_at(data: Seq<ValueModel>, a: int) -> Result<Seq<char>, VmErr> {
    if !(0 <= a < data.len()) {
        Err(VmErr::Abort(RuntimeError::OutOfBoundsMemoryAccess))
    } else {
        match data[a] {
            ValueModel::Str(s) => Ok(s),
            _ => Err(VmErr::Abort(RuntimeError::ExpectedName(a as usize))),
        }
    }
}

/// The list index a resolved value stands for: a non-negative number that
/// the machine can address.
pub open spec fn index_of(v: ValueModel) -> Result<int, VmErr> {
    match v {
        ValueModel::Number(n) => if 0 <= n < usize::MAX {
            Ok(n as int)
        } else {
            Err(VmErr::Abort(RuntimeError::InvalidIndex))
        },
        _ => Err(VmErr::Abort(RuntimeError::InvalidIndex)),
    }
}

/// A halted run: the overall result is the resolved top-of-stack value if
/// one is present, else the empty value; the top entry is consumed.
pub open spec fn halt_outcome(data: Seq<ValueModel>, st: VmState) -> ExecOutcome {
    if st.stack.len() == 0 {
        ExecOutcome { state: st, result: Ok(ValueModel::Empty) }
    } else {
        let popped = VmState { env: st.env, stack: st.stack.drop_last(), out: st.out };
        match resolve_entry(data, st.stack.last()) {
            Ok(v) => ExecOutcome { state: popped, result: Ok(v) },
            Err(e) => ExecOutcome { state: popped, result: Err(e) },
        }
    }
}

/// A failed run.
pub open spec fn fail_outcome(st: VmState, e: VmErr) -> ExecOutcome {
    ExecOutcome { state: st, result: Err(e) }
}

/// The execution model: decodes and dispatches instruction by instruction
/// from the given offset until the halt opcode, the end of the stream, or
/// a failure. Execution always terminates: every instruction advances the
/// offset, and nothing moves it backwards.
pub open spec fn exec_from(
    data: Seq<ValueModel>,
    bytes: Seq<u8>,
    st: VmState,
    offset: int,
) -> ExecOutcome
    decreases bytes.len() - offset,
    when 0 <= offset <= bytes.len() && st.env.wf()
{
    if offset == bytes.len() {
        halt_outcome(data, st)
    } else if !decode_ok(bytes, offset) {
        fail_outcome(st, VmErr::Decode(decode_err(bytes, offset)))
    } else {
        let i = decoded_instr(bytes, offset);
        let next = offset + instr_width(i);
        match i {
            Instr::Constant => {
                let a = bytes[offset + 1] as int;
                if !(a < data.len()) {
                    fail_outcome(st, VmErr::Abort(RuntimeError::OutOfBoundsMemoryAccess))
                } else {
                    exec_from(
                        data,
                        bytes,
                        VmState {
                            env: st.env,
                            stack: st.stack.push(StackEntry::Value(data[a])),
                            out: st.out,
                        },
                        next,
                    )
                }
            },
            Instr::Print => {
                if st.stack.len() == 0 {
                    fail_outcome(st, VmErr::Abort(RuntimeError::StackMissingValue))
                } else {
                    let popped = VmState {
                        env: st.env,
                        stack: st.stack.drop_last(),
                        out: st.out,
                    };
                    match resolve_entry(data, st.stack.last()) {
                        Err(e) => fail_outcome(popped, e),
                        Ok(v) => exec_from(
                            data,
                            bytes,
                            VmState {
                                env: popped.env,
                                stack: popped.stack,
                                out: popped.out.push(render_model(v)),
                            },
                            next,
                        ),
                    }
                }
            },
            Instr::Push => {
                let a = bytes[offset + 1] as int;
                exec_from(
                    data,
                    bytes,
                    VmState {
                        env: st.env,
                        stack: st.stack.push(StackEntry::Address(a)),
                        out: st.out,
                    },
                    next,
                )
            },
            Instr::Get => {
                let a = bytes[offset + 1] as int;
                let has = bytes[offset + 2];
                match name_at(data, a) {
                    Err(e) => fail_outcome(st, e),
                    Ok(nm) => {
                        if has == 0 {
                            match st.env.do_get(nm, None) {
                                Err(k) => fail_outcome(st, VmErr::Memory(k, nm)),
                                Ok(v) => exec_from(
                                    data,
                                    bytes,
                                    VmState {
                                        env: st.env,
                                        stack: st.stack.push(StackEntry::Value(v)),
                                        out: st.out,
                                    },
                                    next,
                                ),
                            }
                        } else {
                            if st.stack.len() == 0 {
                                fail_outcome(st, VmErr::Abort(RuntimeError::StackMissingValue))
                            } else {
                                let popped = VmState {
                                    env: st.env,
                                    stack: st.stack.drop_last(),
                                    out: st.out,
                                };
                                match resolve_entry(data, st.stack.last()) {
                                    Err(e) => fail_outcome(popped, e),
                                    Ok(iv) => match index_of(iv) {
                                        Err(e) => fail_outcome(popped, e),
                                        Ok(ix) => match st.env.do_get(nm, Some(ix)) {
                                            Err(k) => fail_outcome(popped, VmErr::Memory(k, nm)),
                                            Ok(v) => exec_from(
                                                data,
                                                bytes,
                                                VmState {
                                                    env: popped.env,
                                                    stack: popped.stack.push(
                                                        StackEntry::Value(v),
                                                    ),
                                                    out: popped.out,
                                                },
                                                next,
                                            ),
                                        },
                                    },
                                }
                            }
                        }
                    },
                }
            },
            Instr::Assign => {
                let a = bytes[offset + 1] as int;
                let has = bytes[offset + 2];
                match name_at(data, a) {
                    Err(e) => fail_outcome(st, e),
                    Ok(nm) => {
                        if st.stack.len() == 0 {
                            fail_outcome(st, VmErr::Abort(RuntimeError::StackMissingValue))
                        } else {
                            let st1 = VmState {
                                env: st.env,
                                stack: st.stack.drop_last(),
                                out: st.out,
                            };
                            match resolve_entry(data, st.stack.last()) {
                                Err(e) => fail_outcome(st1, e),
                                Ok(val) => {
                                    if has == 0 {
                                        match st1.env.do_assign(nm, None, val) {
                                            Err(k) => fail_outcome(st1, VmErr::Memory(k, nm)),
                                            Ok(env2) => exec_from(
                                                data,
                                                bytes,
                                                VmState {
                                                    env: env2,
                                                    stack: st1.stack,
                                                    out: st1.out,
                                                },
                                                next,
                                            ),
                                        }
                                    } else {
                                        if st1.stack.len() == 0 {
                                            fail_outcome(
                                                st1,
                                                VmErr::Abort(RuntimeError::StackMissingValue),
                                            )
                                        } else {
                                            let st2 = VmState {
                                                env: st1.env,
                                                stack: st1.stack.drop_last(),
                                                out: st1.out,
                                            };
                                            match resolve_entry(data, st1.stack.last()) {
                                                Err(e) => fail_outcome(st2, e),
                                                Ok(iv) => match index_of(iv) {
                                                    Err(e) => fail_outcome(st2, e),
                                                    Ok(ix) => match st2.env.do_assign(
                                                        nm,
                                                        Some(ix),
                                                        val,
                                                    ) {
                                                        Err(k) => fail_outcome(
                                                            st2,
                                                            VmErr::Memory(k, nm),
                                                        ),
                                                        Ok(env2) => exec_from(
                                                            data,
                                                            bytes,
                                                            VmState {
                                                                env: env2,
                                                                stack: st2.stack,
                                                                out: st2.out,
                                                            },
                                                            next,
                                                        ),
                                                    },
                                                },
                                            }
                                        }
                                    }
                                },
                            }
                        }
                    },
                }
            },
            Instr::BinOp => {
                let b = bytes[offset + 1];
                match binary_from_byte(b) {
                    None => fail_outcome(st, VmErr::Decode(CompilerError::InvalidOperator(b))),
                    Some(op) => {
                        if st.stack.len() == 0 {
                            fail_outcome(st, VmErr::Abort(RuntimeError::StackMissingValue))
                        } else {
                            let st1 = VmState {
                                env: st.env,
                                stack: st.stack.drop_last(),
                                out: st.out,
                            };
                            match resolve_entry(data, st.stack.last()) {
                                Err(e) => fail_outcome(st1, e),
                                Ok(rhs) => {
                                    if st1.stack.len() == 0 {
                                        fail_outcome(
                                            st1,
                                            VmErr::Abort(RuntimeError::StackMissingValue),
                                        )
                                    } else {
                                        let st2 = VmState {
                                            env: st1.env,
                                            stack: st1.stack.drop_last(),
                                            out: st1.out,
                                        };
                                        match resolve_entry(data, st1.stack.last()) {
                                            Err(e) => fail_outcome(st2, e),
                                            Ok(lhs) => match binary_result(op, lhs, rhs) {
                                                Err(pe) => fail_outcome(st2, VmErr::Op(pe)),
                                                Ok(v) => exec_from(
                                                    data,
                                                    bytes,
                                                    VmState {
                                                        env: st2.env,
                                                        stack: st2.stack.push(
                                                            StackEntry::Value(v),
                                                        ),
                                                        out: st2.out,
                                                    },
                                                    next,
                                                ),
                                            },
                                        }
                                    }
                                },
                            }
                        }
                    },
                }
            },
            Instr::UnOp => {
                let b = bytes[offset + 1];
                match unary_from_byte(b) {
                    None => fail_outcome(st, VmErr::Decode(CompilerError::InvalidOperator(b))),
                    Some(op) => {
                        if st.stack.len() == 0 {
                            fail_outcome(st, VmErr::Abort(RuntimeError::StackMissingValue))
                        } else {
                            let st1 = VmState {
                                env: st.env,
                                stack: st.stack.drop_last(),
                                out: st.out,
                            };
                            match resolve_entry(data, st.stack.last()) {
                                Err(e) => fail_outcome(st1, e),
                                Ok(v0) => match unary_result(op, v0) {
                                    Err(pe) => fail_outcome(st1, VmErr::Op(pe)),
                                    Ok(v) => exec_from(
                                        data,
                                        bytes,
                                        VmState {
                                            env: st1.env,
                                            stack: st1.stack.push(StackEntry::Value(v)),
                                            out: st1.out,
                                        },
                                        next,
                                    ),
                                },
                            }
                        }
                    },
                }
            },
            Instr::Exit => halt_outcome(data, st),
        }
    }
}

/// The executing machine: the variable store, the operand stack, and the
/// output buffer that print writes rendered lines to.
pub struct Runtime {
    /// The variable store, shared by every chunk this runtime executes.
    pub env: Env,
    /// The operand stack, persisting across chunk boundaries.
    pub stack: Stack,
    /// The rendered lines print has emitted, in order.
    pub out: Vec<String>,
}

/// Model of the machine state.
pub open spec fn state_model(rt: Runtime) -> VmState {
    VmState { env: rt.env@, stack: stack_model(rt.stack@), out: out_model(rt.out@) }
}

/// Pushing an item extends the stack model by that item's model.
proof fn lemma_stack_push(s: Seq<StackItem>, it: StackItem)
    ensures
        stack_model(s.push(it)) == stack_model(s).push(item_model(it)),
{
    assert(stack_model(s.push(it)) =~= stack_model(s).push(item_model(it)));
}

/// Popping the top shortens the stack model by its last entry.
proof fn lemma_stack_pop(s: Seq<StackItem>)
    requires
        s.len() > 0,
    ensures
        stack_model(s.drop_last()) == stack_model(s).drop_last(),
        stack_model(s).last() == item_model(s.last()),
        stack_model(s).len() == s.len(),
{
    assert(stack_model(s.drop_last()) =~= stack_model(s).drop_last());
}

/// Appending a line extends the output model by its characters.
proof fn lemma_out_push(o: Seq<String>, x: String)
    ensures
        out_model(o.push(x)) == out_model(o).push(x@),
{
    assert(out_model(o.push(x)) =~= out_model(o).push(x@));
}

impl Runtime {
    /// A fresh machine: an empty store, an empty stack, no output yet.
    pub fn new() -> (r: Runtime)
        ensures
            r.env.wf(),
            r.env@ == fresh_env_model(),
            r.env.scopes@.len() == 1,
            r.env.current is None,
            r.stack@.len() == 0,
            r.out@.len() == 0,
    {
        let r = Runtime { env: Env::new(), stack: Vec::new(), out: Vec::new() };
        proof {
            assert(r.env@ =~= fresh_env_model());
        }
        r
    }

    /// Resolves one consumed stack item against the chunk's constant pool.
    fn resolve_item(&self, chunk: &Chunk, it: StackItem) -> (r: Result<Value, UmpteenError>)
        ensures
            match r {
                Ok(v) => resolve_entry(pool_model(chunk.data@), item_model(it)) == Ok::<
                    _,
                    VmErr,
                >(v@),
                Err(e) => resolve_entry(pool_model(chunk.data@), item_model(it)) matches Err(k)
                    && vm_err_matches(e, k),
            },
    {
        match it {
            StackItem::Value(v) => Ok(v),
            StackItem::Address(a) => {
                if a < chunk.data.len() {
                    Ok(chunk.get_val(a).dup())
                } else {
                    Err(UmpteenError::Runtime(RuntimeError::OutOfBoundsMemoryAccess))
                }
            },
        }
    }

    /// Reads the variable name a pool address stands for.
    fn read_name(&self, chunk: &Chunk, a: u8) -> (r: Result<String, UmpteenError>)
        ensures
            match r {
                Ok(s) => name_at(pool_model(chunk.data@), a as int) == Ok::<_, VmErr>(s@),
                Err(e) => name_at(pool_model(chunk.data@), a as int) matches Err(k)
                    && vm_err_matches(e, k),
            },
    {
        if (a as usize) < chunk.data.len() {
            match chunk.get_val(a as usize) {
                Value::Object(o) => match &*o.0 {
                    crate::value::ObjectData::Str(s) => Ok(s.clone()),
                    _ => Err(UmpteenError::Runtime(RuntimeError::ExpectedName(a as usize))),
                },
                _ => Err(UmpteenError::Runtime(RuntimeError::ExpectedName(a as usize))),
            }
        } else {
            Err(UmpteenError::Runtime(RuntimeError::OutOfBoundsMemoryAccess))
        }
    }

    /// Turns a resolved value into a machine-addressable list index.
    fn index_of_value(&self, v: &Value) -> (r: Result<usize, UmpteenError>)
        ensures
            match r {
                Ok(ix) => index_of(v@) == Ok::<_, VmErr>(ix as int) && ix < usize::MAX,
                Err(e) => index_of(v@) matches Err(k) && vm_err_matches(e, k),
            },
    {
        match v {
            Value::Number(n) => {
                if *n >= 0 && (*n as u64) < (usize::MAX as u64) {
                    Ok(*n as usize)
                } else {
                    Err(UmpteenError::Runtime(RuntimeError::InvalidIndex))
                }
            },
            _ => Err(UmpteenError::Runtime(RuntimeError::InvalidIndex)),
        }
    }

    /// Halts the run: the overall result is the resolved top-of-stack value
    /// if one is present, else the empty value.
    fn halt(&mut self, chunk: &Chunk) -> (r: Result<Value, UmpteenError>)
        requires
            old(self).env.wf(),
        ensures
            final(self).env.wf(),
            final(self).env == old(self).env,
            state_model(*final(self)) == halt_outcome(
                pool_model(chunk.data@),
                state_model(*old(self)),
            ).state,
            match r {
                Ok(v) => halt_outcome(pool_model(chunk.data@), state_model(*old(self))).result
                    == Ok::<_, VmErr>(v@),
                Err(e) => halt_outcome(pool_model(chunk.data@), state_model(*old(self))).result
                    matches Err(k) && vm_err_matches(e, k),
            },
    {
        proof {
            if old(self).stack@.len() > 0 {
                lemma_stack_pop(old(self).stack@);
            }
        }
        match self.stack.pop() {
            None => Ok(Value::Empty),
            Some(it) => self.resolve_item(chunk, it),
        }
    }
}

impl Runtime {
    /// Executes one chunk from offset zero to completion, exactly as the
    /// execution model says: on success the machine state is the model's
    /// final state and the result its value; on failure the error reports
    /// the model's failure.
    #[verifier::rlimit(100)]
    #[verifier::loop_isolation(false)]
    pub fn exec(&mut self, chunk: &Chunk) -> (r: Result<Value, UmpteenError>)
        requires
            old(self).env.wf(),
        ensures
            final(self).env.wf(),
            ({
                let outcome = exec_from(
                    pool_model(chunk.data@),
                    chunk.bytes@,
                    state_model(*old(self)),
                    0,
                );
                match r {
                    Ok(v) => outcome.result == Ok::<_, VmErr>(v@) && state_model(*final(self))
                        == outcome.state,
                    Err(e) => outcome.result matches Err(k) && vm_err_matches(e, k)
                        && state_model(*final(self)) == outcome.state,
                }
            }),
    {
        let ghost data = pool_model(chunk.data@);
        let ghost bytes = chunk.bytes@;
        let ghost st0 = state_model(*old(self));
        proof {
            crate::env::lemma_env_model_wf(self.env);
        }
        let mut offset: usize = 0;
        loop
            invariant
                self.env.wf(),
                offset <= chunk.bytes@.len(),
                exec_from(data, bytes, st0, 0) == exec_from(
                    data,
                    bytes,
                    state_model(*self),
                    offset as int,
                ),
            decreases bytes.len() - offset,
        {
            proof {
                crate::env::lemma_env_model_wf(self.env);
            }
            let ghost prev = state_model(*self);
            let ghost poff = offset as int;
            if offset == chunk.bytes.len() {
                return self.halt(chunk);
            }
            let (instr, next) = match chunk.read_op(offset) {
                Ok(t) => t,
                Err(e) => {
                    return Err(UmpteenError::Compiler(e));
                },
            };
            match instr {
                Instr::Constant => {
                    let a = chunk.get_byte(offset + 1) as usize;
                    if a >= chunk.data.len() {
                        return Err(UmpteenError::Runtime(RuntimeError::OutOfBoundsMemoryAccess));
                    }
                    let v = chunk.get_val(a).dup();
                    proof {
                        lemma_stack_push(self.stack@, StackItem::Value(v));
                    }
                    self.stack.push(StackItem::Value(v));
                    proof {
                        assert(state_model(*self) =~= VmState {
                            env: prev.env,
                            stack: prev.stack.push(StackEntry::Value(data[a as int])),
                            out: prev.out,
                        });
                    }
                    offset = next;
                },
                Instr::Print => {
                    let ghost sb_it = self.stack@;
                    let it = match self.stack.pop() {
                        None => {
                            return Err(UmpteenError::Runtime(RuntimeError::StackMissingValue));
                        },
                        Some(it) => it,
                    };
                    proof {
                        lemma_stack_pop(sb_it);
                    }
                    let v = match self.resolve_item(chunk, it) {
                        Err(e) => {
                            return Err(e);
                        },
                        Ok(v) => v,
                    };
                    let line = v.render();
                    proof {
                        lemma_out_push(self.out@, line);
                    }
                    self.out.push(line);
                    proof {
                        assert(state_model(*self) =~= VmState {
                            env: prev.env,
                            stack: prev.stack.drop_last(),
                            out: prev.out.push(
                                render_model(
                                    resolve_entry(data, prev.stack.last())->Ok_0,
                                ),
                            ),
                        });
                    }
                    offset = next;
                },
                Instr::Push => {
                    let a = chunk.get_byte(offset + 1) as usize;
                    proof {
                        lemma_stack_push(self.stack@, StackItem::Address(a));
                    }
                    self.stack.push(StackItem::Address(a));
                    proof {
                        assert(state_model(*self) =~= VmState {
                            env: prev.env,
                            stack: prev.stack.push(StackEntry::Address(a as int)),
                            out: prev.out,
                        });
                    }
                    offset = next;
                },
                Instr::Get => {
                    let a = chunk.get_byte(offset + 1);
                    let has = chunk.get_byte(offset + 2);
                    let nm = match self.read_name(chunk, a) {
                        Err(e) => {
                            return Err(e);
                        },
                        Ok(nm) => nm,
                    };
                    proof {
                        crate::env::lemma_lookup_model(self.env, nm@);
                    }
                    let index: Option<usize> = if has == 0 {
                        None
                    } else {
                        let ghost sb_it = self.stack@;
                    let it = match self.stack.pop() {
                            None => {
                                return Err(
                                    UmpteenError::Runtime(RuntimeError::StackMissingValue),
                                );
                            },
                            Some(it) => it,
                        };
                        proof {
                            lemma_stack_pop(sb_it);
                        }
                        let iv = match self.resolve_item(chunk, it) {
                            Err(e) => {
                                return Err(e);
                            },
                            Ok(iv) => iv,
                        };
                        let ix = match self.index_of_value(&iv) {
                            Err(e) => {
                                return Err(e);
                            },
                            Ok(ix) => ix,
                        };
                        Some(ix)
                    };
                    let got = self.env.get(nm.as_str(), index);
                    match got {
                        Err(e) => {
                            return Err(UmpteenError::Memory(e));
                        },
                        Ok(v) => {
                            proof {
                                lemma_stack_push(self.stack@, StackItem::Value(v));
                            }
                            let ghost mid = state_model(*self);
                            self.stack.push(StackItem::Value(v));
                            proof {
                                assert(state_model(*self) =~= VmState {
                                    env: mid.env,
                                    stack: mid.stack.push(
                                        StackEntry::Value(value_model(v)),
                                    ),
                                    out: mid.out,
                                });
                            }
                            offset = next;
                        },
                    }
                },
                Instr::Assign => {
                    let a = chunk.get_byte(offset + 1);
                    let has = chunk.get_byte(offset + 2);
                    let nm = match self.read_name(chunk, a) {
                        Err(e) => {
                            return Err(e);
                        },
                        Ok(nm) => nm,
                    };
                    let ghost sb_vit = self.stack@;
                    let vit = match self.stack.pop() {
                        None => {
                            return Err(UmpteenError::Runtime(RuntimeError::StackMissingValue));
                        },
                        Some(it) => it,
                    };
                    proof {
                        lemma_stack_pop(sb_vit);
                    }
                    let val = match self.resolve_item(chunk, vit) {
                        Err(e) => {
                            return Err(e);
                        },
                        Ok(v) => v,
                    };
                    let index: Option<usize> = if has == 0 {
                        None
                    } else {
                        let ghost stack_before = self.stack@;
                        let iit = match self.stack.pop() {
                            None => {
                                return Err(
                                    UmpteenError::Runtime(RuntimeError::StackMissingValue),
                                );
                            },
                            Some(it) => it,
                        };
                        proof {
                            lemma_stack_pop(stack_before);
                        }
                        let iv = match self.resolve_item(chunk, iit) {
                            Err(e) => {
                                return Err(e);
                            },
                            Ok(iv) => iv,
                        };
                        let ix = match self.index_of_value(&iv) {
                            Err(e) => {
                                return Err(e);
                            },
                            Ok(ix) => ix,
                        };
                        Some(ix)
                    };
                    let ghost pre_env = self.env;
                    let ghost valm = value_model(val);
                    proof {
                        crate::env::lemma_lookup_model(self.env, nm@);
                    }
                    match self.env.assign(nm.as_str(), index, val) {
                        Err(e) => {
                            proof {
                                crate::env::lemma_env_model_unchanged(pre_env, self.env);
                            }
                            return Err(UmpteenError::Memory(e));
                        },
                        Ok(()) => {
                            proof {
                                crate::env::lemma_env_assign_model(
                                    pre_env,
                                    self.env,
                                    nm@,
                                    index,
                                    valm,
                                );
                            }
                            offset = next;
                        },
                    }
                },
                Instr::BinOp => {
                    let b = chunk.get_byte(offset + 1);
                    let op = match crate::ops::Binary::try_from_byte(b) {
                        None => {
                            return Err(
                                UmpteenError::Compiler(CompilerError::InvalidOperator(b)),
                            );
                        },
                        Some(op) => op,
                    };
                    let ghost sb_rit = self.stack@;
                    let rit = match self.stack.pop() {
                        None => {
                            return Err(UmpteenError::Runtime(RuntimeError::StackMissingValue));
                        },
                        Some(it) => it,
                    };
                    proof {
                        lemma_stack_pop(sb_rit);
                    }
                    let rhs = match self.resolve_item(chunk, rit) {
                        Err(e) => {
                            return Err(e);
                        },
                        Ok(v) => v,
                    };
                    let ghost stack_mid = self.stack@;
                    let lit = match self.stack.pop() {
                        None => {
                            return Err(UmpteenError::Runtime(RuntimeError::StackMissingValue));
                        },
                        Some(it) => it,
                    };
                    proof {
                        lemma_stack_pop(stack_mid);
                    }
                    let lhs = match self.resolve_item(chunk, lit) {
                        Err(e) => {
                            return Err(e);
                        },
                        Ok(v) => v,
                    };
                    match lhs.apply_binary(rhs, op) {
                        Err(pe) => {
                            return Err(UmpteenError::Parse(pe));
                        },
                        Ok(v) => {
                            proof {
                                lemma_stack_push(self.stack@, StackItem::Value(v));
                            }
                            let ghost mid = state_model(*self);
                            self.stack.push(StackItem::Value(v));
                            proof {
                                assert(state_model(*self) =~= VmState {
                                    env: mid.env,
                                    stack: mid.stack.push(
                                        StackEntry::Value(value_model(v)),
                                    ),
                                    out: mid.out,
                                });
                            }
                            offset = next;
                        },
                    }
                },
                Instr::UnOp => {
                    let b = chunk.get_byte(offset + 1);
                    let op = match crate::ops::Unary::try_from_byte(b) {
                        None => {
                            return Err(
                                UmpteenError::Compiler(CompilerError::InvalidOperator(b)),
                            );
                        },
                        Some(op) => op,
                    };
                    let ghost sb_it = self.stack@;
                    let it = match self.stack.pop() {
                        None => {
                            return Err(UmpteenError::Runtime(RuntimeError::StackMissingValue));
                        },
                        Some(it) => it,
                    };
                    proof {
                        lemma_stack_pop(sb_it);
                    }
                    let v0 = match self.resolve_item(chunk, it) {
                        Err(e) => {
                            return Err(e);
                        },
                        Ok(v) => v,
                    };
                    match v0.apply_unary(op) {
                        Err(pe) => {
                            return Err(UmpteenError::Parse(pe));
                        },
                        Ok(v) => {
                            proof {
                                lemma_stack_push(self.stack@, StackItem::Value(v));
                            }
                            let ghost mid = state_model(*self);
                            self.stack.push(StackItem::Value(v));
                            proof {
                                assert(state_model(*self) =~= VmState {
                                    env: mid.env,
                                    stack: mid.stack.push(
                                        StackEntry::Value(value_model(v)),
                                    ),
                                    out: mid.out,
                                });
                            }
                            offset = next;
                        },
                    }
                },
                Instr::Exit => {
                    return self.halt(chunk);
                },
            }
        }
    }
}

/// Models of a chunk sequence, chunk by chunk.
pub open spec fn chunk_models(chunks: Seq<Chunk>) -> Seq<crate::compile::ChunkModel> {
    chunks.map_values(|c: Chunk| crate::compile::chunk_model(c))
}

/// The execution model of a chunk sequence: each chunk runs from offset
/// zero against the state the previous one left, so variable state and
/// stack contents persist across chunk boundaries; the first failure
/// aborts the sequence; the overall result is the last chunk's, or the
/// empty value for no chunks at all.
pub open spec fn exec_chunks(cms: Seq<crate::compile::ChunkModel>, st: VmState) -> ExecOutcome
    decreases cms.len(),
{
    if cms.len() == 0 {
        ExecOutcome { state: st, result: Ok(ValueModel::Empty) }
    } else {
        let first = exec_from(cms[0].data, cms[0].bytes, st, 0);
        match first.result {
            Err(_) => first,
            Ok(_) => if cms.len() == 1 {
                first
            } else {
                exec_chunks(cms.subrange(1, cms.len() as int), first.state)
            },
        }
    }
}

/// The model of a freshly made store: one empty global scope, active.
pub open spec fn fresh_env_model() -> EnvModel {
    EnvModel {
        scopes: seq![
            crate::env::ScopeModel { map: Map::<Seq<char>, Option<ValueModel>>::empty(), parent: None },
        ],
        current: None,
    }
}

/// Whether a result and a runtime transition are exactly what compiling
/// and executing the given statement list comes to: lowering per the
/// program model into the active scope; on a lowering failure the matching
/// error, a fresh store, stack and output untouched; otherwise the
/// chunk-sequence execution model's outcome, state and all.
pub open spec fn program_run_matches(
    pre: Runtime,
    post: Runtime,
    ast: Seq<Stmt>,
    r: Result<Value, UmpteenError>,
) -> bool {
    let e0 = pre.env;
    let g0 = e0.scopes@[e0.active()].map();
    match crate::compile::comp_program(ast, g0) {
        Err(k) => (r matches Err(e) && crate::compile::comp_err_matches(e, k)) && post.env@
            == fresh_env_model() && post.stack@ == pre.stack@ && post.out@ == pre.out@,
        Ok((cm, g1)) => ({
            let em1 = EnvModel {
                scopes: e0@.scopes.update(
                    e0.active(),
                    crate::env::ScopeModel { map: g1, parent: e0@.scopes[e0.active()].parent },
                ),
                current: e0@.current,
            };
            let st1 = VmState { env: em1, stack: stack_model(pre.stack@), out: out_model(pre.out@) };
            let outcome = exec_chunks(seq![cm], st1);
            match r {
                Ok(v) => outcome.result == Ok::<_, VmErr>(v@) && state_model(post)
                    == outcome.state,
                Err(e) => outcome.result matches Err(k2) && vm_err_matches(e, k2) && state_model(
                    post,
                ) == outcome.state,
            }
        }),
    }
}

/// Whether a runtime is freshly made: a fresh store, empty stack, no
/// output yet.
pub open spec fn fresh_runtime(rt: Runtime) -> bool {
    &&& rt.env@ == fresh_env_model()
    &&& rt.env.wf()
    &&& rt.stack@.len() == 0
    &&& rt.out@.len() == 0
}

impl Runtime {
    /// Executes a chunk sequence in order against this runtime's store,
    /// stack and output stream, exactly as the chunk-sequence execution
    /// model says.
    #[verifier::loop_isolation(false)]
    pub fn run_chunks(&mut self, chunks: &Vec<Chunk>) -> (r: Result<Value, UmpteenError>)
        requires
            old(self).env.wf(),
        ensures
            final(self).env.wf(),
            ({
                let outcome = exec_chunks(chunk_models(chunks@), state_model(*old(self)));
                match r {
                    Ok(v) => outcome.result == Ok::<_, VmErr>(v@) && state_model(*final(self))
                        == outcome.state,
                    Err(e) => outcome.result matches Err(k) && vm_err_matches(e, k)
                        && state_model(*final(self)) == outcome.state,
                }
            }),
    {
        let ghost st0 = state_model(*old(self));
        let ghost cms = chunk_models(chunks@);
        proof {
            assert(cms.subrange(0, cms.len() as int) =~= cms);
        }
        let mut result = Value::Empty;
        let mut i: usize = 0;
        while i < chunks.len()
            invariant
                self.env.wf(),
                i <= chunks@.len(),
                cms == chunk_models(chunks@),
                i < chunks@.len() ==> exec_chunks(cms, st0) == exec_chunks(
                    cms.subrange(i as int, cms.len() as int),
                    state_model(*self),
                ),
                i == chunks@.len() ==> exec_chunks(cms, st0) == (ExecOutcome {
                    state: state_model(*self),
                    result: Ok::<_, VmErr>(value_model(result)),
                }),
            decreases chunks@.len() - i,
        {
            let ghost pre = state_model(*self);
            let ghost rest = cms.subrange(i as int, cms.len() as int);
            proof {
                assert(rest[0] == cms[i as int]);
                assert(cms[i as int] == crate::compile::chunk_model(chunks@[i as int]));
            }
            let step = self.exec(&chunks[i]);
            proof {
                assert(rest.subrange(1, rest.len() as int) =~= cms.subrange(
                    i + 1 as int,
                    cms.len() as int,
                ));
                let first = exec_from(rest[0].data, rest[0].bytes, pre, 0);
                assert(first == exec_from(
                    pool_model(chunks@[i as int].data@),
                    chunks@[i as int].bytes@,
                    pre,
                    0,
                ));
                assert(exec_chunks(cms, st0) == exec_chunks(rest, pre));
            }
            result = match step {
                Ok(v) => v,
                Err(e) => {
                    return Err(e);
                },
            };
            i = i + 1;
        }
        proof {
            if cms.len() == 0 {
                assert(exec_chunks(cms, st0) == (ExecOutcome {
                    state: st0,
                    result: Ok::<_, VmErr>(ValueModel::Empty),
                }));
            }
        }
        Ok(result)
    }

    /// Compiles a statement list into the carried store and executes the
    /// produced chunks, exactly as the lowering and execution models say.
    /// A compilation failure leaves a fresh store behind, the stack and
    /// output untouched; nothing then executes.
    pub fn run_program(&mut self, ast: &Ast) -> (r: Result<Value, UmpteenError>)
        requires
            old(self).env.wf(),
        ensures
            final(self).env.wf(),
            program_run_matches(*old(self), *final(self), ast@, r),
    {
        let ghost e0 = self.env;
        let mut env = Env::new();
        core::mem::swap(&mut env, &mut self.env);
        let compiler = Compiler::new(env);
        let program = match compiler.compile(ast) {
            Ok(p) => p,
            Err(e) => {
                proof {
                    assert(self.env@ =~= fresh_env_model());
                }
                return Err(e);
            },
        };
        self.env = program.env;
        proof {
            let g1 = crate::compile::comp_program(
                ast@,
                e0.scopes@[e0.active()].map(),
            )->Ok_0.1;
            let em1 = EnvModel {
                scopes: e0@.scopes.update(
                    e0.active(),
                    crate::env::ScopeModel { map: g1, parent: e0@.scopes[e0.active()].parent },
                ),
                current: e0@.current,
            };
            assert forall|j: int| 0 <= j < self.env@.scopes.len() implies self.env@.scopes[j]
                == em1.scopes[j] by {
                assert(self.env@.scopes[j] == crate::env::scope_model(self.env.scopes@[j]));
                assert(e0@.scopes[j] == crate::env::scope_model(e0.scopes@[j]));
                if j == e0.active() {
                    assert(self.env@.scopes[j] =~= em1.scopes[j]);
                }
            }
            assert(self.env@.scopes =~= em1.scopes);
            assert(self.env@ =~= em1);
        }
        let r = self.run_chunks(&program.chunks);
        proof {
            assert(chunk_models(program.chunks@) =~= seq![
                crate::compile::chunk_model(program.chunks@[0]),
            ]);
        }
        r
    }

    /// Runs one source text end to end, exactly as the front-end models
    /// and the program contract say: scanning and parsing the text decides
    /// everything. A parse failure surfaces as the model's error with the
    /// runtime untouched; otherwise the result and the final state are the
    /// program contract's outcome for the statement list the text parses
    /// to, and variable state persists across runs on one runtime.
    pub fn run(&mut self, src: &str) -> (r: Result<Value, UmpteenError>)
        requires
            old(self).env.wf(),
        ensures
            final(self).env.wf(),
            ({
                let ts = crate::lexer::scan_model(src@, 0, 1);
                match crate::parse::p_stmts(ts, 0) {
                    Err(m) => r matches Err(UmpteenError::Parse(e)) && crate::parse::perr_matches(
                        e,
                        m,
                    ) && *final(self) == *old(self),
                    Ok(sm) => exists|ast: Seq<Stmt>|
                        {
                            &&& crate::parse::stmts_models(ast) == sm
                            &&& #[trigger] program_run_matches(*old(self), *final(self), ast, r)
                        },
                }
            }),
            src@.len() == 0 ==> program_run_matches(
                *old(self),
                *final(self),
                seq![Stmt::Exit],
                r,
            ),
    {
        let lexer = Lexer::new(src);
        let tokens = lexer.scan();
        let ghost ts = crate::lexer::scan_model(src@, 0, 1);
        let mut parser = Parser::new(tokens);
        let ast = match parser.parse() {
            Ok(a) => a,
            Err(e) => {
                return Err(UmpteenError::Parse(e));
            },
        };
        let r = self.run_program(&ast);
        proof {
            assert(crate::parse::stmts_models(ast@) == crate::parse::p_stmts(ts, 0)->Ok_0);
            assert(program_run_matches(*old(self), *self, ast@, r));
        }
        r
    }
}

/// The language's front door: runs one source text in a fresh runtime.
pub struct Umpteen {}

impl Umpteen {
    /// Runs one program from source in a fresh runtime, handing back its
    /// overall value, exactly as the front-end models and the program
    /// contract say: a parse failure surfaces as the model's error;
    /// otherwise the result is the program contract's for the statement
    /// list the source parses to, from a fresh store with an empty stack
    /// and no output. The runtime is dropped on the way out, so a caller
    /// who needs the printed lines runs a `Runtime` of their own and reads
    /// its output buffer.
    pub fn run(src: &str) -> (r: Result<Value, UmpteenError>)
        ensures
            ({
                let ts = crate::lexer::scan_model(src@, 0, 1);
                match crate::parse::p_stmts(ts, 0) {
                    Err(m) => r matches Err(UmpteenError::Parse(e)) && crate::parse::perr_matches(
                        e,
                        m,
                    ),
                    Ok(sm) => exists|pre: Runtime, post: Runtime, ast: Seq<Stmt>|
                        {
                            &&& fresh_runtime(pre)
                            &&& crate::parse::stmts_models(ast) == sm
                            &&& #[trigger] program_run_matches(pre, post, ast, r)
                        },
                }
            }),
            src@.len() == 0 ==> (r matches Ok(v) && v@ == ValueModel::Empty),
    {
        let mut runtime = Runtime::new();
        let ghost pre = runtime;
        let r = runtime.run(src);
        proof {
            let ts = crate::lexer::scan_model(src@, 0, 1);
            match crate::parse::p_stmts(ts, 0) {
                Err(_) => {},
                Ok(sm) => {
                    let ast0 = choose|ast: Seq<Stmt>|
                        crate::parse::stmts_models(ast) == sm && #[trigger] program_run_matches(
                            pre,
                            runtime,
                            ast,
                            r,
                        );
                    assert(fresh_runtime(pre));
                    assert(program_run_matches(pre, runtime, ast0, r));
                },
            }
            if src@.len() == 0 {
                crate::laws::lemma_run_program_empty(pre, runtime, r);
            }
        }
        r
    }
}

} // verus!
