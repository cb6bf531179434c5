//! The compiler: walks the statement list and emits one chunk, allocating
//! constant-pool slots, registering declarations in the environment's
//! active scope, and terminating the program with an implicit exit
//! instruction so the execution loop always has a defined halt condition.

use vstd::prelude::*;

use crate::ast::{Ast, Expr, Stmt};
use crate::chunk::Chunk;
use crate::env::Env;
use crate::error::{CompilerError, MemoryError, UmpteenError};
use crate::instr::{instr_opcode, Instr};
use crate::ops::{binary_byte, unary_byte};
use crate::value::{value_model, Value, ValueModel};

verus! {

/// Spec-level picture of a chunk: constant models, instruction list, bytes.
#[verifier::ext_equal]
pub struct ChunkModel {
    pub data: Seq<ValueModel>,
    pub code: Seq<Instr>,
    pub bytes: Seq<u8>,
}

/// The constant pool, modelled entry by entry.
pub open spec fn pool_model(data: Seq<Value>) -> Seq<ValueModel> {
    Seq::new(data.len(), |i: int| value_model(data[i]))
}

/// Appending one value extends the pool model by that value's model.
pub proof fn lemma_pool_push(data: Seq<Value>, x: Value)
    ensures
        pool_model(data.push(x)) == pool_model(data).push(value_model(x)),
{
    assert(pool_model(data.push(x)) =~= pool_model(data).push(value_model(x)));
}

/// Model of a chunk.
pub open spec fn chunk_model(c: Chunk) -> ChunkModel {
    ChunkModel { data: pool_model(c.data@), code: c.code@, bytes: c.bytes@ }
}

/// The empty chunk model.
pub open spec fn empty_chunk() -> ChunkModel {
    ChunkModel { data: Seq::empty(), code: Seq::empty(), bytes: Seq::empty() }
}

impl ChunkModel {
    /// One constant appended to the pool.
    pub open spec fn push_const(self, v: ValueModel) -> ChunkModel {
        ChunkModel { data: self.data.push(v), code: self.code, bytes: self.bytes }
    }

    /// One operand-less instruction appended.
    pub open spec fn push_op0(self, i: Instr) -> ChunkModel {
        ChunkModel {
            data: self.data,
            code: self.code.push(i),
            bytes: self.bytes + seq![instr_opcode(i)],
        }
    }

    /// One one-operand instruction appended.
    pub open spec fn push_op1(self, i: Instr, a: u8) -> ChunkModel {
        ChunkModel {
            data: self.data,
            code: self.code.push(i),
            bytes: self.bytes + seq![instr_opcode(i), a],
        }
    }

    /// One two-operand instruction appended.
    pub open spec fn push_op2(self, i: Instr, a: u8, b: u8) -> ChunkModel {
        ChunkModel {
            data: self.data,
            code: self.code.push(i),
            bytes: self.bytes + seq![instr_opcode(i), a, b],
        }
    }
}

/// The failures lowering can end in: a same-scope redeclaration, or a
/// constant pool grown past the one-byte address space.
pub enum CompErr {
    Already(Seq<char>),
    TooMany,
}

/// Whether an error value reports the given lowering failure.
pub open spec fn comp_err_matches(e: UmpteenError, k: CompErr) -> bool {
    match (e, k) {
        (UmpteenError::Memory(MemoryError::AlreadyDeclared(n)), CompErr::Already(nm)) => n@ == nm,
        (UmpteenError::Compiler(CompilerError::TooManyConstants), CompErr::TooMany) => true,
        _ => false,
    }
}

/// Lowering of one expression: operands are emitted before the instruction
/// that consumes them; every literal and every variable name takes a fresh
/// constant-pool slot, whose address must fit in one byte.
pub open spec fn comp_expr(e: Expr, c: ChunkModel) -> Result<ChunkModel, CompErr>
    decreases e,
{
    match e {
        Expr::Literal(v) => {
            let addr = c.data.len();
            if addr > 255 {
                Err(CompErr::TooMany)
            } else {
                Ok(c.push_const(v@).push_op1(Instr::Constant, addr as u8))
            }
        },
        Expr::Binding { name, index } => {
            let c1 = match index {
                None => Ok(c),
                Some(ix) => comp_expr(*ix, c),
            };
            match c1 {
                Err(k) => Err(k),
                Ok(c1) => {
                    let addr = c1.data.len();
                    if addr > 255 {
                        Err(CompErr::TooMany)
                    } else {
                        Ok(
                            c1.push_const(ValueModel::Str(name@)).push_op2(
                                Instr::Get,
                                addr as u8,
                                if index is Some {
                                    1
                                } else {
                                    0
                                },
                            ),
                        )
                    }
                },
            }
        },
        Expr::Assign { name, index, expr } => {
            let c1 = match index {
                None => Ok(c),
                Some(ix) => comp_expr(*ix, c),
            };
            match c1 {
                Err(k) => Err(k),
                Ok(c1) => match comp_expr(*expr, c1) {
                    Err(k) => Err(k),
                    Ok(c2) => {
                        let addr = c2.data.len();
                        if addr > 255 {
                            Err(CompErr::TooMany)
                        } else {
                            Ok(
                                c2.push_const(ValueModel::Str(name@)).push_op2(
                                    Instr::Assign,
                                    addr as u8,
                                    if index is Some {
                                        1
                                    } else {
                                        0
                                    },
                                ),
                            )
                        }
                    },
                },
            }
        },
        Expr::BinOp { left, right, op } => match comp_expr(*left, c) {
            Err(k) => Err(k),
            Ok(c1) => match comp_expr(*right, c1) {
                Err(k) => Err(k),
                Ok(c2) => Ok(c2.push_op1(Instr::BinOp, binary_byte(op))),
            },
        },
        Expr::UnOp { expr, op } => match comp_expr(*expr, c) {
            Err(k) => Err(k),
            Ok(c1) => Ok(c1.push_op1(Instr::UnOp, unary_byte(op))),
        },
    }
}

/// Lowering of one statement. A declaration registers the name in the
/// active scope's bindings, unassigned; its initializer, if any, compiles
/// to an assignment executed at run time.
pub open spec fn comp_stmt(
    s: Stmt,
    c: ChunkModel,
    g: Map<Seq<char>, Option<ValueModel>>,
) -> Result<(ChunkModel, Map<Seq<char>, Option<ValueModel>>), CompErr> {
    match s {
        Stmt::Declare { name, init } => {
            if g.contains_key(name@) {
                Err(CompErr::Already(name@))
            } else {
                let g1 = g.insert(name@, None);
                match init {
                    None => Ok((c, g1)),
                    Some(e) => match comp_expr(e, c) {
                        Err(k) => Err(k),
                        Ok(c1) => {
                            let addr = c1.data.len();
                            if addr > 255 {
                                Err(CompErr::TooMany)
                            } else {
                                Ok(
                                    (
                                        c1.push_const(ValueModel::Str(name@)).push_op2(
                                            Instr::Assign,
                                            addr as u8,
                                            0,
                                        ),
                                        g1,
                                    ),
                                )
                            }
                        },
                    },
                }
            }
        },
        Stmt::Expr(e) => match comp_expr(e, c) {
            Err(k) => Err(k),
            Ok(c1) => Ok((c1, g)),
        },
        Stmt::Print(e) => match comp_expr(e, c) {
            Err(k) => Err(k),
            Ok(c1) => Ok((c1.push_op0(Instr::Print), g)),
        },
        Stmt::Exit => Ok((c.push_op0(Instr::Exit), g)),
    }
}

/// Lowering of a statement list, front to back.
pub open spec fn comp_stmts(
    ss: Seq<Stmt>,
    c: ChunkModel,
    g: Map<Seq<char>, Option<ValueModel>>,
) -> Result<(ChunkModel, Map<Seq<char>, Option<ValueModel>>), CompErr>
    decreases ss.len(),
{
    if ss.len() == 0 {
        Ok((c, g))
    } else {
        match comp_stmt(ss[0], c, g) {
            Err(k) => Err(k),
            Ok((c1, g1)) => comp_stmts(ss.subrange(1, ss.len() as int), c1, g1),
        }
    }
}

/// Lowering of a whole program: the statement list, then the implicit exit
/// that guarantees the execution loop a defined halt condition even for an
/// empty statement list.
pub open spec fn comp_program(
    ss: Seq<Stmt>,
    g: Map<Seq<char>, Option<ValueModel>>,
) -> Result<(ChunkModel, Map<Seq<char>, Option<ValueModel>>), CompErr> {
    match comp_stmts(ss, empty_chunk(), g) {
        Err(k) => Err(k),
        Ok((c, g1)) => Ok((c.push_op0(Instr::Exit), g1)),
    }
}

/// A compiled program: its chunks and the environment carrying the new
/// declarations.
pub struct Program {
    pub env: Env,
    pub chunks: Vec<Chunk>,
}

/// The compiler walks one statement list and emits one chunk into the
/// environment it was given.
pub struct Compiler {
    /// The chunk being written.
    pub chunk: Chunk,
    /// The environment carrying declarations.
    pub env: Env,
}

impl Compiler {
    /// Starts a compilation into the given environment.
    pub fn new(env: Env) -> (r: Compiler)
        requires
            env.wf(),
        ensures
            r.env() == env,
            chunk_model(r.chunk_state()) == empty_chunk(),
    {
        let c = Compiler { chunk: Chunk::new(), env };
        proof {
            assert(chunk_model(c.chunk) =~= empty_chunk());
        }
        c
    }

    /// The environment being compiled into.
    pub open spec fn env(&self) -> Env {
        self.env
    }

    /// The chunk written so far.
    pub open spec fn chunk_state(&self) -> Chunk {
        self.chunk
    }

    /// Appends a name to the constant pool, handing back its one-byte
    /// address; a pool past the one-byte address space is a failure.
    fn write_name(&mut self, name: &String) -> (r: Result<u8, UmpteenError>)
        ensures
            final(self).env == old(self).env,
            match r {
                Ok(a) => old(self).chunk.data@.len() <= 255 && a as int == old(self).chunk.data@.len() && chunk_model(final(self).chunk) == chunk_model(
                    old(self).chunk,
                ).push_const(ValueModel::Str(name@)),
                Err(e) => old(self).chunk.data@.len() > 255 && comp_err_matches(
                    e,
                    CompErr::TooMany,
                ),
            },
    {
        let addr = self.chunk.write_val(Value::string(name.clone()));
        proof {
            lemma_pool_push(old(self).chunk.data@, self.chunk.data@.last());
        }
        if addr > 255 {
            return Err(UmpteenError::Compiler(CompilerError::TooManyConstants));
        }
        Ok(addr as u8)
    }

    /// Lowers one expression into the chunk, as the lowering model says.
    fn compile_expr(&mut self, e: &Expr) -> (r: Result<(), UmpteenError>)
        ensures
            final(self).env == old(self).env,
            match r {
                Ok(()) => comp_expr(*e, chunk_model(old(self).chunk)) == Ok::<_, CompErr>(
                    chunk_model(final(self).chunk),
                ),
                Err(er) => comp_expr(*e, chunk_model(old(self).chunk)) matches Err(k)
                    && comp_err_matches(er, k),
            },
        decreases *e,
    {
        match e {
            Expr::Literal(v) => {
                let addr = self.chunk.write_val(v.dup());
                proof {
                    lemma_pool_push(old(self).chunk.data@, self.chunk.data@.last());
                }
                if addr > 255 {
                    return Err(UmpteenError::Compiler(CompilerError::TooManyConstants));
                }
                self.chunk.write_op1(Instr::Constant, addr as u8);
                Ok(())
            },
            Expr::Binding { name, index } => {
                let has_index: u8 = match index {
                    None => 0,
                    Some(ix) => {
                        self.compile_expr(ix)?;
                        1
                    },
                };
                let addr = self.write_name(name)?;
                self.chunk.write_op2(Instr::Get, addr, has_index);
                Ok(())
            },
            Expr::Assign { name, index, expr } => {
                let has_index: u8 = match index {
                    None => 0,
                    Some(ix) => {
                        self.compile_expr(ix)?;
                        1
                    },
                };
                self.compile_expr(expr)?;
                let addr = self.write_name(name)?;
                self.chunk.write_op2(Instr::Assign, addr, has_index);
                Ok(())
            },
            Expr::BinOp { left, right, op } => {
                self.compile_expr(left)?;
                self.compile_expr(right)?;
                self.chunk.write_op1(Instr::BinOp, op.to_byte());
                Ok(())
            },
            Expr::UnOp { expr, op } => {
                self.compile_expr(expr)?;
                self.chunk.write_op1(Instr::UnOp, op.to_byte());
                Ok(())
            },
        }
    }
}

/// Lowering a one-statement list is lowering that statement.
pub proof fn lemma_comp_stmts_singleton(
    x: Stmt,
    c: ChunkModel,
    g: Map<Seq<char>, Option<ValueModel>>,
)
    ensures
        comp_stmts(seq![x], c, g) == match comp_stmt(x, c, g) {
            Err(k) => Err(k),
            Ok((c1, g1)) => Ok((c1, g1)),
        },
{
    reveal_with_fuel(comp_stmts, 2);
    assert(seq![x].subrange(1, 1) =~= Seq::<Stmt>::empty());
    assert(seq![x][0] == x);
    match comp_stmt(x, c, g) {
        Err(_) => {},
        Ok((c1, g1)) => {
            assert(comp_stmts(seq![x].subrange(1, 1), c1, g1) == Ok::<_, CompErr>((c1, g1)));
        },
    }
}

/// Lowering a statement list decomposes around any split point.
pub proof fn lemma_comp_stmts_append(
    a: Seq<Stmt>,
    b: Seq<Stmt>,
    c: ChunkModel,
    g: Map<Seq<char>, Option<ValueModel>>,
)
    ensures
        comp_stmts(a + b, c, g) == match comp_stmts(a, c, g) {
            Err(k) => Err(k),
            Ok((c1, g1)) => comp_stmts(b, c1, g1),
        },
    decreases a.len(),
{
    if a.len() == 0 {
        assert(a + b =~= b);
    } else {
        assert((a + b)[0] == a[0]);
        assert((a + b).subrange(1, (a + b).len() as int) =~= a.subrange(1, a.len() as int) + b);
        match comp_stmt(a[0], c, g) {
            Err(_) => {},
            Ok((c1, g1)) => {
                lemma_comp_stmts_append(a.subrange(1, a.len() as int), b, c1, g1);
            },
        }
    }
}

impl Compiler {
    /// Lowers one statement into the chunk and the environment's active
    /// scope, as the lowering model says.
    fn compile_stmt(&mut self, s: &Stmt) -> (r: Result<(), UmpteenError>)
        requires
            old(self).env.wf(),
        ensures
            final(self).env.wf(),
            final(self).env.current == old(self).env.current,
            final(self).env.glob_key == old(self).env.glob_key,
            final(self).env.scopes@.len() == old(self).env.scopes@.len(),
            forall|j: int|
                0 <= j < old(self).env.scopes@.len() && j != old(self).env.active() ==> final(self).env.scopes@[j] == old(self).env.scopes@[j],
            final(self).env.scopes@[old(self).env.active()].parent == old(self).env.scopes@[old(self).env.active()].parent,
            match r {
                Ok(()) => comp_stmt(
                    *s,
                    chunk_model(old(self).chunk),
                    old(self).env.scopes@[old(self).env.active()].map(),
                ) == Ok::<_, CompErr>(
                    (
                        chunk_model(final(self).chunk),
                        final(self).env.scopes@[old(self).env.active()].map(),
                    ),
                ),
                Err(er) => comp_stmt(
                    *s,
                    chunk_model(old(self).chunk),
                    old(self).env.scopes@[old(self).env.active()].map(),
                ) matches Err(k) && comp_err_matches(er, k),
            },
    {
        match s {
            Stmt::Declare { name, init } => {
                match self.env.declare(name.as_str()) {
                    Err(e) => {
                        return Err(UmpteenError::Memory(e));
                    },
                    Ok(()) => {},
                }
                match init {
                    None => Ok(()),
                    Some(e) => {
                        self.compile_expr(e)?;
                        let addr = self.write_name(name)?;
                        self.chunk.write_op2(Instr::Assign, addr, 0);
                        Ok(())
                    },
                }
            },
            Stmt::Expr(e) => self.compile_expr(e),
            Stmt::Print(e) => {
                self.compile_expr(e)?;
                self.chunk.write_op0(Instr::Print);
                Ok(())
            },
            Stmt::Exit => {
                self.chunk.write_op0(Instr::Exit);
                Ok(())
            },
        }
    }

    /// Lowers a whole program: every statement in order, then the implicit
    /// exit. On success the result carries the single chunk produced and the
    /// environment with the new declarations in its active scope.
    #[verifier::rlimit(60)]
    #[verifier::loop_isolation(false)]
    pub fn compile(self, ast: &Ast) -> (r: Result<Program, UmpteenError>)
        requires
            self.env.wf(),
        ensures
            match r {
                Ok(p) => comp_stmts(
                    ast@,
                    chunk_model(self.chunk),
                    self.env.scopes@[self.env.active()].map(),
                ) matches Ok((cm, g)) && {
                    &&& p.chunks@.len() == 1
                    &&& chunk_model(p.chunks@[0]) == cm.push_op0(Instr::Exit)
                    &&& p.env.wf()
                    &&& p.env.current == self.env.current
                    &&& p.env.glob_key == self.env.glob_key
                    &&& p.env.scopes@.len() == self.env.scopes@.len()
                    &&& (forall|j: int|
                        0 <= j < self.env.scopes@.len() && j != self.env.active() ==> p.env.scopes@[
                            j
                        ] == self.env.scopes@[j])
                    &&& p.env.scopes@[self.env.active()].map() == g
                    &&& p.env.scopes@[self.env.active()].parent == self.env.scopes@[self.env.active()].parent
                },
                Err(er) => ({
                    let res = comp_stmts(
                        ast@,
                        chunk_model(self.chunk),
                        self.env.scopes@[self.env.active()].map(),
                    );
                    res is Err && comp_err_matches(er, res->Err_0)
                }),
            },
    {
        let mut this = self;
        let ghost c0 = chunk_model(this.chunk);
        let ghost g0 = this.env.scopes@[this.env.active()].map();
        let ghost e0 = this.env;
        let mut i: usize = 0;
        while i < ast.len()
            invariant
                i <= ast@.len(),
                this.env.wf(),
                this.env.current == e0.current,
                this.env.glob_key == e0.glob_key,
                this.env.scopes@.len() == e0.scopes@.len(),
                this.env.active() == e0.active(),
                forall|j: int|
                    0 <= j < e0.scopes@.len() && j != e0.active() ==> this.env.scopes@[j]
                        == e0.scopes@[j],
                this.env.scopes@[e0.active()].parent == e0.scopes@[e0.active()].parent,
                comp_stmts(ast@.take(i as int), c0, g0) == Ok::<_, CompErr>(
                    (chunk_model(this.chunk), this.env.scopes@[e0.active()].map()),
                ),
            decreases ast@.len() - i,
        {
            let ghost pre_c = chunk_model(this.chunk);
            let ghost pre_g = this.env.scopes@[e0.active()].map();
            let res = this.compile_stmt(&ast[i]);
            proof {
                assert(ast@.take(i as int) + seq![ast@[i as int]] =~= ast@.take(i + 1 as int));
                lemma_comp_stmts_append(ast@.take(i as int), seq![ast@[i as int]], c0, g0);
                lemma_comp_stmts_singleton(ast@[i as int], pre_c, pre_g);
            }
            match res {
                Ok(()) => {},
                Err(er) => {
                    proof {
                        let rest = ast@.subrange(i as int, ast@.len() as int);
                        assert(ast@.take(i as int) + rest =~= ast@);
                        lemma_comp_stmts_append(ast@.take(i as int), rest, c0, g0);
                        assert(rest[0] == ast@[i as int]);
                        assert(rest.subrange(1, rest.len() as int) =~= ast@.subrange(
                            i + 1 as int,
                            ast@.len() as int,
                        ));
                        let x = ast@[i as int];
                        assert(comp_stmt(x, pre_c, pre_g) matches Err(_));
                        assert(comp_stmts(rest, pre_c, pre_g) == comp_stmt(x, pre_c, pre_g));
                        assert(comp_stmts(ast@, c0, g0) == comp_stmt(x, pre_c, pre_g));
                        if let Err(k0) = comp_stmt(x, pre_c, pre_g) {
                            assert(comp_err_matches(er, k0));
                        }
                    }
                    return Err(er);
                },
            }
            proof {
                let x = ast@[i as int];
                let cur = (chunk_model(this.chunk), this.env.scopes@[e0.active()].map());
                assert(comp_stmt(x, pre_c, pre_g) == Ok::<_, CompErr>(cur));
                assert(comp_stmts(seq![x], pre_c, pre_g) == Ok::<_, CompErr>(cur));
                assert(comp_stmts(ast@.take(i as int) + seq![x], c0, g0) == Ok::<_, CompErr>(cur));
                assert(comp_stmts(ast@.take(i + 1 as int), c0, g0) == Ok::<_, CompErr>(cur));
            }
            i += 1;
        }
        proof {
            assert(ast@.take(ast@.len() as int) =~= ast@);
        }
        this.chunk.write_op0(Instr::Exit);
        let mut chunks: Vec<Chunk> = Vec::new();
        chunks.push(this.chunk);
        Ok(Program { env: this.env, chunks })
    }
}

} // verus!
