//! The library's laws: statements that tie the pieces together, proved
//! from the models the contracts are written against.

use vstd::prelude::*;

use crate::ast::{Expr, Stmt};
use crate::compile::{comp_program, empty_chunk};
use crate::env::{padded_update, EnvModel, MemErr, ScopeModel};
use crate::error::{ParseError, RuntimeError};
use crate::instr::{instr_opcode, Instr};
use crate::ops::Binary;
use crate::lexer::{
    digits_end, ident_end, keyword_kind, scan_model, scan_token_model, TokenModel,
};
use crate::parse::{digits_value, p_stmts, ExprModel, StmtModel};
use crate::token::TokenType;
use crate::runtime::{
    exec_chunks, exec_from, fresh_runtime, out_model, program_run_matches, stack_model,
    ExecOutcome, VmErr, VmState,
};
use crate::value::{binary_result, kind_of, render_model, value_model, Value, ValueModel};

verus! {

/// A value appended to the constant pool and then loaded through the
/// returned address comes back exactly: executing a constant-load that
/// references the new slot, as the only instruction, yields that very
/// value as the run's result, with the rest of the state untouched.
pub proof fn lemma_write_then_load(data: Seq<ValueModel>, v: ValueModel, st: VmState)
    requires
        st.env.wf(),
        data.len() <= 255,
    ensures
        ({
            let data2 = data.push(v);
            let bytes = seq![instr_opcode(Instr::Constant), data.len() as u8];
            let outcome = exec_from(data2, bytes, st, 0);
            &&& outcome.result == Ok::<_, VmErr>(v)
            &&& outcome.state == st
        }),
{
    let data2 = data.push(v);
    let bytes = seq![instr_opcode(Instr::Constant), data.len() as u8];
    let pushed = VmState { env: st.env, stack: st.stack.push(crate::runtime::StackEntry::Value(v)), out: st.out };
    assert(bytes[0] == 0);
    assert(bytes[1] == data.len() as u8);
    assert(data2[data.len() as int] == v);
    assert(exec_from(data2, bytes, st, 0) == exec_from(data2, bytes, pushed, 2));
    assert(pushed.stack.last() == crate::runtime::StackEntry::Value(v));
    assert(pushed.stack.drop_last() =~= st.stack);
    assert(exec_from(data2, bytes, pushed, 2).result == Ok::<_, VmErr>(v));
    assert(exec_from(data2, bytes, pushed, 2).state =~= st);
}

/// A print executed against an empty operand stack is a stack-underflow
/// failure, never a no-op.
pub proof fn lemma_print_underflow(data: Seq<ValueModel>, bytes: Seq<u8>, st: VmState)
    requires
        st.env.wf(),
        st.stack.len() == 0,
        bytes.len() > 0,
        bytes[0] == instr_opcode(Instr::Print),
    ensures
        exec_from(data, bytes, st, 0).result == Err::<ValueModel, VmErr>(
            VmErr::Abort(RuntimeError::StackMissingValue),
        ),
{
}

/// A run of nothing but the halt instruction terminates at once, returning
/// the empty value off an empty stack.
pub proof fn lemma_exit_returns_empty(data: Seq<ValueModel>, st: VmState)
    requires
        st.env.wf(),
        st.stack.len() == 0,
    ensures
        ({
            let outcome = exec_from(data, seq![instr_opcode(Instr::Exit)], st, 0);
            &&& outcome.result == Ok::<_, VmErr>(ValueModel::Empty)
            &&& outcome.state == st
        }),
{
    let bytes = seq![instr_opcode(Instr::Exit)];
    assert(bytes[0] == 255);
}

/// Declaring a name twice in the exact same scope fails with the
/// already-declared condition; a fresh enclosed scope made active admits
/// the same name again, whatever the outer scopes hold: shadowing across
/// scopes is permitted, only same-scope redeclaration is rejected.
pub proof fn lemma_declare_shadowing(em: EnvModel, name: Seq<char>)
    requires
        em.wf(),
    ensures
        em.scopes[em.active()].map.contains_key(name) ==> em.do_declare(name) == Err::<
            EnvModel,
            MemErr,
        >(MemErr::AlreadyDeclared),
        ({
            let child = EnvModel {
                scopes: em.scopes.push(
                    ScopeModel {
                        map: Map::<Seq<char>, Option<ValueModel>>::empty(),
                        parent: em.current,
                    },
                ),
                current: Some(em.scopes.len() as int),
            };
            child.wf() && child.do_declare(name) is Ok
        }),
{
    let child = EnvModel {
        scopes: em.scopes.push(
            ScopeModel {
                map: Map::<Seq<char>, Option<ValueModel>>::empty(),
                parent: em.current,
            },
        ),
        current: Some(em.scopes.len() as int),
    };
    assert forall|i: int|
        0 <= i < child.scopes.len() implies ((#[trigger] child.scopes[i]).parent matches Some(p)
        ==> 0 <= p < i) by {
        if i < em.scopes.len() {
            assert(child.scopes[i] == em.scopes[i]);
        }
    }
    assert(!child.scopes[child.active()].map.contains_key(name));
}

/// Assigning through a name no scope on the lookup chain declares fails
/// with the no-such-variable condition; after a declaration, even one
/// without an initializer, an assignment succeeds and a subsequent read
/// yields exactly the assigned value.
pub proof fn lemma_assign_then_get(em: EnvModel, name: Seq<char>, vm: ValueModel)
    requires
        em.wf(),
    ensures
        em.resolve(name) is None ==> em.do_assign(name, None, vm) == Err::<EnvModel, MemErr>(
            MemErr::NoSuchVariable,
        ),
        em.do_declare(name) matches Ok(em1) ==> ({
            &&& em1.wf()
            &&& em1.do_assign(name, None, vm) matches Ok(em2)
            &&& em1.do_assign(name, None, vm)->Ok_0.do_get(name, None) == Ok::<ValueModel, MemErr>(
                vm,
            )
        }),
{
    if em.do_declare(name) is Ok {
        let em1 = em.do_declare(name)->Ok_0;
        assert forall|i: int|
            0 <= i < em1.scopes.len() implies ((#[trigger] em1.scopes[i]).parent matches Some(p)
            ==> 0 <= p < i) by {
            assert(em1.scopes[i].parent == em.scopes[i].parent);
        }
        assert(em1.wf());
        assert(em1.scopes[em1.active()].map.contains_key(name));
        assert(em1.resolve(name) == Some(em1.active()));
        assert(em1.lookup(name) == Some(None::<ValueModel>));
        let em2 = em1.do_assign(name, None, vm)->Ok_0;
        assert forall|i: int|
            0 <= i < em2.scopes.len() implies ((#[trigger] em2.scopes[i]).parent matches Some(p)
            ==> 0 <= p < i) by {
            assert(em2.scopes[i].parent == em1.scopes[i].parent);
        }
        assert(em2.wf());
        assert(em2.scopes[em2.active()].map.contains_key(name));
        assert(em2.resolve(name) == Some(em2.active()));
        assert(em2.do_get(name, None) == Ok::<ValueModel, MemErr>(vm));
    }
}

/// An indexed write past the end of a list grows it with empty values up
/// to the new slot and sets exactly that slot; slots below the old length
/// keep their values.
pub proof fn lemma_padded_write(l: Seq<ValueModel>, i: int, v: ValueModel)
    requires
        i >= l.len(),
        i >= 0,
    ensures
        padded_update(l, i, v).len() == i + 1,
        forall|j: int| 0 <= j < l.len() ==> padded_update(l, i, v)[j] == l[j],
        forall|j: int| l.len() <= j < i ==> padded_update(l, i, v)[j] == ValueModel::Empty,
        padded_update(l, i, v)[i] == v,
{
}

/// Arithmetic between two numbers follows the operator's own semantics;
/// arithmetic between a number and a non-number fails with an
/// illegal-operation error naming both operand kinds and the operator.
pub proof fn lemma_arithmetic(a: ValueModel, b: ValueModel, op: Binary)
    ensures
        (a matches ValueModel::Number(x) && b matches ValueModel::Number(y)) ==> match op {
            Binary::Add => binary_result(op, a, b) == Ok::<ValueModel, ParseError>(
                ValueModel::Number(a->Number_0.wrapping_add(b->Number_0)),
            ),
            Binary::Subtract => binary_result(op, a, b) == Ok::<ValueModel, ParseError>(
                ValueModel::Number(a->Number_0.wrapping_sub(b->Number_0)),
            ),
            Binary::Multiply => binary_result(op, a, b) == Ok::<ValueModel, ParseError>(
                ValueModel::Number(a->Number_0.wrapping_mul(b->Number_0)),
            ),
            _ => true,
        },
        !(a is Number && b is Number) ==> binary_result(op, a, b) == Err::<
            ValueModel,
            ParseError,
        >(ParseError::IllegalBinaryOperation(kind_of(a), kind_of(b), op)),
{
}

/// A program consisting solely of a declaration binding a literal and a
/// print of that name compiles and runs to exactly one output line: the
/// literal's display form. The run itself ends in the empty value.
pub proof fn lemma_let_print_renders_literal(name: String, v: Value)
    ensures
        ({
            let ast = seq![
                Stmt::Declare { name: name, init: Some(Expr::Literal(v)) },
                Stmt::Print(Expr::Binding { name: name, index: None }),
                Stmt::Exit,
            ];
            let g0 = Map::<Seq<char>, Option<ValueModel>>::empty();
            comp_program(ast, g0) matches Ok((cm, g1)) && ({
                let em0 = EnvModel {
                    scopes: seq![ScopeModel { map: g1, parent: None }],
                    current: None,
                };
                let st0 = VmState { env: em0, stack: Seq::empty(), out: Seq::empty() };
                let outcome = exec_from(cm.data, cm.bytes, st0, 0);
                &&& outcome.result == Ok::<_, VmErr>(ValueModel::Empty)
                &&& outcome.state.out == seq![render_model(value_model(v))]
            })
        }),
{
    let s1 = Stmt::Declare { name: name, init: Some(Expr::Literal(v)) };
    let s2 = Stmt::Print(Expr::Binding { name: name, index: None });
    let s3 = Stmt::Exit;
    let ast = seq![s1, s2, s3];
    let g0 = Map::<Seq<char>, Option<ValueModel>>::empty();
    let g1 = g0.insert(name@, None);

    let c0 = empty_chunk();
    let c1 = c0.push_const(value_model(v)).push_op1(Instr::Constant, 0);
    let c2 = c1.push_const(ValueModel::Str(name@)).push_op2(Instr::Assign, 1, 0);
    let c3 = c2.push_const(ValueModel::Str(name@)).push_op2(Instr::Get, 2, 0);
    let c4 = c3.push_op0(Instr::Print);
    let c5 = c4.push_op0(Instr::Exit);
    let c6 = c5.push_op0(Instr::Exit);

    assert(crate::compile::comp_expr(Expr::Literal(v), c0) == Ok::<_, crate::compile::CompErr>(
        c1,
    ));
    assert(crate::compile::comp_stmt(s1, c0, g0) == Ok::<_, crate::compile::CompErr>((c2, g1)));
    assert(c2.data.len() == 2);
    assert(crate::compile::comp_expr(Expr::Binding { name: name, index: None }, c2) == Ok::<
        _,
        crate::compile::CompErr,
    >(c3));
    assert(crate::compile::comp_stmt(s2, c2, g1) == Ok::<_, crate::compile::CompErr>((c4, g1)));
    assert(crate::compile::comp_stmt(s3, c4, g1) == Ok::<_, crate::compile::CompErr>((c5, g1)));

    assert(ast.subrange(1, 3) =~= seq![s2, s3]);
    assert(seq![s2, s3].subrange(1, 2) =~= seq![s3]);
    assert(seq![s3].subrange(1, 1) =~= Seq::<Stmt>::empty());
    crate::compile::lemma_comp_stmts_singleton(s3, c4, g1);
    assert(crate::compile::comp_stmts(seq![s3], c4, g1) == Ok::<_, crate::compile::CompErr>(
        (c5, g1),
    ));
    assert(crate::compile::comp_stmts(seq![s2, s3], c2, g1) == Ok::<
        _,
        crate::compile::CompErr,
    >((c5, g1)));
    assert(crate::compile::comp_stmts(ast, c0, g0) == Ok::<_, crate::compile::CompErr>(
        (c5, g1),
    ));
    assert(comp_program(ast, g0) == Ok::<_, crate::compile::CompErr>((c6, g1)));

    let data = c6.data;
    let bytes = c6.bytes;
    assert(data =~= seq![value_model(v), ValueModel::Str(name@), ValueModel::Str(name@)]);
    assert(bytes =~= seq![0u8, 0u8, 3u8, 1u8, 0u8, 4u8, 2u8, 0u8, 1u8, 255u8, 255u8]);

    let em0 = EnvModel { scopes: seq![ScopeModel { map: g1, parent: None }], current: None };
    let st0 = VmState { env: em0, stack: Seq::empty(), out: Seq::empty() };
    assert(em0.wf());

    // Load the literal.
    let st1 = VmState {
        env: em0,
        stack: st0.stack.push(crate::runtime::StackEntry::Value(value_model(v))),
        out: st0.out,
    };
    assert(bytes[0] == 0 && bytes[1] == 0);
    assert(data[0] == value_model(v));
    assert(exec_from(data, bytes, st0, 0) == exec_from(data, bytes, st1, 2));

    // Assign it to the declared name.
    assert(bytes[2] == 3 && bytes[3] == 1 && bytes[4] == 0);
    assert(data[1] == ValueModel::Str(name@));
    assert(st1.stack.last() == crate::runtime::StackEntry::Value(value_model(v)));
    assert(st1.stack.drop_last() =~= st0.stack);
    assert(em0.scopes[0].map.contains_key(name@));
    assert(em0.resolve(name@) == Some(0int));
    assert(em0.lookup(name@) == Some(None::<ValueModel>));
    let em1 = em0.do_assign(name@, None, value_model(v))->Ok_0;
    assert(em1.scopes.len() == 1);
    assert(em1.scopes[0].parent is None);
    assert(em1.wf());
    let st2 = VmState { env: em1, stack: st0.stack, out: st0.out };
    assert(exec_from(data, bytes, st1, 2) == exec_from(data, bytes, st2, 5));

    // Read the name back.
    assert(bytes[5] == 4 && bytes[6] == 2 && bytes[7] == 0);
    assert(data[2] == ValueModel::Str(name@));
    assert(em1.scopes[0].map.contains_key(name@));
    assert(em1.resolve(name@) == Some(0int));
    assert(em1.scopes[0].map[name@] == Some(value_model(v)));
    assert(em1.do_get(name@, None) == Ok::<ValueModel, MemErr>(value_model(v)));
    let st3 = VmState {
        env: em1,
        stack: st2.stack.push(crate::runtime::StackEntry::Value(value_model(v))),
        out: st2.out,
    };
    assert(exec_from(data, bytes, st2, 5) == exec_from(data, bytes, st3, 8));

    // Print it.
    assert(bytes[8] == 1);
    assert(st3.stack.last() == crate::runtime::StackEntry::Value(value_model(v)));
    assert(st3.stack.drop_last() =~= st2.stack);
    let st4 = VmState {
        env: em1,
        stack: st2.stack,
        out: st2.out.push(render_model(value_model(v))),
    };
    assert(exec_from(data, bytes, st3, 8) == exec_from(data, bytes, st4, 9));

    // Halt.
    assert(bytes[9] == 255);
    assert(st4.stack.len() == 0);
    assert(exec_from(data, bytes, st4, 9) == ExecOutcome {
        state: st4,
        result: Ok(ValueModel::Empty),
    });
    assert(st4.out =~= seq![render_model(value_model(v))]);
}

/// A resolved scope identity lies in the arena and declares the name.
proof fn lemma_model_resolve_in_range(em: EnvModel, sid: int, name: Seq<char>)
    requires
        em.wf(),
        0 <= sid < em.scopes.len(),
    ensures
        em.resolve_from(sid, name) matches Some(r) ==> 0 <= r < em.scopes.len()
            && em.scopes[r].map.contains_key(name),
    decreases sid,
{
    if !em.scopes[sid].map.contains_key(name) {
        match em.scopes[sid].parent {
            Some(p) => {
                lemma_model_resolve_in_range(em, p, name);
            },
            None => {},
        }
    }
}

/// The chain walk sees only which scope holds the name: two environments
/// with the same shape and the same per-scope answer for a name resolve it
/// to the same scope.
proof fn lemma_resolve_same_domains(em1: EnvModel, em2: EnvModel, sid: int, name: Seq<char>)
    requires
        em1.wf(),
        em2.wf(),
        em2.scopes.len() == em1.scopes.len(),
        forall|i: int|
            0 <= i < em1.scopes.len() ==> (#[trigger] em2.scopes[i]).parent == em1.scopes[
                i
            ].parent,
        forall|i: int|
            0 <= i < em1.scopes.len() ==> (#[trigger] em2.scopes[i]).map.contains_key(name)
                == em1.scopes[i].map.contains_key(name),
        0 <= sid < em1.scopes.len(),
    ensures
        em2.resolve_from(sid, name) == em1.resolve_from(sid, name),
    decreases sid,
{
    if !em1.scopes[sid].map.contains_key(name) {
        match em1.scopes[sid].parent {
            Some(p) => {
                lemma_resolve_same_domains(em1, em2, p, name);
            },
            None => {},
        }
    }
}

/// An indexed write past the end of a stored list succeeds, grows the list
/// with empty values up to the new slot and sets exactly that slot, and a
/// subsequent read of the name sees the grown list: original elements
/// unchanged, gap slots empty, the new slot holding the value.
pub proof fn lemma_indexed_assign_grows_list(
    em: EnvModel,
    name: Seq<char>,
    l: Seq<ValueModel>,
    idx: int,
    vm: ValueModel,
)
    requires
        em.wf(),
        em.lookup(name) == Some(Some(ValueModel::List(l))),
        l.len() <= idx,
    ensures
        em.do_assign(name, Some(idx), vm) matches Ok(em2) && ({
            let l2 = padded_update(l, idx, vm);
            &&& em2.wf()
            &&& em2.lookup(name) == Some(Some(ValueModel::List(l2)))
            &&& l2.len() == idx + 1
            &&& (forall|j: int| 0 <= j < l.len() ==> l2[j] == l[j])
            &&& (forall|j: int| l.len() <= j < idx ==> l2[j] == ValueModel::Empty)
            &&& l2[idx] == vm
        }),
{
    lemma_model_resolve_in_range(em, em.active(), name);
    let sid = em.resolve(name).unwrap();
    let l2 = padded_update(l, idx, vm);
    assert(crate::env::write_result(em.lookup(name), Some(idx), vm) == Ok::<ValueModel, MemErr>(
        ValueModel::List(l2),
    ));
    assert(em.do_assign(name, Some(idx), vm) is Ok);
    let em2 = em.do_assign(name, Some(idx), vm)->Ok_0;
    assert(em2.scopes == em.scopes.update(
        sid,
        ScopeModel {
            map: em.scopes[sid].map.insert(name, Some(ValueModel::List(l2))),
            parent: em.scopes[sid].parent,
        },
    ));
    assert(em2.current == em.current);
    assert forall|i: int|
        0 <= i < em2.scopes.len() implies ((#[trigger] em2.scopes[i]).parent matches Some(p)
        ==> 0 <= p < i) by {
        assert(em2.scopes[i].parent == em.scopes[i].parent);
    }
    assert(em2.wf());
    assert forall|i: int|
        0 <= i < em.scopes.len() implies (#[trigger] em2.scopes[i]).map.contains_key(name)
        == em.scopes[i].map.contains_key(name) by {}
    lemma_resolve_same_domains(em, em2, em.active(), name);
    assert(em2.resolve(name) == Some(sid));
    assert(em2.scopes[sid].map[name] == Some(ValueModel::List(l2)));
    lemma_padded_write(l, idx, vm);
}

/// The empty-program law, at the program contract: the statement list an
/// empty source parses to is the exit statement alone, and any result the
/// program contract allows for it on a fresh runtime is a success carrying
/// the empty value, with no output written.
pub proof fn lemma_run_program_empty(
    pre: crate::runtime::Runtime,
    post: crate::runtime::Runtime,
    r: Result<Value, crate::error::UmpteenError>,
)
    requires
        fresh_runtime(pre),
        program_run_matches(pre, post, seq![Stmt::Exit], r),
    ensures
        r matches Ok(res) && res@ == ValueModel::Empty,
        out_model(post.out@) == Seq::<Seq<char>>::empty(),
{
    let ast = seq![Stmt::Exit];
    let g0 = Map::<Seq<char>, Option<ValueModel>>::empty();
    let e0 = pre.env;
    assert(e0@.scopes[0] == crate::env::scope_model(e0.scopes@[0]));
    assert(e0.scopes@[0].map() == g0);
    assert(e0.active() == 0);

    assert(ast.subrange(1, 1) =~= Seq::<Stmt>::empty());
    crate::compile::lemma_comp_stmts_singleton(Stmt::Exit, empty_chunk(), g0);
    let (cm, g1) = comp_program(ast, g0)->Ok_0;
    assert(cm.bytes =~= seq![instr_opcode(Instr::Exit), instr_opcode(Instr::Exit)]);

    let em1 = EnvModel {
        scopes: e0@.scopes.update(0, ScopeModel { map: g1, parent: e0@.scopes[0].parent }),
        current: e0@.current,
    };
    let st1 = VmState {
        env: em1,
        stack: stack_model(pre.stack@),
        out: out_model(pre.out@),
    };
    assert(stack_model(pre.stack@) =~= Seq::<crate::runtime::StackEntry>::empty());
    assert(out_model(pre.out@) =~= Seq::<Seq<char>>::empty());
    assert(em1.wf());
    assert(cm.bytes[0] == 255);
    assert(exec_from(cm.data, cm.bytes, st1, 0) == (ExecOutcome {
        state: st1,
        result: Ok(ValueModel::Empty),
    }));
    assert(exec_chunks(seq![cm], st1) == exec_from(cm.data, cm.bytes, st1, 0));
}

/// The hello-world source, through the front-end models: scanning
/// `print 10;` yields the print keyword, the number, and the semicolon,
/// and parsing that stream yields a print of the literal ten closed by
/// the exit statement.
pub proof fn lemma_hello_world_parses()
    ensures
        ({
            let ts = scan_model("print 10;"@, 0, 1);
            p_stmts(ts, 0) == Ok::<Seq<StmtModel>, crate::parse::PErrModel>(
                seq![
                    StmtModel::Print(ExprModel::Literal(ValueModel::Number(10))),
                    StmtModel::Exit,
                ],
            )
        }),
{
    let src = "print 10;"@;
    reveal_strlit("print 10;");
    assert(src.len() == 9);
    assert(ident_end(src, 1) == 5) by {
        assert(src[1] == 'r' && src[2] == 'i' && src[3] == 'n' && src[4] == 't' && src[5]
            == ' ');
        reveal_with_fuel(ident_end, 6);
    }
    let lx = src.subrange(0, 5);
    reveal_strlit("print");
    assert(lx =~= "print"@);
    reveal_strlit("Empty");
    reveal_strlit("true");
    reveal_strlit("false");
    reveal_strlit("let");
    assert(keyword_kind(lx) == TokenType::Print) by {
        assert(lx[0] == 'p' && "Empty"@[0] == 'E');
        assert(lx.len() == 5 && "true"@.len() == 4 && "let"@.len() == 3);
        assert(lx[0] == 'p' && "false"@[0] == 'f');
        assert(lx != "Empty"@);
        assert(lx != "true"@);
        assert(lx != "false"@);
        assert(lx != "let"@);
    }
    let tok_print = TokenModel { kind: TokenType::Print, lexeme: "print"@, line: 1u64 };
    assert(scan_token_model(src, 0, 1).token == Some(tok_print));
    assert(scan_token_model(src, 0, 1).offset == 5);

    assert(scan_token_model(src, 5, 1).token is None);
    assert(scan_token_model(src, 5, 1).offset == 6);

    assert(digits_end(src, 7) == 8) by {
        assert(src[6] == '1' && src[7] == '0' && src[8] == ';');
        reveal_with_fuel(digits_end, 3);
    }
    let num = src.subrange(6, 8);
    reveal_strlit("10");
    assert(num =~= "10"@);
    let tok_num = TokenModel { kind: TokenType::Number, lexeme: "10"@, line: 1u64 };
    assert(scan_token_model(src, 6, 1).token == Some(tok_num));
    assert(scan_token_model(src, 6, 1).offset == 8);

    reveal_strlit(";");
    assert(src.subrange(8, 9) =~= ";"@);
    let tok_semi = TokenModel { kind: TokenType::Semicolon, lexeme: ";"@, line: 1u64 };
    assert(scan_token_model(src, 8, 1).token == Some(tok_semi));
    assert(scan_token_model(src, 8, 1).offset == 9);

    let tok_eof = TokenModel { kind: TokenType::Eof, lexeme: Seq::empty(), line: 1u64 };
    assert(scan_model(src, 9, 1) == seq![tok_eof]);
    let ts = seq![tok_print, tok_num, tok_semi, tok_eof];
    assert(scan_model(src, 0, 1) =~= ts) by {
        assert(scan_model(src, 8, 1) =~= seq![tok_semi] + seq![tok_eof]);
        assert(scan_model(src, 6, 1) =~= seq![tok_num] + scan_model(src, 8, 1));
        assert(scan_model(src, 5, 1) == scan_model(src, 6, 1));
        assert(scan_model(src, 0, 1) =~= seq![tok_print] + scan_model(src, 5, 1));
    }

    // Parse the four-token stream.
    assert(crate::parse::stream_wf(ts));
    let lit = ExprModel::Literal(ValueModel::Number(10));
    assert(crate::parse::all_digits("10"@)) by {
        assert(forall|i: int| 0 <= i < 2 ==> '0' <= #[trigger] "10"@[i] <= '9');
    }
    assert(digits_value("10"@) == 10) by {
        assert("10"@.drop_last() =~= seq!['1']);
        assert(seq!['1'].drop_last() =~= Seq::<char>::empty());
        reveal_with_fuel(digits_value, 3);
    }
    assert(crate::parse::p_primary(ts, 1) == Ok::<(ExprModel, int), crate::parse::PErrModel>(
        (lit, 2),
    ));
    assert(crate::parse::p_unary(ts, 1) == Ok::<(ExprModel, int), crate::parse::PErrModel>(
        (lit, 2),
    ));
    assert(crate::parse::held(4, 1, 2) == 2);
    assert(crate::parse::p_factor_more(ts, 2, lit) == Ok::<
        (ExprModel, int),
        crate::parse::PErrModel,
    >((lit, 2)));
    assert(crate::parse::p_factor(ts, 1) == Ok::<(ExprModel, int), crate::parse::PErrModel>(
        (lit, 2),
    ));
    assert(crate::parse::p_term_more(ts, 2, lit) == Ok::<
        (ExprModel, int),
        crate::parse::PErrModel,
    >((lit, 2)));
    assert(crate::parse::p_term(ts, 1) == Ok::<(ExprModel, int), crate::parse::PErrModel>(
        (lit, 2),
    ));
    assert(crate::parse::p_assignment(ts, 1) == Ok::<
        (ExprModel, int),
        crate::parse::PErrModel,
    >((lit, 2)));
    let pstmt = StmtModel::Print(lit);
    assert(crate::parse::p_print(ts, 1) == Ok::<(StmtModel, int), crate::parse::PErrModel>(
        (pstmt, 3),
    ));
    assert(crate::parse::p_statement(ts, 0) == Ok::<(StmtModel, int), crate::parse::PErrModel>(
        (pstmt, 3),
    ));
    assert(crate::parse::p_declaration(ts, 0) == Ok::<
        (StmtModel, int),
        crate::parse::PErrModel,
    >((pstmt, 3)));
    assert(crate::parse::held(4, 0, 3) == 3);
    assert(p_stmts(ts, 3) == Ok::<Seq<StmtModel>, crate::parse::PErrModel>(
        seq![StmtModel::Exit],
    ));
    assert(p_stmts(ts, 0) == Ok::<Seq<StmtModel>, crate::parse::PErrModel>(
        seq![pstmt] + seq![StmtModel::Exit],
    ));
    assert(seq![pstmt] + seq![StmtModel::Exit] =~= seq![pstmt, StmtModel::Exit]);
}

/// The print-a-literal law, at the program contract: any result and
/// transition the program contract allows, on a fresh runtime, for a
/// statement list that prints one literal and exits, is a success
/// carrying the empty value, with exactly one output line holding the
/// literal's display form.
pub proof fn lemma_run_program_print_literal(
    pre: crate::runtime::Runtime,
    post: crate::runtime::Runtime,
    ast: Seq<Stmt>,
    vm: ValueModel,
    r: Result<Value, crate::error::UmpteenError>,
)
    requires
        fresh_runtime(pre),
        crate::parse::stmts_models(ast) == seq![
            StmtModel::Print(ExprModel::Literal(vm)),
            StmtModel::Exit,
        ],
        program_run_matches(pre, post, ast, r),
    ensures
        r matches Ok(res) && res@ == ValueModel::Empty,
        out_model(post.out@) == seq![render_model(vm)],
{
    let sm = seq![StmtModel::Print(ExprModel::Literal(vm)), StmtModel::Exit];
    assert(crate::parse::stmts_models(ast).len() == ast.len());
    assert(ast.len() == 2);
    assert(crate::parse::stmt_model(ast[0]) == StmtModel::Print(ExprModel::Literal(vm)));
    assert(crate::parse::stmt_model(ast[1]) == StmtModel::Exit);
    let s1 = ast[0];
    let s2 = ast[1];
    assert(s2 == Stmt::Exit);
    let e0 = s1->Print_0;
    assert(s1 == Stmt::Print(e0));
    let v0 = e0->Literal_0;
    assert(e0 == Expr::Literal(v0));
    assert(value_model(v0) == vm);

    let g0 = Map::<Seq<char>, Option<ValueModel>>::empty();
    let e0env = pre.env;
    assert(e0env@.scopes[0] == crate::env::scope_model(e0env.scopes@[0]));
    assert(e0env.scopes@[0].map() == g0);
    assert(e0env.active() == 0);

    let c0 = empty_chunk();
    let c1 = c0.push_const(vm).push_op1(Instr::Constant, 0);
    let c2 = c1.push_op0(Instr::Print);
    let c3 = c2.push_op0(Instr::Exit);
    let c4 = c3.push_op0(Instr::Exit);
    assert(crate::compile::comp_expr(Expr::Literal(v0), c0) == Ok::<
        _,
        crate::compile::CompErr,
    >(c1));
    assert(crate::compile::comp_stmt(s1, c0, g0) == Ok::<_, crate::compile::CompErr>((c2, g0)));
    assert(crate::compile::comp_stmt(s2, c2, g0) == Ok::<_, crate::compile::CompErr>((c3, g0)));
    assert(ast =~= seq![s1, s2]);
    assert(seq![s1, s2].subrange(1, 2) =~= seq![s2]);
    crate::compile::lemma_comp_stmts_singleton(s2, c2, g0);
    assert(crate::compile::comp_stmts(seq![s2], c2, g0) == Ok::<_, crate::compile::CompErr>(
        (c3, g0),
    ));
    assert(crate::compile::comp_stmts(ast, c0, g0) == Ok::<_, crate::compile::CompErr>(
        (c3, g0),
    ));
    assert(comp_program(ast, g0) == Ok::<_, crate::compile::CompErr>((c4, g0)));

    let data = c4.data;
    let bytes = c4.bytes;
    assert(data =~= seq![vm]);
    assert(bytes =~= seq![0u8, 0u8, 1u8, 255u8, 255u8]);

    let em1 = EnvModel {
        scopes: e0env@.scopes.update(
            0,
            crate::env::ScopeModel { map: g0, parent: e0env@.scopes[0].parent },
        ),
        current: e0env@.current,
    };
    assert(em1 =~= e0env@);
    assert(em1.wf());
    let st0 = VmState {
        env: em1,
        stack: stack_model(pre.stack@),
        out: out_model(pre.out@),
    };
    assert(stack_model(pre.stack@) =~= Seq::<crate::runtime::StackEntry>::empty());
    assert(out_model(pre.out@) =~= Seq::<Seq<char>>::empty());

    // Load, print, halt.
    let st1 = VmState {
        env: em1,
        stack: st0.stack.push(crate::runtime::StackEntry::Value(vm)),
        out: st0.out,
    };
    assert(bytes[0] == 0 && bytes[1] == 0 && data[0] == vm);
    assert(exec_from(data, bytes, st0, 0) == exec_from(data, bytes, st1, 2));
    assert(bytes[2] == 1);
    assert(st1.stack.last() == crate::runtime::StackEntry::Value(vm));
    assert(st1.stack.drop_last() =~= st0.stack);
    let st2 = VmState { env: em1, stack: st0.stack, out: st0.out.push(render_model(vm)) };
    assert(exec_from(data, bytes, st1, 2) == exec_from(data, bytes, st2, 3));
    assert(bytes[3] == 255);
    assert(st2.stack.len() == 0);
    assert(exec_from(data, bytes, st2, 3) == (ExecOutcome {
        state: st2,
        result: Ok(ValueModel::Empty),
    }));
    assert(exec_chunks(seq![c4], st0) == exec_from(data, bytes, st0, 0));
    assert(st2.out =~= seq![render_model(vm)]);
}

/// The hello-world law, end to end: on a fresh runtime, any result and
/// transition the source-level run contract allows for the hello-world
/// source is a success carrying the empty value, with exactly one output
/// line: the decimal rendering of ten.
pub proof fn lemma_hello_world_outcome(
    pre: crate::runtime::Runtime,
    post: crate::runtime::Runtime,
    ast: Seq<Stmt>,
    r: Result<Value, crate::error::UmpteenError>,
)
    requires
        fresh_runtime(pre),
        crate::parse::stmts_models(ast) == p_stmts(scan_model("print 10;"@, 0, 1), 0)->Ok_0,
        program_run_matches(pre, post, ast, r),
    ensures
        r matches Ok(res) && res@ == ValueModel::Empty,
        out_model(post.out@) == seq![render_model(ValueModel::Number(10))],
{
    lemma_hello_world_parses();
    lemma_run_program_print_literal(pre, post, ast, ValueModel::Number(10), r);
}

/// The let-binding source, through the front-end models: scanning
/// `let x = 10;` yields the keyword, the name, the equals sign, the
/// number and the semicolon, and parsing that stream yields a declaration
/// binding the literal ten, closed by the exit statement.
pub proof fn lemma_let_x_parses()
    ensures
        ({
            let ts = scan_model("let x = 10;"@, 0, 1);
            p_stmts(ts, 0) == Ok::<Seq<StmtModel>, crate::parse::PErrModel>(
                seq![
                    StmtModel::Declare {
                        name: "x"@,
                        init: Some(ExprModel::Literal(ValueModel::Number(10))),
                    },
                    StmtModel::Exit,
                ],
            )
        }),
{
    let src = "let x = 10;"@;
    reveal_strlit("let x = 10;");
    assert(src.len() == 11);
    reveal_strlit("Empty");
    reveal_strlit("true");
    reveal_strlit("false");
    reveal_strlit("let");
    reveal_strlit("print");
    assert(ident_end(src, 1) == 3) by {
        assert(src[1] == 'e' && src[2] == 't' && src[3] == ' ');
        reveal_with_fuel(ident_end, 4);
    }
    let lx0 = src.subrange(0, 3);
    assert(lx0 =~= "let"@);
    assert(keyword_kind(lx0) == TokenType::Let) by {
        assert("Empty"@.len() == 5 && "true"@.len() == 4 && "false"@.len() == 5 && lx0.len()
            == 3);
    }
    let tok_let = TokenModel { kind: TokenType::Let, lexeme: "let"@, line: 1u64 };
    assert(scan_token_model(src, 0, 1).token == Some(tok_let));
    assert(scan_token_model(src, 0, 1).offset == 3);

    assert(scan_token_model(src, 3, 1).token is None && scan_token_model(src, 3, 1).offset
        == 4);

    assert(ident_end(src, 5) == 5) by {
        assert(src[4] == 'x' && src[5] == ' ');
        reveal_with_fuel(ident_end, 2);
    }
    let lxx = src.subrange(4, 5);
    reveal_strlit("x");
    assert(lxx =~= "x"@);
    assert(keyword_kind(lxx) == TokenType::Identifier) by {
        assert(lxx.len() == 1 && "Empty"@.len() == 5 && "true"@.len() == 4 && "false"@.len()
            == 5 && "let"@.len() == 3 && "print"@.len() == 5);
    }
    let tok_x = TokenModel { kind: TokenType::Identifier, lexeme: "x"@, line: 1u64 };
    assert(scan_token_model(src, 4, 1).token == Some(tok_x));
    assert(scan_token_model(src, 4, 1).offset == 5);

    assert(scan_token_model(src, 5, 1).token is None && scan_token_model(src, 5, 1).offset
        == 6);

    reveal_strlit("=");
    assert(src.subrange(6, 7) =~= "="@);
    let tok_eq = TokenModel { kind: TokenType::Equal, lexeme: "="@, line: 1u64 };
    assert(scan_token_model(src, 6, 1).token == Some(tok_eq));
    assert(scan_token_model(src, 6, 1).offset == 7);

    assert(scan_token_model(src, 7, 1).token is None && scan_token_model(src, 7, 1).offset
        == 8);

    assert(digits_end(src, 9) == 10) by {
        assert(src[8] == '1' && src[9] == '0' && src[10] == ';');
        reveal_with_fuel(digits_end, 3);
    }
    let num = src.subrange(8, 10);
    reveal_strlit("10");
    assert(num =~= "10"@);
    let tok_num = TokenModel { kind: TokenType::Number, lexeme: "10"@, line: 1u64 };
    assert(scan_token_model(src, 8, 1).token == Some(tok_num));
    assert(scan_token_model(src, 8, 1).offset == 10);

    reveal_strlit(";");
    assert(src.subrange(10, 11) =~= ";"@);
    let tok_semi = TokenModel { kind: TokenType::Semicolon, lexeme: ";"@, line: 1u64 };
    assert(scan_token_model(src, 10, 1).token == Some(tok_semi));
    assert(scan_token_model(src, 10, 1).offset == 11);

    let tok_eof = TokenModel { kind: TokenType::Eof, lexeme: Seq::empty(), line: 1u64 };
    assert(scan_model(src, 11, 1) == seq![tok_eof]);
    let ts = seq![tok_let, tok_x, tok_eq, tok_num, tok_semi, tok_eof];
    assert(scan_model(src, 0, 1) =~= ts) by {
        assert(scan_model(src, 10, 1) =~= seq![tok_semi] + seq![tok_eof]);
        assert(scan_model(src, 8, 1) =~= seq![tok_num] + scan_model(src, 10, 1));
        assert(scan_model(src, 7, 1) == scan_model(src, 8, 1));
        assert(scan_model(src, 6, 1) =~= seq![tok_eq] + scan_model(src, 7, 1));
        assert(scan_model(src, 5, 1) == scan_model(src, 6, 1));
        assert(scan_model(src, 4, 1) =~= seq![tok_x] + scan_model(src, 5, 1));
        assert(scan_model(src, 3, 1) == scan_model(src, 4, 1));
        assert(scan_model(src, 0, 1) =~= seq![tok_let] + scan_model(src, 3, 1));
    }

    assert(crate::parse::stream_wf(ts));
    let lit = ExprModel::Literal(ValueModel::Number(10));
    assert(crate::parse::all_digits("10"@)) by {
        assert(forall|i: int| 0 <= i < 2 ==> '0' <= #[trigger] "10"@[i] <= '9');
    }
    assert(digits_value("10"@) == 10) by {
        assert("10"@.drop_last() =~= seq!['1']);
        assert(seq!['1'].drop_last() =~= Seq::<char>::empty());
        reveal_with_fuel(digits_value, 3);
    }
    assert(crate::parse::p_primary(ts, 3) == Ok::<(ExprModel, int), crate::parse::PErrModel>(
        (lit, 4),
    ));
    assert(crate::parse::p_unary(ts, 3) == Ok::<(ExprModel, int), crate::parse::PErrModel>(
        (lit, 4),
    ));
    assert(crate::parse::held(6, 3, 4) == 4);
    assert(crate::parse::p_factor_more(ts, 4, lit) == Ok::<
        (ExprModel, int),
        crate::parse::PErrModel,
    >((lit, 4)));
    assert(crate::parse::p_factor(ts, 3) == Ok::<(ExprModel, int), crate::parse::PErrModel>(
        (lit, 4),
    ));
    assert(crate::parse::p_term_more(ts, 4, lit) == Ok::<
        (ExprModel, int),
        crate::parse::PErrModel,
    >((lit, 4)));
    assert(crate::parse::p_term(ts, 3) == Ok::<(ExprModel, int), crate::parse::PErrModel>(
        (lit, 4),
    ));
    assert(crate::parse::p_assignment(ts, 3) == Ok::<
        (ExprModel, int),
        crate::parse::PErrModel,
    >((lit, 4)));
    let decl = StmtModel::Declare { name: "x"@, init: Some(lit) };
    assert(crate::parse::held(6, 2, 4) == 4);
    assert(crate::parse::p_declare_variable(ts, 1) == Ok::<
        (StmtModel, int),
        crate::parse::PErrModel,
    >((decl, 5)));
    assert(crate::parse::p_declaration(ts, 0) == Ok::<
        (StmtModel, int),
        crate::parse::PErrModel,
    >((decl, 5)));
    assert(crate::parse::held(6, 0, 5) == 5);
    assert(p_stmts(ts, 5) == Ok::<Seq<StmtModel>, crate::parse::PErrModel>(
        seq![StmtModel::Exit],
    ));
    assert(p_stmts(ts, 0) == Ok::<Seq<StmtModel>, crate::parse::PErrModel>(
        seq![decl] + seq![StmtModel::Exit],
    ));
    assert(seq![decl] + seq![StmtModel::Exit] =~= seq![decl, StmtModel::Exit]);
}

/// The declare-a-literal law, at the program contract: any result and
/// transition the program contract allows, on a fresh runtime, for a
/// statement list that declares one name bound to a literal and exits, is
/// a success carrying the empty value, with nothing printed and the
/// global scope left binding that name to the literal.
pub proof fn lemma_run_program_declare_literal(
    pre: crate::runtime::Runtime,
    post: crate::runtime::Runtime,
    ast: Seq<Stmt>,
    nm: Seq<char>,
    vm: ValueModel,
    r: Result<Value, crate::error::UmpteenError>,
)
    requires
        fresh_runtime(pre),
        crate::parse::stmts_models(ast) == seq![
            StmtModel::Declare { name: nm, init: Some(ExprModel::Literal(vm)) },
            StmtModel::Exit,
        ],
        program_run_matches(pre, post, ast, r),
    ensures
        r matches Ok(res) && res@ == ValueModel::Empty,
        out_model(post.out@) == Seq::<Seq<char>>::empty(),
        post.env@.lookup(nm) == Some(Some(vm)),
{
    assert(crate::parse::stmts_models(ast).len() == ast.len());
    assert(ast.len() == 2);
    assert(crate::parse::stmt_model(ast[0]) == (StmtModel::Declare {
        name: nm,
        init: Some(ExprModel::Literal(vm)),
    }));
    assert(crate::parse::stmt_model(ast[1]) == StmtModel::Exit);
    let s1 = ast[0];
    let s2 = ast[1];
    assert(s2 == Stmt::Exit);
    let name0 = s1->Declare_name;
    let init0 = s1->Declare_init;
    assert(s1 == (Stmt::Declare { name: name0, init: init0 }));
    assert(name0@ == nm);
    let e0 = init0->0;
    assert(init0 == Some(e0));
    let v0 = e0->Literal_0;
    assert(e0 == Expr::Literal(v0));
    assert(value_model(v0) == vm);

    let g0 = Map::<Seq<char>, Option<ValueModel>>::empty();
    let g1 = g0.insert(nm, None);
    let e0env = pre.env;
    assert(e0env@.scopes[0] == crate::env::scope_model(e0env.scopes@[0]));
    assert(e0env.scopes@[0].map() == g0);
    assert(e0env.active() == 0);

    let c0 = empty_chunk();
    let c1 = c0.push_const(vm).push_op1(Instr::Constant, 0);
    let c2 = c1.push_const(ValueModel::Str(nm)).push_op2(Instr::Assign, 1, 0);
    let c3 = c2.push_op0(Instr::Exit);
    let c4 = c3.push_op0(Instr::Exit);
    assert(crate::compile::comp_expr(Expr::Literal(v0), c0) == Ok::<
        _,
        crate::compile::CompErr,
    >(c1));
    assert(crate::compile::comp_stmt(s1, c0, g0) == Ok::<_, crate::compile::CompErr>((c2, g1)));
    assert(crate::compile::comp_stmt(s2, c2, g1) == Ok::<_, crate::compile::CompErr>((c3, g1)));
    assert(ast =~= seq![s1, s2]);
    assert(seq![s1, s2].subrange(1, 2) =~= seq![s2]);
    crate::compile::lemma_comp_stmts_singleton(s2, c2, g1);
    assert(crate::compile::comp_stmts(seq![s2], c2, g1) == Ok::<_, crate::compile::CompErr>(
        (c3, g1),
    ));
    assert(crate::compile::comp_stmts(ast, c0, g0) == Ok::<_, crate::compile::CompErr>(
        (c3, g1),
    ));
    assert(comp_program(ast, g0) == Ok::<_, crate::compile::CompErr>((c4, g1)));

    let data = c4.data;
    let bytes = c4.bytes;
    assert(data =~= seq![vm, ValueModel::Str(nm)]);
    assert(bytes =~= seq![0u8, 0u8, 3u8, 1u8, 0u8, 255u8, 255u8]);

    let em0 = EnvModel { scopes: seq![ScopeModel { map: g1, parent: None }], current: None };
    let em1 = EnvModel {
        scopes: e0env@.scopes.update(
            0,
            crate::env::ScopeModel { map: g1, parent: e0env@.scopes[0].parent },
        ),
        current: e0env@.current,
    };
    assert(em1 =~= em0);
    assert(em1.wf());
    let st0 = VmState {
        env: em1,
        stack: stack_model(pre.stack@),
        out: out_model(pre.out@),
    };
    assert(stack_model(pre.stack@) =~= Seq::<crate::runtime::StackEntry>::empty());
    assert(out_model(pre.out@) =~= Seq::<Seq<char>>::empty());

    // Load the literal, assign it, halt.
    let st1 = VmState {
        env: em1,
        stack: st0.stack.push(crate::runtime::StackEntry::Value(vm)),
        out: st0.out,
    };
    assert(bytes[0] == 0 && bytes[1] == 0 && data[0] == vm);
    assert(exec_from(data, bytes, st0, 0) == exec_from(data, bytes, st1, 2));
    assert(bytes[2] == 3 && bytes[3] == 1 && bytes[4] == 0);
    assert(data[1] == ValueModel::Str(nm));
    assert(st1.stack.last() == crate::runtime::StackEntry::Value(vm));
    assert(st1.stack.drop_last() =~= st0.stack);
    assert(em1.scopes[0].map.contains_key(nm));
    assert(em1.resolve(nm) == Some(0int));
    assert(em1.lookup(nm) == Some(None::<ValueModel>));
    let em2 = em1.do_assign(nm, None, vm)->Ok_0;
    assert(em2.scopes.len() == 1);
    assert(em2.scopes[0].parent is None);
    assert(em2.wf());
    let st2 = VmState { env: em2, stack: st0.stack, out: st0.out };
    assert(exec_from(data, bytes, st1, 2) == exec_from(data, bytes, st2, 5));
    assert(bytes[5] == 255);
    assert(st2.stack.len() == 0);
    assert(exec_from(data, bytes, st2, 5) == (ExecOutcome {
        state: st2,
        result: Ok(ValueModel::Empty),
    }));
    assert(exec_chunks(seq![c4], st0) == exec_from(data, bytes, st0, 0));
    assert(st2.out =~= Seq::<Seq<char>>::empty());
    assert(em2.scopes[0].map.contains_key(nm));
    assert(em2.resolve(nm) == Some(0int));
    assert(em2.lookup(nm) == Some(Some(vm)));
    assert(post.env@ == em2);
}

/// The let-binding law, end to end: on a fresh runtime, any result and
/// transition the source-level run contract allows for the let-binding
/// source is a success carrying the empty value, with nothing printed and
/// the global scope left binding the name to ten.
pub proof fn lemma_let_x_outcome(
    pre: crate::runtime::Runtime,
    post: crate::runtime::Runtime,
    ast: Seq<Stmt>,
    r: Result<Value, crate::error::UmpteenError>,
)
    requires
        fresh_runtime(pre),
        crate::parse::stmts_models(ast) == p_stmts(scan_model("let x = 10;"@, 0, 1), 0)->Ok_0,
        program_run_matches(pre, post, ast, r),
    ensures
        r matches Ok(res) && res@ == ValueModel::Empty,
        out_model(post.out@) == Seq::<Seq<char>>::empty(),
        post.env@.lookup("x"@) == Some(Some(ValueModel::Number(10))),
{
    lemma_let_x_parses();
    lemma_run_program_declare_literal(pre, post, ast, "x"@, ValueModel::Number(10), r);
}

/// The let-then-print law, at the program contract: any result and
/// transition the program contract allows, on a fresh runtime, for a
/// statement list that declares a name bound to a literal, prints that
/// name, and exits, is a success carrying the empty value, with exactly
/// one output line holding the literal's display form.
pub proof fn lemma_run_program_let_print(
    pre: crate::runtime::Runtime,
    post: crate::runtime::Runtime,
    ast: Seq<Stmt>,
    nm: Seq<char>,
    vm: ValueModel,
    r: Result<Value, crate::error::UmpteenError>,
)
    requires
        fresh_runtime(pre),
        crate::parse::stmts_models(ast) == seq![
            StmtModel::Declare { name: nm, init: Some(ExprModel::Literal(vm)) },
            StmtModel::Print(ExprModel::Binding { name: nm, index: None }),
            StmtModel::Exit,
        ],
        program_run_matches(pre, post, ast, r),
    ensures
        r matches Ok(res) && res@ == ValueModel::Empty,
        out_model(post.out@) == seq![render_model(vm)],
{
    assert(crate::parse::stmts_models(ast).len() == ast.len());
    assert(ast.len() == 3);
    assert(crate::parse::stmt_model(ast[0]) == (StmtModel::Declare {
        name: nm,
        init: Some(ExprModel::Literal(vm)),
    }));
    assert(crate::parse::stmt_model(ast[1]) == StmtModel::Print(
        ExprModel::Binding { name: nm, index: None },
    ));
    assert(crate::parse::stmt_model(ast[2]) == StmtModel::Exit);
    let s1 = ast[0];
    let s2 = ast[1];
    let s3 = ast[2];
    assert(s3 == Stmt::Exit);
    let n1 = s1->Declare_name;
    let init0 = s1->Declare_init;
    assert(s1 == (Stmt::Declare { name: n1, init: init0 }));
    assert(n1@ == nm);
    let e0 = init0->0;
    assert(init0 == Some(e0));
    let v0 = e0->Literal_0;
    assert(e0 == Expr::Literal(v0));
    assert(value_model(v0) == vm);
    let eb = s2->Print_0;
    assert(s2 == Stmt::Print(eb));
    let n2 = eb->Binding_name;
    let ix = eb->Binding_index;
    assert(eb == (Expr::Binding { name: n2, index: ix }));
    assert(n2@ == nm);
    assert(ix is None);

    let g0 = Map::<Seq<char>, Option<ValueModel>>::empty();
    let g1 = g0.insert(nm, None);
    let e0env = pre.env;
    assert(e0env@.scopes[0] == crate::env::scope_model(e0env.scopes@[0]));
    assert(e0env.scopes@[0].map() == g0);
    assert(e0env.active() == 0);

    let c0 = empty_chunk();
    let c1 = c0.push_const(vm).push_op1(Instr::Constant, 0);
    let c2 = c1.push_const(ValueModel::Str(nm)).push_op2(Instr::Assign, 1, 0);
    let c3 = c2.push_const(ValueModel::Str(nm)).push_op2(Instr::Get, 2, 0);
    let c4 = c3.push_op0(Instr::Print);
    let c5 = c4.push_op0(Instr::Exit);
    let c6 = c5.push_op0(Instr::Exit);

    assert(crate::compile::comp_expr(Expr::Literal(v0), c0) == Ok::<
        _,
        crate::compile::CompErr,
    >(c1));
    assert(crate::compile::comp_stmt(s1, c0, g0) == Ok::<_, crate::compile::CompErr>((c2, g1)));
    assert(c2.data.len() == 2);
    assert(crate::compile::comp_expr(eb, c2) == Ok::<_, crate::compile::CompErr>(c3));
    assert(crate::compile::comp_stmt(s2, c2, g1) == Ok::<_, crate::compile::CompErr>((c4, g1)));
    assert(crate::compile::comp_stmt(s3, c4, g1) == Ok::<_, crate::compile::CompErr>((c5, g1)));

    assert(ast =~= seq![s1, s2, s3]);
    assert(seq![s1, s2, s3].subrange(1, 3) =~= seq![s2, s3]);
    assert(seq![s2, s3].subrange(1, 2) =~= seq![s3]);
    crate::compile::lemma_comp_stmts_singleton(s3, c4, g1);
    assert(crate::compile::comp_stmts(seq![s3], c4, g1) == Ok::<_, crate::compile::CompErr>(
        (c5, g1),
    ));
    assert(crate::compile::comp_stmts(seq![s2, s3], c2, g1) == Ok::<
        _,
        crate::compile::CompErr,
    >((c5, g1)));
    assert(crate::compile::comp_stmts(ast, c0, g0) == Ok::<_, crate::compile::CompErr>(
        (c5, g1),
    ));
    assert(comp_program(ast, g0) == Ok::<_, crate::compile::CompErr>((c6, g1)));

    let data = c6.data;
    let bytes = c6.bytes;
    assert(data =~= seq![vm, ValueModel::Str(nm), ValueModel::Str(nm)]);
    assert(bytes =~= seq![0u8, 0u8, 3u8, 1u8, 0u8, 4u8, 2u8, 0u8, 1u8, 255u8, 255u8]);

    let em0 = EnvModel { scopes: seq![ScopeModel { map: g1, parent: None }], current: None };
    let em1x = EnvModel {
        scopes: e0env@.scopes.update(
            0,
            crate::env::ScopeModel { map: g1, parent: e0env@.scopes[0].parent },
        ),
        current: e0env@.current,
    };
    assert(em1x =~= em0);
    assert(em0.wf());
    let st0 = VmState {
        env: em1x,
        stack: stack_model(pre.stack@),
        out: out_model(pre.out@),
    };
    assert(stack_model(pre.stack@) =~= Seq::<crate::runtime::StackEntry>::empty());
    assert(out_model(pre.out@) =~= Seq::<Seq<char>>::empty());
    let st0n = VmState { env: em0, stack: Seq::empty(), out: Seq::empty() };
    assert(st0 =~= st0n);

    // Load the literal.
    let st1 = VmState {
        env: em0,
        stack: st0n.stack.push(crate::runtime::StackEntry::Value(vm)),
        out: st0n.out,
    };
    assert(bytes[0] == 0 && bytes[1] == 0 && data[0] == vm);
    assert(exec_from(data, bytes, st0n, 0) == exec_from(data, bytes, st1, 2));

    // Assign it to the declared name.
    assert(bytes[2] == 3 && bytes[3] == 1 && bytes[4] == 0);
    assert(data[1] == ValueModel::Str(nm));
    assert(st1.stack.last() == crate::runtime::StackEntry::Value(vm));
    assert(st1.stack.drop_last() =~= st0n.stack);
    assert(em0.scopes[0].map.contains_key(nm));
    assert(em0.resolve(nm) == Some(0int));
    assert(em0.lookup(nm) == Some(None::<ValueModel>));
    let em1 = em0.do_assign(nm, None, vm)->Ok_0;
    assert(em1.scopes.len() == 1);
    assert(em1.scopes[0].parent is None);
    assert(em1.wf());
    let st2 = VmState { env: em1, stack: st0n.stack, out: st0n.out };
    assert(exec_from(data, bytes, st1, 2) == exec_from(data, bytes, st2, 5));

    // Read the name back.
    assert(bytes[5] == 4 && bytes[6] == 2 && bytes[7] == 0);
    assert(data[2] == ValueModel::Str(nm));
    assert(em1.scopes[0].map.contains_key(nm));
    assert(em1.resolve(nm) == Some(0int));
    assert(em1.scopes[0].map[nm] == Some(vm));
    assert(em1.do_get(nm, None) == Ok::<ValueModel, MemErr>(vm));
    let st3 = VmState {
        env: em1,
        stack: st2.stack.push(crate::runtime::StackEntry::Value(vm)),
        out: st2.out,
    };
    assert(exec_from(data, bytes, st2, 5) == exec_from(data, bytes, st3, 8));

    // Print it.
    assert(bytes[8] == 1);
    assert(st3.stack.last() == crate::runtime::StackEntry::Value(vm));
    assert(st3.stack.drop_last() =~= st2.stack);
    let st4 = VmState { env: em1, stack: st2.stack, out: st2.out.push(render_model(vm)) };
    assert(exec_from(data, bytes, st3, 8) == exec_from(data, bytes, st4, 9));

    // Halt.
    assert(bytes[9] == 255);
    assert(st4.stack.len() == 0);
    assert(exec_from(data, bytes, st4, 9) == (ExecOutcome {
        state: st4,
        result: Ok(ValueModel::Empty),
    }));
    assert(exec_chunks(seq![c6], st0) == exec_from(data, bytes, st0, 0));
    assert(st4.out =~= seq![render_model(vm)]);
}

/// The let-then-print source, through the front-end models: scanning
/// `let x = 10; print x;` yields its eight tokens, and parsing them
/// yields the declaration, the print of the name, and the exit statement.
pub proof fn lemma_let_print_parses()
    ensures
        ({
            let ts = scan_model("let x = 10; print x;"@, 0, 1);
            p_stmts(ts, 0) == Ok::<Seq<StmtModel>, crate::parse::PErrModel>(
                seq![
                    StmtModel::Declare {
                        name: "x"@,
                        init: Some(ExprModel::Literal(ValueModel::Number(10))),
                    },
                    StmtModel::Print(ExprModel::Binding { name: "x"@, index: None }),
                    StmtModel::Exit,
                ],
            )
        }),
{
    let src = "let x = 10; print x;"@;
    reveal_strlit("let x = 10; print x;");
    assert(src.len() == 20);
    reveal_strlit("Empty");
    reveal_strlit("true");
    reveal_strlit("false");
    reveal_strlit("let");
    reveal_strlit("print");
    reveal_strlit("x");
    reveal_strlit("10");
    reveal_strlit("=");
    reveal_strlit(";");

    assert(ident_end(src, 1) == 3) by {
        assert(src[1] == 'e' && src[2] == 't' && src[3] == ' ');
        reveal_with_fuel(ident_end, 4);
    }
    assert(src.subrange(0, 3) =~= "let"@);
    assert(keyword_kind("let"@) == TokenType::Let) by {
        assert("Empty"@.len() == 5 && "true"@.len() == 4 && "false"@.len() == 5 && "let"@.len()
            == 3);
    }
    let tok_let = TokenModel { kind: TokenType::Let, lexeme: "let"@, line: 1u64 };
    assert(scan_token_model(src, 0, 1).token == Some(tok_let) && scan_token_model(
        src,
        0,
        1,
    ).offset == 3);
    assert(scan_token_model(src, 3, 1).token is None && scan_token_model(src, 3, 1).offset
        == 4);

    assert(ident_end(src, 5) == 5) by {
        assert(src[4] == 'x' && src[5] == ' ');
        reveal_with_fuel(ident_end, 2);
    }
    assert(src.subrange(4, 5) =~= "x"@);
    assert(keyword_kind("x"@) == TokenType::Identifier) by {
        assert("x"@.len() == 1 && "Empty"@.len() == 5 && "true"@.len() == 4 && "false"@.len()
            == 5 && "let"@.len() == 3 && "print"@.len() == 5);
    }
    let tok_x = TokenModel { kind: TokenType::Identifier, lexeme: "x"@, line: 1u64 };
    assert(scan_token_model(src, 4, 1).token == Some(tok_x) && scan_token_model(
        src,
        4,
        1,
    ).offset == 5);
    assert(scan_token_model(src, 5, 1).token is None && scan_token_model(src, 5, 1).offset
        == 6);

    assert(src.subrange(6, 7) =~= "="@);
    let tok_eq = TokenModel { kind: TokenType::Equal, lexeme: "="@, line: 1u64 };
    assert(scan_token_model(src, 6, 1).token == Some(tok_eq) && scan_token_model(
        src,
        6,
        1,
    ).offset == 7);
    assert(scan_token_model(src, 7, 1).token is None && scan_token_model(src, 7, 1).offset
        == 8);

    assert(digits_end(src, 9) == 10) by {
        assert(src[8] == '1' && src[9] == '0' && src[10] == ';');
        reveal_with_fuel(digits_end, 3);
    }
    assert(src.subrange(8, 10) =~= "10"@);
    let tok_num = TokenModel { kind: TokenType::Number, lexeme: "10"@, line: 1u64 };
    assert(scan_token_model(src, 8, 1).token == Some(tok_num) && scan_token_model(
        src,
        8,
        1,
    ).offset == 10);

    assert(src.subrange(10, 11) =~= ";"@);
    let tok_semi = TokenModel { kind: TokenType::Semicolon, lexeme: ";"@, line: 1u64 };
    assert(scan_token_model(src, 10, 1).token == Some(tok_semi) && scan_token_model(
        src,
        10,
        1,
    ).offset == 11);
    assert(scan_token_model(src, 11, 1).token is None && scan_token_model(src, 11, 1).offset
        == 12);

    assert(ident_end(src, 13) == 17) by {
        assert(src[13] == 'r' && src[14] == 'i' && src[15] == 'n' && src[16] == 't' && src[17]
            == ' ');
        reveal_with_fuel(ident_end, 6);
    }
    assert(src.subrange(12, 17) =~= "print"@);
    assert(keyword_kind("print"@) == TokenType::Print) by {
        assert("print"@[0] == 'p' && "Empty"@[0] == 'E' && "false"@[0] == 'f');
        assert("print"@.len() == 5 && "true"@.len() == 4 && "let"@.len() == 3);
        assert("print"@ != "Empty"@);
        assert("print"@ != "false"@);
    }
    let tok_print = TokenModel { kind: TokenType::Print, lexeme: "print"@, line: 1u64 };
    assert(scan_token_model(src, 12, 1).token == Some(tok_print) && scan_token_model(
        src,
        12,
        1,
    ).offset == 17);
    assert(scan_token_model(src, 17, 1).token is None && scan_token_model(src, 17, 1).offset
        == 18);

    assert(ident_end(src, 19) == 19) by {
        assert(src[18] == 'x' && src[19] == ';');
        reveal_with_fuel(ident_end, 2);
    }
    assert(src.subrange(18, 19) =~= "x"@);
    assert(scan_token_model(src, 18, 1).token == Some(tok_x) && scan_token_model(
        src,
        18,
        1,
    ).offset == 19);

    assert(src.subrange(19, 20) =~= ";"@);
    assert(scan_token_model(src, 19, 1).token == Some(tok_semi) && scan_token_model(
        src,
        19,
        1,
    ).offset == 20);

    let tok_eof = TokenModel { kind: TokenType::Eof, lexeme: Seq::empty(), line: 1u64 };
    assert(scan_model(src, 20, 1) == seq![tok_eof]);
    let ts = seq![tok_let, tok_x, tok_eq, tok_num, tok_semi, tok_print, tok_x, tok_semi, tok_eof];
    assert(scan_model(src, 0, 1) =~= ts) by {
        assert(scan_model(src, 19, 1) =~= seq![tok_semi] + seq![tok_eof]);
        assert(scan_model(src, 18, 1) =~= seq![tok_x] + scan_model(src, 19, 1));
        assert(scan_model(src, 17, 1) == scan_model(src, 18, 1));
        assert(scan_model(src, 12, 1) =~= seq![tok_print] + scan_model(src, 17, 1));
        assert(scan_model(src, 11, 1) == scan_model(src, 12, 1));
        assert(scan_model(src, 10, 1) =~= seq![tok_semi] + scan_model(src, 11, 1));
        assert(scan_model(src, 8, 1) =~= seq![tok_num] + scan_model(src, 10, 1));
        assert(scan_model(src, 7, 1) == scan_model(src, 8, 1));
        assert(scan_model(src, 6, 1) =~= seq![tok_eq] + scan_model(src, 7, 1));
        assert(scan_model(src, 5, 1) == scan_model(src, 6, 1));
        assert(scan_model(src, 4, 1) =~= seq![tok_x] + scan_model(src, 5, 1));
        assert(scan_model(src, 3, 1) == scan_model(src, 4, 1));
        assert(scan_model(src, 0, 1) =~= seq![tok_let] + scan_model(src, 3, 1));
    }

    assert(crate::parse::stream_wf(ts));
    let lit = ExprModel::Literal(ValueModel::Number(10));
    assert(crate::parse::all_digits("10"@)) by {
        assert(forall|i: int| 0 <= i < 2 ==> '0' <= #[trigger] "10"@[i] <= '9');
    }
    assert(digits_value("10"@) == 10) by {
        assert("10"@.drop_last() =~= seq!['1']);
        assert(seq!['1'].drop_last() =~= Seq::<char>::empty());
        reveal_with_fuel(digits_value, 3);
    }
    // The declaration.
    assert(crate::parse::p_primary(ts, 3) == Ok::<(ExprModel, int), crate::parse::PErrModel>(
        (lit, 4),
    ));
    assert(crate::parse::p_unary(ts, 3) == Ok::<(ExprModel, int), crate::parse::PErrModel>(
        (lit, 4),
    ));
    assert(crate::parse::held(9, 3, 4) == 4);
    assert(crate::parse::p_factor_more(ts, 4, lit) == Ok::<
        (ExprModel, int),
        crate::parse::PErrModel,
    >((lit, 4)));
    assert(crate::parse::p_factor(ts, 3) == Ok::<(ExprModel, int), crate::parse::PErrModel>(
        (lit, 4),
    ));
    assert(crate::parse::p_term_more(ts, 4, lit) == Ok::<
        (ExprModel, int),
        crate::parse::PErrModel,
    >((lit, 4)));
    assert(crate::parse::p_term(ts, 3) == Ok::<(ExprModel, int), crate::parse::PErrModel>(
        (lit, 4),
    ));
    assert(crate::parse::p_assignment(ts, 3) == Ok::<
        (ExprModel, int),
        crate::parse::PErrModel,
    >((lit, 4)));
    let decl = StmtModel::Declare { name: "x"@, init: Some(lit) };
    assert(crate::parse::held(9, 2, 4) == 4);
    assert(crate::parse::p_declare_variable(ts, 1) == Ok::<
        (StmtModel, int),
        crate::parse::PErrModel,
    >((decl, 5)));
    assert(crate::parse::p_declaration(ts, 0) == Ok::<
        (StmtModel, int),
        crate::parse::PErrModel,
    >((decl, 5)));
    // The print statement.
    let bind = ExprModel::Binding { name: "x"@, index: None };
    assert(crate::parse::p_primary(ts, 6) == Ok::<(ExprModel, int), crate::parse::PErrModel>(
        (bind, 7),
    ));
    assert(crate::parse::p_unary(ts, 6) == Ok::<(ExprModel, int), crate::parse::PErrModel>(
        (bind, 7),
    ));
    assert(crate::parse::held(9, 6, 7) == 7);
    assert(crate::parse::p_factor_more(ts, 7, bind) == Ok::<
        (ExprModel, int),
        crate::parse::PErrModel,
    >((bind, 7)));
    assert(crate::parse::p_factor(ts, 6) == Ok::<(ExprModel, int), crate::parse::PErrModel>(
        (bind, 7),
    ));
    assert(crate::parse::p_term_more(ts, 7, bind) == Ok::<
        (ExprModel, int),
        crate::parse::PErrModel,
    >((bind, 7)));
    assert(crate::parse::p_term(ts, 6) == Ok::<(ExprModel, int), crate::parse::PErrModel>(
        (bind, 7),
    ));
    assert(crate::parse::p_assignment(ts, 6) == Ok::<
        (ExprModel, int),
        crate::parse::PErrModel,
    >((bind, 7)));
    let pstmt = StmtModel::Print(bind);
    assert(crate::parse::p_print(ts, 6) == Ok::<(StmtModel, int), crate::parse::PErrModel>(
        (pstmt, 8),
    ));
    assert(crate::parse::p_statement(ts, 5) == Ok::<(StmtModel, int), crate::parse::PErrModel>(
        (pstmt, 8),
    ));
    assert(crate::parse::p_declaration(ts, 5) == Ok::<
        (StmtModel, int),
        crate::parse::PErrModel,
    >((pstmt, 8)));
    // The whole list.
    assert(p_stmts(ts, 8) == Ok::<Seq<StmtModel>, crate::parse::PErrModel>(
        seq![StmtModel::Exit],
    ));
    assert(crate::parse::held(9, 5, 8) == 8);
    assert(p_stmts(ts, 5) == Ok::<Seq<StmtModel>, crate::parse::PErrModel>(
        seq![pstmt] + seq![StmtModel::Exit],
    ));
    assert(crate::parse::held(9, 0, 5) == 5);
    assert(p_stmts(ts, 0) == Ok::<Seq<StmtModel>, crate::parse::PErrModel>(
        seq![decl] + (seq![pstmt] + seq![StmtModel::Exit]),
    ));
    assert(seq![decl] + (seq![pstmt] + seq![StmtModel::Exit]) =~= seq![
        decl,
        pstmt,
        StmtModel::Exit,
    ]);
}

/// The let-then-print law, end to end: on a fresh runtime, any result and
/// transition the source-level run contract allows for the let-then-print
/// source is a success carrying the empty value, with exactly one output
/// line: the decimal rendering of ten, the literal's display form.
pub proof fn lemma_let_print_outcome(
    pre: crate::runtime::Runtime,
    post: crate::runtime::Runtime,
    ast: Seq<Stmt>,
    r: Result<Value, crate::error::UmpteenError>,
)
    requires
        fresh_runtime(pre),
        crate::parse::stmts_models(ast) == p_stmts(
            scan_model("let x = 10; print x;"@, 0, 1),
            0,
        )->Ok_0,
        program_run_matches(pre, post, ast, r),
    ensures
        r matches Ok(res) && res@ == ValueModel::Empty,
        out_model(post.out@) == seq![render_model(ValueModel::Number(10))],
{
    lemma_let_print_parses();
    lemma_run_program_let_print(pre, post, ast, "x"@, ValueModel::Number(10), r);
}

} // verus!
