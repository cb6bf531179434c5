use umpteen::chunk::{Chunk, ChunkIntoIterator};
use umpteen::error::{CompilerError, RuntimeError, UmpteenError};
use umpteen::instr::Instr;
use umpteen::runtime::Runtime;
use umpteen::value::Value;

#[test]
fn instruction_bytes_round_trip() {
    let all = [
        Instr::Constant,
        Instr::Print,
        Instr::Push,
        Instr::Assign,
        Instr::Get,
        Instr::BinOp,
        Instr::UnOp,
        Instr::Exit,
    ];
    for i in all {
        let b = i.to_byte();
        let back = Instr::try_from_byte(b).unwrap();
        assert_eq!(back.to_byte(), b);
        assert_eq!(back.arg_count(), i.arg_count());
    }
}

#[test]
fn decode_advances_by_width() {
    let mut chunk = Chunk::new();
    let addr = chunk.write_val(Value::Number(7));
    assert_eq!(addr, 0);
    chunk.write_op1(Instr::Constant, addr as u8);
    let (instr, next) = chunk.read_op(0).unwrap();
    assert!(matches!(instr, Instr::Constant));
    assert_eq!(next, 1 + instr.arg_count());
}

#[test]
fn unknown_opcode_byte_is_refused() {
    let mut chunk = Chunk::new();
    chunk.write_byte(9);
    let e = chunk.read_op(0).unwrap_err();
    assert!(matches!(e, CompilerError::InvalidInstruction(9)));
}

#[test]
fn truncated_instruction_is_refused() {
    let mut chunk = Chunk::new();
    chunk.write_byte(Instr::Constant.to_byte());
    let e = chunk.read_op(0).unwrap_err();
    assert!(matches!(e, CompilerError::UnexpectedEnd));
}

#[test]
fn written_constant_loads_back_exactly() {
    let mut chunk = Chunk::new();
    let addr = chunk.write_val(Value::Number(42));
    chunk.write_op1(Instr::Constant, addr as u8);
    chunk.write_op0(Instr::Exit);
    let mut rt = Runtime::new();
    let v = rt.exec(&chunk).unwrap();
    assert!(matches!(v, Value::Number(42)));
}

#[test]
fn print_on_empty_stack_underflows() {
    let mut chunk = Chunk::new();
    chunk.write_op0(Instr::Print);
    let mut rt = Runtime::new();
    let e = rt.exec(&chunk).unwrap_err();
    assert!(matches!(
        e,
        UmpteenError::Runtime(RuntimeError::StackMissingValue)
    ));
}

#[test]
fn exit_alone_returns_empty() {
    let mut chunk = Chunk::new();
    chunk.write_op0(Instr::Exit);
    let mut rt = Runtime::new();
    let v = rt.exec(&chunk).unwrap();
    assert!(matches!(v, Value::Empty));
}

#[test]
fn exhausted_stream_halts_like_exit() {
    let chunk = Chunk::new();
    let mut rt = Runtime::new();
    let v = rt.exec(&chunk).unwrap();
    assert!(matches!(v, Value::Empty));
}

#[test]
fn push_defers_constant_resolution() {
    let mut chunk = Chunk::new();
    let addr = chunk.write_val(Value::Number(3));
    chunk.write_op1(Instr::Push, addr as u8);
    chunk.write_op0(Instr::Print);
    chunk.write_op0(Instr::Exit);
    let mut rt = Runtime::new();
    rt.exec(&chunk).unwrap();
    assert_eq!(rt.out, vec!["3"]);
}

#[test]
fn invalid_operator_byte_is_refused() {
    let mut chunk = Chunk::new();
    let a = chunk.write_val(Value::Number(1));
    chunk.write_op1(Instr::Constant, a as u8);
    let b = chunk.write_val(Value::Number(2));
    chunk.write_op1(Instr::Constant, b as u8);
    chunk.write_op1(Instr::BinOp, 99);
    let mut rt = Runtime::new();
    let e = rt.exec(&chunk).unwrap_err();
    assert!(matches!(
        e,
        UmpteenError::Compiler(CompilerError::InvalidOperator(99))
    ));
}

#[test]
fn assign_target_must_name_a_variable() {
    let mut chunk = Chunk::new();
    let v = chunk.write_val(Value::Number(1));
    chunk.write_op1(Instr::Constant, v as u8);
    let not_a_name = chunk.write_val(Value::Number(2));
    chunk.write_op2(Instr::Assign, not_a_name as u8, 0);
    let mut rt = Runtime::new();
    let e = rt.exec(&chunk).unwrap_err();
    assert!(matches!(
        e,
        UmpteenError::Runtime(RuntimeError::ExpectedName(1))
    ));
}

#[test]
fn list_index_must_be_a_number() {
    let mut rt = Runtime::new();
    rt.run("let xs;").unwrap();
    let mut chunk = Chunk::new();
    let idx = chunk.write_val(Value::Boolean(true));
    chunk.write_op1(Instr::Constant, idx as u8);
    let v = chunk.write_val(Value::Number(1));
    chunk.write_op1(Instr::Constant, v as u8);
    let name = chunk.write_val(Value::string("xs".to_string()));
    chunk.write_op2(Instr::Assign, name as u8, 1);
    let e = rt.exec(&chunk).unwrap_err();
    assert!(matches!(e, UmpteenError::Runtime(RuntimeError::InvalidIndex)));
}

#[test]
fn constant_address_past_pool_is_refused() {
    let mut chunk = Chunk::new();
    chunk.write_op1(Instr::Constant, 5);
    let mut rt = Runtime::new();
    let e = rt.exec(&chunk).unwrap_err();
    assert!(matches!(
        e,
        UmpteenError::Runtime(RuntimeError::OutOfBoundsMemoryAccess)
    ));
}

#[test]
fn write_bytes_appends_run() {
    let mut chunk = Chunk::new();
    chunk.write_bytes(&[1, 2, 3]);
    assert_eq!(chunk.bytes, vec![1, 2, 3]);
}

#[test]
fn chunk_walk_yields_instructions_with_offsets() {
    let mut chunk = Chunk::new();
    chunk.write_op1(Instr::Constant, 0);
    chunk.write_op0(Instr::Print);
    chunk.write_op0(Instr::Exit);
    let mut walk: ChunkIntoIterator = chunk.into_iter();
    let a = walk.next().unwrap();
    assert!(matches!(a.instr, Instr::Constant));
    assert_eq!(a.offset, 0);
    let b = walk.next().unwrap();
    assert!(matches!(b.instr, Instr::Print));
    assert_eq!(b.offset, 2);
    let c = walk.next().unwrap();
    assert!(matches!(c.instr, Instr::Exit));
    assert_eq!(c.offset, 3);
    assert!(walk.next().is_none());
}
