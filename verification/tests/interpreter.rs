use umpteen::ast::{Expr, Stmt};
use umpteen::chunk::Chunk;
use umpteen::instr::Instr;
use umpteen::error::{ParseError, UmpteenError};
use umpteen::ops::Binary;
use umpteen::parse::parse_number;
use umpteen::runtime::{Runtime, Umpteen};
use umpteen::value::{Value, ValueKind};

#[test]
fn test_hello_world() {
    let _ = Umpteen::run("print 10;").unwrap();
}

#[test]
fn test_let_x_equal_10() {
    let _ = Umpteen::run("let x = 10;").unwrap();
}

#[test]
fn let_then_print_outputs_literal() {
    let mut rt = Runtime::new();
    let v = rt.run("let x = 10; print x;").unwrap();
    assert!(matches!(v, Value::Empty));
    assert_eq!(rt.out.len(), 1);
    assert_eq!(rt.out[0], "10");
}

#[test]
fn print_literal_outputs_display_form() {
    let mut rt = Runtime::new();
    rt.run("print 10;").unwrap();
    rt.run("print true;").unwrap();
    rt.run("print false;").unwrap();
    rt.run("print Empty;").unwrap();
    rt.run("print \"hi\";").unwrap();
    assert_eq!(rt.out, vec!["10", "true", "false", "<Empty>", "hi"]);
}

#[test]
fn arithmetic_follows_operator_semantics() {
    let mut rt = Runtime::new();
    rt.run("print 2 + 3;").unwrap();
    rt.run("print 2 - 3;").unwrap();
    rt.run("print 7 % 2;").unwrap();
    rt.run("print 7 / 2;").unwrap();
    rt.run("print 2 + 3 * 4;").unwrap();
    rt.run("print -5;").unwrap();
    assert_eq!(rt.out, vec!["5", "-1", "1", "3", "14", "-5"]);
}

#[test]
fn empty_program_returns_empty_value() {
    let v = Umpteen::run("").unwrap();
    assert!(matches!(v, Value::Empty));
}

#[test]
fn variable_state_persists_across_runs() {
    let mut rt = Runtime::new();
    rt.run("let x = 1;").unwrap();
    rt.run("x = x + 41; print x;").unwrap();
    assert_eq!(rt.out, vec!["42"]);
}

#[test]
fn undeclared_variable_read_fails() {
    let e = Umpteen::run("print x;").unwrap_err();
    assert!(matches!(
        e,
        UmpteenError::Memory(umpteen::error::MemoryError::NoSuchVariable(_))
    ));
}

#[test]
fn undeclared_assignment_fails() {
    let e = Umpteen::run("x = 1;").unwrap_err();
    assert!(matches!(
        e,
        UmpteenError::Memory(umpteen::error::MemoryError::NoSuchVariable(_))
    ));
}

#[test]
fn same_scope_redeclaration_fails() {
    let e = Umpteen::run("let x = 1; let x = 2;").unwrap_err();
    assert!(matches!(
        e,
        UmpteenError::Memory(umpteen::error::MemoryError::AlreadyDeclared(_))
    ));
}

#[test]
fn uninitialized_read_fails() {
    let e = Umpteen::run("let x; print x;").unwrap_err();
    assert!(matches!(
        e,
        UmpteenError::Memory(umpteen::error::MemoryError::UninitializedVariableAccess(_))
    ));
}

#[test]
fn division_by_zero_fails() {
    let e = Umpteen::run("print 1 / 0;").unwrap_err();
    assert!(matches!(
        e,
        UmpteenError::Parse(umpteen::error::ParseError::DivisionByZero(_))
    ));
}

#[test]
fn illegal_binary_operation_names_kinds() {
    let e = Umpteen::run("print 2 + \"a\";").unwrap_err();
    match e {
        UmpteenError::Parse(ParseError::IllegalBinaryOperation(a, b, op)) => {
            assert_eq!(a, ValueKind::Number);
            assert_eq!(b, ValueKind::Object);
            assert_eq!(op, Binary::Add);
        }
        other => panic!("unexpected error: {:?}", other),
    }
}

#[test]
fn invalid_numeric_literal_fails() {
    let e = Umpteen::run("print 10.5;").unwrap_err();
    assert!(matches!(
        e,
        UmpteenError::Parse(umpteen::error::ParseError::InvalidNumericLiteral(_, 1))
    ));
}

#[test]
fn unexpected_token_is_reported() {
    let e = Umpteen::run("let x = ;").unwrap_err();
    assert!(matches!(
        e,
        UmpteenError::Parse(ParseError::UnexpectedToken(_, _))
    ));
}

#[test]
fn negating_a_non_number_is_illegal() {
    let e = Umpteen::run("print -true;").unwrap_err();
    assert!(matches!(
        e,
        UmpteenError::Parse(ParseError::IllegalUnaryOperation(ValueKind::Boolean, _))
    ));
}

#[test]
fn constant_pool_overflow_is_reported() {
    let mut program = String::from("print 1");
    for _ in 0..300 {
        program.push_str(" + 1");
    }
    program.push(';');
    let e = Umpteen::run(&program).unwrap_err();
    assert!(matches!(
        e,
        UmpteenError::Compiler(umpteen::error::CompilerError::TooManyConstants)
    ));
}

#[test]
fn logical_not_uses_truthiness() {
    let mut rt = Runtime::new();
    rt.run("print !0;").unwrap();
    rt.run("print !1;").unwrap();
    rt.run("print !Empty;").unwrap();
    assert_eq!(rt.out, vec!["true", "false", "true"]);
}

#[test]
fn run_program_executes_a_built_statement_list() {
    let mut rt = Runtime::new();
    let ast = vec![
        Stmt::Declare {
            name: "x".to_string(),
            init: Some(Expr::Literal(Value::Number(10))),
        },
        Stmt::Print(Expr::Binding {
            name: "x".to_string(),
            index: None,
        }),
        Stmt::Exit,
    ];
    let v = rt.run_program(&ast).unwrap();
    assert!(matches!(v, Value::Empty));
    assert_eq!(rt.out, vec!["10"]);
}

#[test]
fn run_chunks_threads_state_between_chunks() {
    let mut rt = Runtime::new();
    rt.run("let x;").unwrap();
    let mut first = Chunk::new();
    let v = first.write_val(Value::Number(6));
    first.write_op1(Instr::Constant, v as u8);
    let name = first.write_val(Value::string("x".to_string()));
    first.write_op2(Instr::Assign, name as u8, 0);
    let mut second = Chunk::new();
    let name2 = second.write_val(Value::string("x".to_string()));
    second.write_op2(Instr::Get, name2 as u8, 0);
    second.write_op0(Instr::Print);
    second.write_op0(Instr::Exit);
    let r = rt.run_chunks(&vec![first, second]).unwrap();
    assert!(matches!(r, Value::Empty));
    assert_eq!(rt.out, vec!["6"]);
}

#[test]
fn numeric_literal_text_parses_to_its_value() {
    let v = parse_number(&"0900".to_string(), 1).unwrap();
    assert!(matches!(v, Value::Number(900)));
    let e = parse_number(&"12a".to_string(), 7).unwrap_err();
    assert!(matches!(e, ParseError::InvalidNumericLiteral(t, 7) if t == "12a"));
    let too_big = parse_number(&"9223372036854775808".to_string(), 1).unwrap_err();
    assert!(matches!(too_big, ParseError::InvalidNumericLiteral(_, _)));
    let max = parse_number(&"9223372036854775807".to_string(), 1).unwrap();
    assert!(matches!(max, Value::Number(i64::MAX)));
}

#[test]
fn parse_errors_carry_the_source_line() {
    let e = Umpteen::run("let x = 1;\nprint 2").unwrap_err();
    assert!(matches!(
        e,
        UmpteenError::Parse(ParseError::ExpectedToken(
            umpteen::token::TokenType::Semicolon,
            2
        ))
    ));
    let e2 = Umpteen::run("let a = 10.5;").unwrap_err();
    assert!(matches!(
        e2,
        UmpteenError::Parse(ParseError::InvalidNumericLiteral(t, 1)) if t == "10.5"
    ));
}
