use umpteen::error::ParseError;
use umpteen::lexer::Lexer;
use umpteen::value::{Object, ObjectData};
use umpteen::ops::Binary;
use umpteen::parse::Parser;
use umpteen::token::TokenType;
use umpteen::value::{Value, ValueKind};

#[test]
fn number_arithmetic_exact_values() {
    let five = Value::Number(2).add(Value::Number(3)).unwrap();
    assert!(matches!(five, Value::Number(5)));
    let minus_one = Value::Number(2).sub(Value::Number(3)).unwrap();
    assert!(matches!(minus_one, Value::Number(-1)));
    let one = Value::Number(7).rem(Value::Number(2)).unwrap();
    assert!(matches!(one, Value::Number(1)));
    let six = Value::Number(2).mul(Value::Number(3)).unwrap();
    assert!(matches!(six, Value::Number(6)));
    let three = Value::Number(7).div(Value::Number(2)).unwrap();
    assert!(matches!(three, Value::Number(3)));
    let truncated = Value::Number(-7).div(Value::Number(2)).unwrap();
    assert!(matches!(truncated, Value::Number(-3)));
    let signed_rem = Value::Number(-7).rem(Value::Number(2)).unwrap();
    assert!(matches!(signed_rem, Value::Number(-1)));
}

#[test]
fn mixed_kind_arithmetic_is_illegal() {
    let e = Value::Number(2)
        .add(Value::string("a".to_string()))
        .unwrap_err();
    match e {
        ParseError::IllegalBinaryOperation(a, b, op) => {
            assert_eq!(a, ValueKind::Number);
            assert_eq!(b, ValueKind::Object);
            assert_eq!(op, Binary::Add);
        }
        other => panic!("unexpected error: {:?}", other),
    }
    let u = Value::Boolean(true).neg().unwrap_err();
    assert!(matches!(u, ParseError::IllegalUnaryOperation(ValueKind::Boolean, _)));
}

#[test]
fn truthiness_rules() {
    assert!(!Value::Empty.truthy());
    assert!(Value::Boolean(true).truthy());
    assert!(!Value::Boolean(false).truthy());
    assert!(Value::Number(1).truthy());
    assert!(!Value::Number(0).truthy());
    assert!(!Value::Number(-1).truthy());
    assert!(Value::string("x".to_string()).truthy());
    assert!(!Value::string(String::new()).truthy());
    assert!(!Value::list(vec![]).truthy());
    assert!(Value::list(vec![Value::Empty]).truthy());
}

#[test]
fn rendering_display_forms() {
    assert_eq!(Value::Number(10).render(), "10");
    assert_eq!(Value::Number(-273).render(), "-273");
    assert_eq!(Value::Number(0).render(), "0");
    assert_eq!(Value::Empty.render(), "<Empty>");
    assert_eq!(Value::Boolean(true).render(), "true");
    assert_eq!(Value::string("hey".to_string()).render(), "hey");
    let nested = Value::list(vec![
        Value::Number(1),
        Value::list(vec![Value::Boolean(false)]),
    ]);
    assert_eq!(nested.render(), "[1, [false]]");
}

#[test]
fn dup_preserves_structure() {
    let v = Value::list(vec![Value::Number(3), Value::string("s".to_string())]);
    let w = v.dup();
    assert_eq!(w, v);
    assert_eq!(w.render(), v.render());
}

#[test]
fn equality_is_structural() {
    let a = Value::list(vec![Value::Number(3), Value::string("s".to_string())]);
    let b = Value::list(vec![Value::Number(3), Value::string("s".to_string())]);
    let c = Value::list(vec![Value::Number(4)]);
    assert_eq!(a, b);
    assert!(a != c);
    assert!(Value::Empty != Value::Boolean(false));
}

#[test]
fn lexer_produces_expected_kinds() {
    let tokens = Lexer::new("let x = 10; print x;").scan();
    let kinds: Vec<TokenType> = tokens.iter().map(|t| t.kind).collect();
    assert_eq!(
        kinds,
        vec![
            TokenType::Let,
            TokenType::Identifier,
            TokenType::Equal,
            TokenType::Number,
            TokenType::Semicolon,
            TokenType::Print,
            TokenType::Identifier,
            TokenType::Semicolon,
            TokenType::Eof,
        ]
    );
    assert_eq!(tokens[1].lexeme, "x");
    assert_eq!(tokens[3].lexeme, "10");
    assert_eq!(tokens[0].line, 1);
}

#[test]
fn parser_rejects_missing_semicolon() {
    let tokens = Lexer::new("print 1").scan();
    let mut parser = Parser::new(tokens);
    let e = parser.parse().unwrap_err();
    assert!(matches!(e, ParseError::ExpectedToken(TokenType::Semicolon, 1)));
}

#[test]
fn object_emptiness() {
    let empty = Object(Box::new(ObjectData::Str(String::new())));
    assert!(empty.is_empty());
    let full = Object(Box::new(ObjectData::List(vec![Value::Empty])));
    assert!(!full.is_empty());
}
