use umpteen::env::{Env, Memory};
use umpteen::error::MemoryError;
use umpteen::value::Value;

#[test]
fn declare_twice_in_same_scope_fails() {
    let mut env = Env::new();
    env.declare("x").unwrap();
    let e = env.declare("x").unwrap_err();
    assert!(matches!(e, MemoryError::AlreadyDeclared(n) if n == "x"));
}

#[test]
fn shadowing_in_child_scope_is_allowed() {
    let mut env = Env::new();
    env.declare("x").unwrap();
    env.assign("x", None, Value::Number(1)).unwrap();
    let child = env.new_enclosed();
    let prev = env.set_current(Some(child));
    assert!(prev.is_none());
    env.declare("x").unwrap();
    env.assign("x", None, Value::Number(2)).unwrap();
    let inner = env.get("x", None).unwrap();
    assert!(matches!(inner, Value::Number(2)));
    env.set_current(None);
    let outer = env.get("x", None).unwrap();
    assert!(matches!(outer, Value::Number(1)));
}

#[test]
fn lookup_falls_back_to_global() {
    let mut env = Env::new();
    env.declare("g").unwrap();
    env.assign("g", None, Value::Number(9)).unwrap();
    let child = env.new_enclosed();
    env.set_current(Some(child));
    let v = env.get("g", None).unwrap();
    assert!(matches!(v, Value::Number(9)));
    env.assign("g", None, Value::Number(10)).unwrap();
    env.set_current(None);
    let v2 = env.get("g", None).unwrap();
    assert!(matches!(v2, Value::Number(10)));
}

#[test]
fn assign_before_declare_fails() {
    let mut env = Env::new();
    let e = env.assign("x", None, Value::Number(1)).unwrap_err();
    assert!(matches!(e, MemoryError::NoSuchVariable(n) if n == "x"));
}

#[test]
fn assign_after_bare_declare_succeeds() {
    let mut env = Env::new();
    env.declare("x").unwrap();
    env.assign("x", None, Value::Number(5)).unwrap();
    let v = env.get("x", None).unwrap();
    assert!(matches!(v, Value::Number(5)));
}

#[test]
fn uninitialized_read_is_an_error() {
    let mut env = Env::new();
    env.declare("x").unwrap();
    let e = env.get("x", None).unwrap_err();
    assert!(matches!(e, MemoryError::UninitializedVariableAccess(n) if n == "x"));
}

#[test]
fn indexed_assignment_pads_with_empty() {
    let mut env = Env::new();
    env.declare("xs").unwrap();
    env.assign("xs", None, Value::list(vec![Value::Number(1)]))
        .unwrap();
    env.assign("xs", Some(3), Value::Number(4)).unwrap();
    let whole = env.get("xs", None).unwrap();
    assert_eq!(whole.render(), "[1, <Empty>, <Empty>, 4]");
    assert!(matches!(env.get("xs", Some(0)).unwrap(), Value::Number(1)));
    assert!(matches!(env.get("xs", Some(1)).unwrap(), Value::Empty));
    assert!(matches!(env.get("xs", Some(2)).unwrap(), Value::Empty));
    assert!(matches!(env.get("xs", Some(3)).unwrap(), Value::Number(4)));
}

#[test]
fn indexed_read_past_end_is_an_error() {
    let mut env = Env::new();
    env.declare("xs").unwrap();
    env.assign("xs", None, Value::list(vec![Value::Number(1)]))
        .unwrap();
    let e = env.get("xs", Some(5)).unwrap_err();
    assert!(matches!(e, MemoryError::IndexOutOfBounds(_, 5)));
}

#[test]
fn indexing_a_non_list_is_an_error() {
    let mut env = Env::new();
    env.declare("n").unwrap();
    env.assign("n", None, Value::Number(1)).unwrap();
    let e = env.get("n", Some(0)).unwrap_err();
    assert!(matches!(e, MemoryError::CannotIndex(_)));
}

#[test]
fn memory_scope_level_operations() {
    let mut mem = Memory::new(None);
    assert!(mem.parent().is_none());
    mem.declare("a").unwrap();
    let e = mem.declare("a").unwrap_err();
    assert!(matches!(e, MemoryError::AlreadyDeclared(_)));
    mem.assign("a", None, Value::Boolean(true)).unwrap();
    let v = mem.get("a", None).unwrap();
    assert!(matches!(v, Value::Boolean(true)));
    let missing = mem.get("b", None).unwrap_err();
    assert!(matches!(missing, MemoryError::NoSuchVariable(_)));
}
