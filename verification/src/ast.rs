//! The abstract syntax tree the parser hands to the compiler: expressions
//! over literals and variable bindings (optionally through a single list
//! index), and the statements the bytecode can express.

use vstd::prelude::*;

use crate::ops::{Binary, Unary};
use crate::value::Value;

verus! {

/// One expression node.
#[derive(Debug)]
pub enum Expr {
    /// A literal value.
    Literal(Value),
    /// A variable reference, optionally through a single list index.
    Binding { name: String, index: Option<Box<Expr>> },
    /// An assignment through a variable, optionally through a list index.
    Assign { name: String, index: Option<Box<Expr>>, expr: Box<Expr> },
    /// A binary operation; the left operand evaluates first.
    BinOp { left: Box<Expr>, right: Box<Expr>, op: Binary },
    /// A unary operation.
    UnOp { expr: Box<Expr>, op: Unary },
}

/// One statement node.
#[derive(Debug)]
pub enum Stmt {
    /// Declares a name in the current scope, optionally with an initializer.
    Declare { name: String, init: Option<Expr> },
    /// An expression evaluated for its value.
    Expr(Expr),
    /// Prints the value of an expression.
    Print(Expr),
    /// Ends the program.
    Exit,
}

/// A parsed program: a statement list.
pub type Ast = Vec<Stmt>;

/// Either kind of tree node.
#[derive(Debug)]
pub enum AstNode {
    Stmt(Stmt),
    Expr(Expr),
}

} // verus!
