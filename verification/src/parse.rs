//! The parser: recursive descent over the token stream, producing the
//! statement list the compiler lowers. The grammar covers declarations,
//! print statements, expression statements, assignment, the arithmetic
//! operators with their usual precedence, unary operators, and literals.

use vstd::prelude::*;

use crate::ast::{Ast, Expr, Stmt};
use crate::error::ParseError;
use crate::lexer::{token_model, tokens_models, tokens_terminated, TokenModel};
use crate::ops::{Binary, Unary};
use crate::token::{Token, TokenType};
use crate::value::{value_model, Value, ValueModel};

verus! {

/// The parser's state: the token stream and the position in it.
pub struct Parser {
    /// The tokens being parsed; ends with the end-of-input marker.
    pub tokens: Vec<Token>,
    /// Position of the next token to look at.
    pub index: usize,
}

impl Parser {
    /// The parser's internal invariant: the position stays on a token, and
    /// the stream is properly terminated.
    pub open spec fn wf(&self) -> bool {
        &&& self.index < self.tokens@.len()
        &&& tokens_terminated(self.tokens@)
    }

    /// A parser at the start of a terminated token stream.
    pub fn new(tokens: Vec<Token>) -> (r: Parser)
        requires
            tokens_terminated(tokens@),
        ensures
            r.wf(),
            r.tokens == tokens,
            r.index == 0,
    {
        Parser { tokens, index: 0 }
    }

    /// The token under the cursor.
    pub fn peek(&self) -> (r: &Token)
        requires
            self.wf(),
        ensures
            *r == self.tokens@[self.index as int],
    {
        &self.tokens[self.index]
    }

    /// The token just consumed; at the start, the first token.
    pub fn previous(&self) -> (r: &Token)
        requires
            self.wf(),
        ensures
            self.index > 0 ==> *r == self.tokens@[self.index - 1],
            self.index == 0 ==> *r == self.tokens@[0],
    {
        if self.index > 0 {
            &self.tokens[self.index - 1]
        } else {
            &self.tokens[0]
        }
    }

    /// Whether the whole stream has been consumed.
    pub fn at_end(&self) -> (r: bool)
        requires
            self.wf(),
        ensures
            r == (self.tokens@[self.index as int].kind == TokenType::Eof),
    {
        self.peek().kind == TokenType::Eof
    }

    /// Whether the token under the cursor has the given kind.
    pub fn check(&self, kind: TokenType) -> (r: bool)
        requires
            self.wf(),
        ensures
            kind != TokenType::Eof ==> r == (self.tokens@[self.index as int].kind == kind),
            r ==> self.tokens@[self.index as int].kind == kind,
    {
        if self.at_end() {
            false
        } else {
            self.peek().kind == kind
        }
    }

    /// Consumes one token and returns a copy of it, staying put at the end
    /// of the stream.
    pub fn advance(&mut self) -> (r: Token)
        requires
            old(self).wf(),
        ensures
            final(self).wf(),
            final(self).tokens == old(self).tokens,
            old(self).tokens@[old(self).index as int].kind != TokenType::Eof ==> final(self).index == old(self).index + 1,
            old(self).tokens@[old(self).index as int].kind == TokenType::Eof ==> final(self).index == old(self).index,
            old(self).tokens@[old(self).index as int].kind != TokenType::Eof ==> ({
                let t = old(self).tokens@[old(self).index as int];
                r.kind == t.kind && r.lexeme@ == t.lexeme@ && r.line == t.line
            }),
    {
        let n = self.tokens.len();
        if !self.at_end() && self.index < n {
            self.index = self.index + 1;
        }
        let t = self.previous();
        Token::new(t.kind, t.lexeme.clone(), t.line)
    }

    /// Consumes the token under the cursor exactly when it has the given
    /// kind, returning a copy of it; else fails with the expected kind and
    /// stays put.
    pub fn consume(&mut self, kind: TokenType) -> (r: Result<Token, ParseError>)
        requires
            old(self).wf(),
            kind != TokenType::Eof,
        ensures
            final(self).wf(),
            final(self).tokens == old(self).tokens,
            (r is Ok) == (old(self).tokens@[old(self).index as int].kind == kind),
            r matches Ok(t) ==> final(self).index == old(self).index + 1 && ({
                let c = old(self).tokens@[old(self).index as int];
                t.kind == kind && t.lexeme@ == c.lexeme@ && t.line == c.line
            }),
            r matches Err(e) ==> final(self).index == old(self).index && e
                == ParseError::ExpectedToken(kind, old(self).tokens@[old(self).index as int].line),
    {
        if self.check(kind) {
            Ok(self.advance())
        } else {
            let line = self.peek().line;
            Err(ParseError::ExpectedToken(kind, line))
        }
    }

    /// Consumes the token under the cursor if its kind is in the given
    /// pair, telling which one matched.
    fn catch2(&mut self, a: TokenType, b: TokenType) -> (r: Option<TokenType>)
        requires
            old(self).wf(),
            a != TokenType::Eof,
            b != TokenType::Eof,
        ensures
            final(self).wf(),
            final(self).tokens == old(self).tokens,
            r is Some ==> final(self).index == old(self).index + 1,
            r is None ==> final(self).index == old(self).index,
            r matches Some(k) ==> (k == a || k == b) && old(self).tokens@[old(self).index
                as int].kind == k,
            r is None ==> old(self).tokens@[old(self).index as int].kind != a && old(
                self,
            ).tokens@[old(self).index as int].kind != b,
    {
        if self.check(a) {
            self.advance();
            Some(a)
        } else if self.check(b) {
            self.advance();
            Some(b)
        } else {
            None
        }
    }

    /// Parses the whole stream into a statement list, exactly as the
    /// grammar model says: every Ok result ends with the exit statement,
    /// and an empty stream parses to the exit statement alone. A statement
    /// error stops the parse and surfaces as it is.
    #[verifier::loop_isolation(false)]
    pub fn parse(&mut self) -> (r: Result<Ast, ParseError>)
        requires
            old(self).wf(),
        ensures
            final(self).wf(),
            r matches Ok(ast) ==> ast@.len() >= 1 && ast@.last() == Stmt::Exit,
            old(self).tokens@[old(self).index as int].kind == TokenType::Eof ==> (r matches Ok(
                ast,
            ) && ast@ == seq![Stmt::Exit]),
            ({
                let m = p_stmts(tokens_models(old(self).tokens@), old(self).index as int);
                match r {
                    Ok(ast) => m matches Ok(sm) && stmts_models(ast@) == sm,
                    Err(er) => m matches Err(pm) && perr_matches(er, pm),
                }
            }),
    {
        let ghost tm = tokens_models(old(self).tokens@);
        let ghost i0 = old(self).index as int;
        proof {
            lemma_stream_wf(old(self).tokens@);
        }
        let mut ast: Ast = Vec::new();
        while !self.at_end()
            invariant
                self.wf(),
                self.tokens == old(self).tokens,
                old(self).tokens@[old(self).index as int].kind == TokenType::Eof ==> (ast@.len()
                    == 0 && self.index == old(self).index),
                match p_stmts(tm, self.index as int) {
                    Err(m) => p_stmts(tm, i0) == Err::<Seq<StmtModel>, PErrModel>(m),
                    Ok(rest) => p_stmts(tm, i0) == Ok::<Seq<StmtModel>, PErrModel>(
                        stmts_models(ast@) + rest,
                    ),
                },
            decreases self.tokens@.len() - self.index,
        {
            proof {
                if old(self).tokens@[old(self).index as int].kind == TokenType::Eof {
                    assert(self.tokens@[self.index as int].kind != TokenType::Eof);
                    assert(false);
                }
            }
            let ghost pre_idx = self.index as int;
            let ghost toks = ast@;
            match self.declaration() {
                Ok(stmt) => {
                    proof {
                        assert(held(tm.len() as int, pre_idx, self.index as int) == self.index
                            as int);
                        assert(stmts_models(toks.push(stmt)) =~= stmts_models(toks)
                            + seq![stmt_model(stmt)]);
                        match p_stmts(tm, self.index as int) {
                            Err(_) => {},
                            Ok(rest) => {
                                assert(stmts_models(toks) + (seq![stmt_model(stmt)] + rest) =~= (
                                stmts_models(toks) + seq![stmt_model(stmt)]) + rest);
                            },
                        }
                    }
                    ast.push(stmt)
                },
                Err(e) => {
                    return Err(e);
                },
            }
        }
        ast.push(Stmt::Exit);
        proof {
            assert(stmts_models(ast@) =~= stmts_models(ast@.drop_last()) + seq![
                StmtModel::Exit,
            ]);
            if old(self).tokens@[old(self).index as int].kind == TokenType::Eof {
                assert(ast@ =~= seq![Stmt::Exit]);
            }
        }
        Ok(ast)
    }

    /// Parses one declaration or, failing a declaration keyword, one
    /// statement, exactly as the grammar model says.
    pub fn declaration(&mut self) -> (r: Result<Stmt, ParseError>)
        requires
            old(self).wf(),
        ensures
            final(self).wf(),
            final(self).tokens == old(self).tokens,
            old(self).index <= final(self).index,
            r is Ok ==> final(self).index > old(self).index,
            ({
                let m = p_declaration(tokens_models(old(self).tokens@), old(self).index as int);
                match r {
                    Ok(st) => m matches Ok((sm, j)) && stmt_model(st) == sm && final(self).index
                        as int == j,
                    Err(er) => m matches Err(pm) && perr_matches(er, pm),
                }
            }),
    {
        proof {
            lemma_stream_wf(old(self).tokens@);
        }
        if self.check(TokenType::Let) {
            self.advance();
            return self.declare_variable(false);
        }
        self.statement()
    }

    /// Parses one statement: a print statement or an expression statement,
    /// exactly as the grammar model says.
    fn statement(&mut self) -> (r: Result<Stmt, ParseError>)
        requires
            old(self).wf(),
        ensures
            final(self).wf(),
            final(self).tokens == old(self).tokens,
            old(self).index <= final(self).index,
            r is Ok ==> final(self).index > old(self).index,
            ({
                let m = p_statement(tokens_models(old(self).tokens@), old(self).index as int);
                match r {
                    Ok(st) => m matches Ok((sm, j)) && stmt_model(st) == sm && final(self).index
                        as int == j,
                    Err(er) => m matches Err(pm) && perr_matches(er, pm),
                }
            }),
    {
        let ghost tm = tokens_models(old(self).tokens@);
        let ghost i0 = old(self).index as int;
        proof {
            lemma_stream_wf(old(self).tokens@);
        }
        if self.check(TokenType::Print) {
            self.advance();
            return self.print();
        }
        let expr = self.expression()?;
        proof {
            assert(held(tm.len() as int, i0, self.index as int) == self.index as int);
        }
        self.consume(TokenType::Semicolon)?;
        Ok(Stmt::Expr(expr))
    }

    /// Parses a variable declaration after its keyword: the name, an
    /// optional initializer, and the closing semicolon, exactly as the
    /// grammar model says. Whether the binding was introduced as mutable
    /// makes no difference yet: every binding is mutable.
    pub fn declare_variable(&mut self, _mutable: bool) -> (r: Result<Stmt, ParseError>)
        requires
            old(self).wf(),
        ensures
            final(self).wf(),
            final(self).tokens == old(self).tokens,
            old(self).index <= final(self).index,
            r is Ok ==> final(self).index > old(self).index,
            ({
                let m = p_declare_variable(
                    tokens_models(old(self).tokens@),
                    old(self).index as int,
                );
                match r {
                    Ok(st) => m matches Ok((sm, j)) && stmt_model(st) == sm && final(self).index
                        as int == j,
                    Err(er) => m matches Err(pm) && perr_matches(er, pm),
                }
            }),
    {
        let ghost tm = tokens_models(old(self).tokens@);
        proof {
            lemma_stream_wf(old(self).tokens@);
        }
        let name_token = self.consume(TokenType::Identifier)?;
        let name = name_token.lexeme;
        let ghost j0 = self.index as int;
        let init: Option<Expr> = if self.check(TokenType::Equal) {
            self.advance();
            let e = self.expression()?;
            proof {
                assert(held(tm.len() as int, j0, self.index as int) == self.index as int);
            }
            Some(e)
        } else {
            None
        };
        self.consume(TokenType::Semicolon)?;
        Ok(Stmt::Declare { name, init })
    }

    /// Parses a print statement after its keyword: the operand expression
    /// and the closing semicolon, exactly as the grammar model says.
    pub fn print(&mut self) -> (r: Result<Stmt, ParseError>)
        requires
            old(self).wf(),
        ensures
            final(self).wf(),
            final(self).tokens == old(self).tokens,
            old(self).index <= final(self).index,
            r is Ok ==> final(self).index > old(self).index,
            ({
                let m = p_print(tokens_models(old(self).tokens@), old(self).index as int);
                match r {
                    Ok(st) => m matches Ok((sm, j)) && stmt_model(st) == sm && final(self).index
                        as int == j,
                    Err(er) => m matches Err(pm) && perr_matches(er, pm),
                }
            }),
    {
        let ghost tm = tokens_models(old(self).tokens@);
        let ghost i0 = old(self).index as int;
        proof {
            lemma_stream_wf(old(self).tokens@);
        }
        let value = self.expression()?;
        proof {
            assert(held(tm.len() as int, i0, self.index as int) == self.index as int);
        }
        self.consume(TokenType::Semicolon)?;
        Ok(Stmt::Print(value))
    }

    /// Parses one expression, exactly as the grammar model says.
    pub fn expression(&mut self) -> (r: Result<Expr, ParseError>)
        requires
            old(self).wf(),
        ensures
            final(self).wf(),
            final(self).tokens == old(self).tokens,
            old(self).index <= final(self).index,
            r is Ok ==> final(self).index > old(self).index,
            ({
                let m = p_assignment(tokens_models(old(self).tokens@), old(self).index as int);
                match r {
                    Ok(e) => m matches Ok((em, j)) && expr_model(e) == em && final(self).index
                        as int == j,
                    Err(er) => m matches Err(pm) && perr_matches(er, pm),
                }
            }),
    {
        self.assignment()
    }

    /// Parses an assignment, or the expression below it, exactly as the
    /// grammar model says: an assignment whose target is not a variable
    /// binding degrades to a no-op empty literal, as the grammar's
    /// recovery rule says.
    pub fn assignment(&mut self) -> (r: Result<Expr, ParseError>)
        requires
            old(self).wf(),
        ensures
            final(self).wf(),
            final(self).tokens == old(self).tokens,
            old(self).index <= final(self).index,
            r is Ok ==> final(self).index > old(self).index,
            ({
                let m = p_assignment(tokens_models(old(self).tokens@), old(self).index as int);
                match r {
                    Ok(e) => m matches Ok((em, j)) && expr_model(e) == em && final(self).index
                        as int == j,
                    Err(er) => m matches Err(pm) && perr_matches(er, pm),
                }
            }),
        decreases old(self).tokens@.len() - old(self).index,
    {
        let ghost tm = tokens_models(old(self).tokens@);
        let ghost i0 = old(self).index as int;
        proof {
            lemma_stream_wf(old(self).tokens@);
        }
        let expr = self.equality()?;
        proof {
            assert(held(tm.len() as int, i0, self.index as int) == self.index as int);
        }
        if self.check(TokenType::Equal) {
            self.advance();
            let value = self.assignment()?;
            if let Expr::Binding { name, index } = expr {
                return Ok(Expr::Assign { name, index, expr: Box::new(value) });
            }
            return Ok(Expr::Literal(Value::Empty));
        }
        Ok(expr)
    }

    /// Parses at the equality level. The token set holds no equality
    /// operator, so this level passes straight down.
    pub fn equality(&mut self) -> (r: Result<Expr, ParseError>)
        requires
            old(self).wf(),
        ensures
            final(self).wf(),
            final(self).tokens == old(self).tokens,
            old(self).index <= final(self).index,
            r is Ok ==> final(self).index > old(self).index,
            ({
                let m = p_term(tokens_models(old(self).tokens@), old(self).index as int);
                match r {
                    Ok(e) => m matches Ok((em, j)) && expr_model(e) == em && final(self).index
                        as int == j,
                    Err(er) => m matches Err(pm) && perr_matches(er, pm),
                }
            }),
    {
        self.comparison()
    }

    /// Parses at the comparison level. The token set holds no comparison
    /// operator, so this level passes straight down.
    pub fn comparison(&mut self) -> (r: Result<Expr, ParseError>)
        requires
            old(self).wf(),
        ensures
            final(self).wf(),
            final(self).tokens == old(self).tokens,
            old(self).index <= final(self).index,
            r is Ok ==> final(self).index > old(self).index,
            ({
                let m = p_term(tokens_models(old(self).tokens@), old(self).index as int);
                match r {
                    Ok(e) => m matches Ok((em, j)) && expr_model(e) == em && final(self).index
                        as int == j,
                    Err(er) => m matches Err(pm) && perr_matches(er, pm),
                }
            }),
    {
        self.term()
    }

    /// Parses additive expressions, left associated, exactly as the
    /// grammar model says.
    #[verifier::loop_isolation(false)]
    pub fn term(&mut self) -> (r: Result<Expr, ParseError>)
        requires
            old(self).wf(),
        ensures
            final(self).wf(),
            final(self).tokens == old(self).tokens,
            old(self).index <= final(self).index,
            r is Ok ==> final(self).index > old(self).index,
            ({
                let m = p_term(tokens_models(old(self).tokens@), old(self).index as int);
                match r {
                    Ok(e) => m matches Ok((em, j)) && expr_model(e) == em && final(self).index
                        as int == j,
                    Err(er) => m matches Err(pm) && perr_matches(er, pm),
                }
            }),
    {
        let ghost tm = tokens_models(old(self).tokens@);
        let ghost i0 = old(self).index as int;
        proof {
            lemma_stream_wf(old(self).tokens@);
        }
        let mut expr = self.factor()?;
        proof {
            assert(held(tm.len() as int, i0, self.index as int) == self.index as int);
        }
        loop
            invariant
                self.wf(),
                self.tokens == old(self).tokens,
                old(self).index < self.index,
                p_term(tm, i0) == p_term_more(tm, self.index as int, expr_model(expr)),
            decreases self.tokens@.len() - self.index,
        {
            let ghost idx = self.index as int;
            let ghost em = expr_model(expr);
            let op = if self.check(TokenType::Plus) {
                Binary::Add
            } else if self.check(TokenType::Minus) {
                Binary::Subtract
            } else {
                break ;
            };
            self.advance();
            let right = self.factor()?;
            proof {
                assert(held(tm.len() as int, idx, self.index as int) == self.index as int);
            }
            expr = Expr::BinOp { left: Box::new(expr), right: Box::new(right), op };
        }
        proof {
            assert(p_term_more(tm, self.index as int, expr_model(expr)) == Ok::<
                (ExprModel, int),
                PErrModel,
            >((expr_model(expr), self.index as int)));
        }
        Ok(expr)
    }

    /// Parses multiplicative expressions, left associated, exactly as the
    /// grammar model says.
    #[verifier::loop_isolation(false)]
    pub fn factor(&mut self) -> (r: Result<Expr, ParseError>)
        requires
            old(self).wf(),
        ensures
            final(self).wf(),
            final(self).tokens == old(self).tokens,
            old(self).index <= final(self).index,
            r is Ok ==> final(self).index > old(self).index,
            ({
                let m = p_factor(tokens_models(old(self).tokens@), old(self).index as int);
                match r {
                    Ok(e) => m matches Ok((em, j)) && expr_model(e) == em && final(self).index
                        as int == j,
                    Err(er) => m matches Err(pm) && perr_matches(er, pm),
                }
            }),
    {
        let ghost tm = tokens_models(old(self).tokens@);
        let ghost i0 = old(self).index as int;
        proof {
            lemma_stream_wf(old(self).tokens@);
        }
        let mut expr = self.unary()?;
        proof {
            assert(held(tm.len() as int, i0, self.index as int) == self.index as int);
        }
        loop
            invariant
                self.wf(),
                self.tokens == old(self).tokens,
                old(self).index < self.index,
                p_factor(tm, i0) == p_factor_more(tm, self.index as int, expr_model(expr)),
            decreases self.tokens@.len() - self.index,
        {
            let ghost idx = self.index as int;
            let ghost em = expr_model(expr);
            let op = if self.check(TokenType::Slash) {
                Binary::Divide
            } else if self.check(TokenType::Asterisk) {
                Binary::Multiply
            } else if self.check(TokenType::Percent) {
                Binary::Modulo
            } else {
                break ;
            };
            self.advance();
            let right = self.unary()?;
            proof {
                assert(held(tm.len() as int, idx, self.index as int) == self.index as int);
            }
            expr = Expr::BinOp { left: Box::new(expr), right: Box::new(right), op };
        }
        proof {
            assert(p_factor_more(tm, self.index as int, expr_model(expr)) == Ok::<
                (ExprModel, int),
                PErrModel,
            >((expr_model(expr), self.index as int)));
        }
        Ok(expr)
    }

    /// Parses unary operators, right associated, or the operand below them,
    /// exactly as the grammar model says.
    pub fn unary(&mut self) -> (r: Result<Expr, ParseError>)
        requires
            old(self).wf(),
        ensures
            final(self).wf(),
            final(self).tokens == old(self).tokens,
            old(self).index <= final(self).index,
            r is Ok ==> final(self).index > old(self).index,
            ({
                let m = p_unary(tokens_models(old(self).tokens@), old(self).index as int);
                match r {
                    Ok(e) => m matches Ok((em, j)) && expr_model(e) == em && final(self).index
                        as int == j,
                    Err(er) => m matches Err(pm) && perr_matches(er, pm),
                }
            }),
        decreases old(self).tokens@.len() - old(self).index,
    {
        let op = match self.catch2(TokenType::Bang, TokenType::Minus) {
            Some(TokenType::Bang) => Some(Unary::Not),
            Some(_) => Some(Unary::Negate),
            None => None,
        };
        match op {
            Some(op) => {
                let operand = self.unary()?;
                Ok(Expr::UnOp { expr: Box::new(operand), op })
            },
            None => self.primary(),
        }
    }

    /// Parses a primary expression: a variable binding or a literal,
    /// exactly as the grammar model says.
    pub fn primary(&mut self) -> (r: Result<Expr, ParseError>)
        requires
            old(self).wf(),
        ensures
            final(self).wf(),
            final(self).tokens == old(self).tokens,
            old(self).index <= final(self).index,
            r is Ok ==> final(self).index > old(self).index,
            ({
                let m = p_primary(tokens_models(old(self).tokens@), old(self).index as int);
                match r {
                    Ok(e) => m matches Ok((em, j)) && expr_model(e) == em && final(self).index
                        as int == j,
                    Err(er) => m matches Err(pm) && perr_matches(er, pm),
                }
            }),
    {
        if self.check(TokenType::Identifier) {
            let t = self.advance();
            return Ok(Expr::Binding { name: t.lexeme, index: None });
        }
        if self.check(TokenType::Empty) {
            self.advance();
            return Ok(Expr::Literal(Value::Empty));
        }
        if self.check(TokenType::True) {
            self.advance();
            return Ok(Expr::Literal(Value::Boolean(true)));
        }
        if self.check(TokenType::False) {
            self.advance();
            return Ok(Expr::Literal(Value::Boolean(false)));
        }
        if self.check(TokenType::Number) {
            let t = self.advance();
            let v = parse_number(&t.lexeme, t.line)?;
            return Ok(Expr::Literal(v));
        }
        if self.check(TokenType::Str) {
            let t = self.advance();
            return Ok(Expr::Literal(Value::string(t.lexeme)));
        }
        let t = self.previous();
        Err(ParseError::UnexpectedToken(t.kind, t.line))
    }
}


/// Spec-level abstract syntax: names and literal values as plain
/// mathematical data.
pub enum ExprModel {
    Literal(ValueModel),
    Binding { name: Seq<char>, index: Option<Box<ExprModel>> },
    Assign { name: Seq<char>, index: Option<Box<ExprModel>>, expr: Box<ExprModel> },
    BinOp { left: Box<ExprModel>, right: Box<ExprModel>, op: Binary },
    UnOp { expr: Box<ExprModel>, op: Unary },
}

/// Model of an expression node.
pub open spec fn expr_model(e: Expr) -> ExprModel
    decreases e,
{
    match e {
        Expr::Literal(v) => ExprModel::Literal(value_model(v)),
        Expr::Binding { name, index } => ExprModel::Binding {
            name: name@,
            index: match index {
                None => None,
                Some(b) => Some(Box::new(expr_model(*b))),
            },
        },
        Expr::Assign { name, index, expr } => ExprModel::Assign {
            name: name@,
            index: match index {
                None => None,
                Some(b) => Some(Box::new(expr_model(*b))),
            },
            expr: Box::new(expr_model(*expr)),
        },
        Expr::BinOp { left, right, op } => ExprModel::BinOp {
            left: Box::new(expr_model(*left)),
            right: Box::new(expr_model(*right)),
            op,
        },
        Expr::UnOp { expr, op } => ExprModel::UnOp { expr: Box::new(expr_model(*expr)), op },
    }
}

/// The parse failures, at the model level.
pub enum PErrModel {
    Unexpected(TokenType, u64),
    Expected(TokenType, u64),
    BadNumber(Seq<char>, u64),
}

/// Whether a parse error value reports the given model-level failure.
pub open spec fn perr_matches(e: ParseError, m: PErrModel) -> bool {
    match (e, m) {
        (ParseError::UnexpectedToken(k, l), PErrModel::Unexpected(k2, l2)) => k == k2 && l == l2,
        (ParseError::ExpectedToken(k, l), PErrModel::Expected(k2, l2)) => k == k2 && l == l2,
        (ParseError::InvalidNumericLiteral(t, l), PErrModel::BadNumber(t2, l2)) => t@ == t2 && l
            == l2,
        _ => false,
    }
}

/// Whether a modelled token stream is properly terminated.
pub open spec fn stream_wf(ts: Seq<TokenModel>) -> bool {
    &&& ts.len() >= 1
    &&& ts.last().kind == TokenType::Eof
    &&& forall|i: int| 0 <= i < ts.len() - 1 ==> (#[trigger] ts[i]).kind != TokenType::Eof
}

/// The cursor a sub-parse left, held strictly forward and on the stream;
/// the guards keep the grammar's walk well founded, and a sub-parse of
/// this grammar never actually needs them.
pub open spec fn held(ts_len: int, i: int, j: int) -> int {
    if i < j <= ts_len {
        j
    } else if i + 1 <= ts_len {
        i + 1
    } else {
        ts_len
    }
}

/// Parses one primary expression at a position: a variable binding or a
/// literal, consuming one token; anything else is refused at the token
/// the cursor last consumed.
pub open spec fn p_primary(ts: Seq<TokenModel>, i: int) -> Result<(ExprModel, int), PErrModel>
    recommends
        0 <= i < ts.len(),
{
    let t = ts[i];
    if t.kind == TokenType::Identifier {
        Ok((ExprModel::Binding { name: t.lexeme, index: None }, i + 1))
    } else if t.kind == TokenType::Empty {
        Ok((ExprModel::Literal(ValueModel::Empty), i + 1))
    } else if t.kind == TokenType::True {
        Ok((ExprModel::Literal(ValueModel::Boolean(true)), i + 1))
    } else if t.kind == TokenType::False {
        Ok((ExprModel::Literal(ValueModel::Boolean(false)), i + 1))
    } else if t.kind == TokenType::Number {
        if t.lexeme.len() > 0 && all_digits(t.lexeme) && digits_value(t.lexeme) <= i64::MAX {
            Ok((ExprModel::Literal(ValueModel::Number(digits_value(t.lexeme) as i64)), i + 1))
        } else {
            Err(PErrModel::BadNumber(t.lexeme, t.line))
        }
    } else if t.kind == TokenType::Str {
        Ok((ExprModel::Literal(ValueModel::Str(t.lexeme)), i + 1))
    } else {
        let p = if i > 0 {
            ts[i - 1]
        } else {
            ts[0]
        };
        Err(PErrModel::Unexpected(p.kind, p.line))
    }
}

/// Parses unary operators, right associated, or the operand below them.
pub open spec fn p_unary(ts: Seq<TokenModel>, i: int) -> Result<(ExprModel, int), PErrModel>
    recommends
        0 <= i < ts.len(),
    decreases ts.len() - i, 1int,
    when 0 <= i < ts.len()
{
    let t = ts[i];
    if t.kind == TokenType::Bang || t.kind == TokenType::Minus {
        let op = if t.kind == TokenType::Bang {
            Unary::Not
        } else {
            Unary::Negate
        };
        if i + 1 < ts.len() {
            match p_unary(ts, i + 1) {
                Err(m) => Err(m),
                Ok((e, j)) => Ok((ExprModel::UnOp { expr: Box::new(e), op }, j)),
            }
        } else {
            let p = ts[i];
            Err(PErrModel::Unexpected(p.kind, p.line))
        }
    } else {
        p_primary(ts, i)
    }
}


/// Extends a parsed operand with multiplicative operators, left
/// associated, as far as they continue.
pub open spec fn p_factor_more(ts: Seq<TokenModel>, i: int, left: ExprModel) -> Result<
    (ExprModel, int),
    PErrModel,
>
    recommends
        0 <= i < ts.len(),
    decreases ts.len() - i, 2int,
    when 0 <= i <= ts.len() && stream_wf(ts)
{
    if i >= ts.len() {
        Ok((left, i))
    } else {
        let t = ts[i];
        let op = if t.kind == TokenType::Slash {
            Some(Binary::Divide)
        } else if t.kind == TokenType::Asterisk {
            Some(Binary::Multiply)
        } else if t.kind == TokenType::Percent {
            Some(Binary::Modulo)
        } else {
            None
        };
        match op {
            None => Ok((left, i)),
            Some(op) => {
                if i + 1 < ts.len() {
                    match p_unary(ts, i + 1) {
                        Err(m) => Err(m),
                        Ok((r, j)) => p_factor_more(
                            ts,
                            held(ts.len() as int, i, j),
                            ExprModel::BinOp { left: Box::new(left), right: Box::new(r), op },
                        ),
                    }
                } else {
                    Ok((left, i))
                }
            },
        }
    }
}

/// Parses multiplicative expressions, left associated.
pub open spec fn p_factor(ts: Seq<TokenModel>, i: int) -> Result<(ExprModel, int), PErrModel>
    recommends
        0 <= i < ts.len(),
    decreases ts.len() - i, 3int,
    when 0 <= i < ts.len() && stream_wf(ts)
{
    match p_unary(ts, i) {
        Err(m) => Err(m),
        Ok((e, j)) => p_factor_more(ts, held(ts.len() as int, i, j), e),
    }
}

/// Extends a parsed operand with additive operators, left associated, as
/// far as they continue.
pub open spec fn p_term_more(ts: Seq<TokenModel>, i: int, left: ExprModel) -> Result<
    (ExprModel, int),
    PErrModel,
>
    recommends
        0 <= i < ts.len(),
    decreases ts.len() - i, 4int,
    when 0 <= i <= ts.len() && stream_wf(ts)
{
    if i >= ts.len() {
        Ok((left, i))
    } else {
        let t = ts[i];
        let op = if t.kind == TokenType::Plus {
            Some(Binary::Add)
        } else if t.kind == TokenType::Minus {
            Some(Binary::Subtract)
        } else {
            None
        };
        match op {
            None => Ok((left, i)),
            Some(op) => {
                if i + 1 < ts.len() {
                    match p_factor(ts, i + 1) {
                        Err(m) => Err(m),
                        Ok((r, j)) => p_term_more(
                            ts,
                            held(ts.len() as int, i, j),
                            ExprModel::BinOp { left: Box::new(left), right: Box::new(r), op },
                        ),
                    }
                } else {
                    Ok((left, i))
                }
            },
        }
    }
}

/// Parses additive expressions, left associated.
pub open spec fn p_term(ts: Seq<TokenModel>, i: int) -> Result<(ExprModel, int), PErrModel>
    recommends
        0 <= i < ts.len(),
    decreases ts.len() - i, 5int,
    when 0 <= i < ts.len() && stream_wf(ts)
{
    match p_factor(ts, i) {
        Err(m) => Err(m),
        Ok((e, j)) => p_term_more(ts, held(ts.len() as int, i, j), e),
    }
}


/// Parses an assignment, or the expression below it. An assignment whose
/// target is not a variable binding degrades to the no-op empty-literal
/// placeholder, consuming the whole right-hand side.
pub open spec fn p_assignment(ts: Seq<TokenModel>, i: int) -> Result<
    (ExprModel, int),
    PErrModel,
>
    recommends
        0 <= i < ts.len(),
    decreases ts.len() - i, 6int,
    when 0 <= i < ts.len() && stream_wf(ts)
{
    match p_term(ts, i) {
        Err(m) => Err(m),
        Ok((e, j)) => {
            let jj = held(ts.len() as int, i, j);
            if jj < ts.len() && ts[jj].kind == TokenType::Equal && jj + 1 < ts.len() {
                match p_assignment(ts, jj + 1) {
                    Err(m) => Err(m),
                    Ok((v, k)) => match e {
                        ExprModel::Binding { name, index } => Ok(
                            (ExprModel::Assign { name, index, expr: Box::new(v) }, k),
                        ),
                        _ => Ok((ExprModel::Literal(ValueModel::Empty), k)),
                    },
                }
            } else {
                Ok((e, jj))
            }
        },
    }
}


/// Spec-level statement nodes.
pub enum StmtModel {
    Declare { name: Seq<char>, init: Option<ExprModel> },
    Expr(ExprModel),
    Print(ExprModel),
    Exit,
}

/// Model of a statement node.
pub open spec fn stmt_model(s: Stmt) -> StmtModel {
    match s {
        Stmt::Declare { name, init } => StmtModel::Declare {
            name: name@,
            init: match init {
                None => None,
                Some(e) => Some(expr_model(e)),
            },
        },
        Stmt::Expr(e) => StmtModel::Expr(expr_model(e)),
        Stmt::Print(e) => StmtModel::Print(expr_model(e)),
        Stmt::Exit => StmtModel::Exit,
    }
}

/// Models of a statement list, statement by statement.
pub open spec fn stmts_models(ss: Seq<Stmt>) -> Seq<StmtModel> {
    ss.map_values(|s: Stmt| stmt_model(s))
}

/// The line a failed token expectation reports: the token under the
/// cursor's.
pub open spec fn line_at(ts: Seq<TokenModel>, i: int) -> u64 {
    if 0 <= i < ts.len() {
        ts[i].line
    } else {
        0
    }
}

/// Parses a print statement after its keyword: the operand expression and
/// the closing semicolon.
pub open spec fn p_print(ts: Seq<TokenModel>, i: int) -> Result<(StmtModel, int), PErrModel>
    recommends
        0 <= i < ts.len(),
    decreases ts.len() - i, 7int,
    when 0 <= i < ts.len() && stream_wf(ts)
{
    match p_assignment(ts, i) {
        Err(m) => Err(m),
        Ok((e, j)) => {
            let jj = held(ts.len() as int, i, j);
            if jj < ts.len() && ts[jj].kind == TokenType::Semicolon {
                Ok((StmtModel::Print(e), jj + 1))
            } else {
                Err(PErrModel::Expected(TokenType::Semicolon, line_at(ts, jj)))
            }
        },
    }
}

/// Parses a variable declaration after its keyword: the name, an optional
/// initializer, and the closing semicolon.
pub open spec fn p_declare_variable(ts: Seq<TokenModel>, i: int) -> Result<
    (StmtModel, int),
    PErrModel,
>
    recommends
        0 <= i < ts.len(),
    decreases ts.len() - i, 7int,
    when 0 <= i < ts.len() && stream_wf(ts)
{
    if ts[i].kind != TokenType::Identifier {
        Err(PErrModel::Expected(TokenType::Identifier, line_at(ts, i)))
    } else {
        let name = ts[i].lexeme;
        let j = i + 1;
        if j < ts.len() && ts[j].kind == TokenType::Equal && j + 1 < ts.len() {
            match p_assignment(ts, j + 1) {
                Err(m) => Err(m),
                Ok((e, k)) => {
                    let kk = held(ts.len() as int, j, k);
                    if kk < ts.len() && ts[kk].kind == TokenType::Semicolon {
                        Ok((StmtModel::Declare { name, init: Some(e) }, kk + 1))
                    } else {
                        Err(PErrModel::Expected(TokenType::Semicolon, line_at(ts, kk)))
                    }
                },
            }
        } else {
            if j < ts.len() && ts[j].kind == TokenType::Semicolon {
                Ok((StmtModel::Declare { name, init: None }, j + 1))
            } else {
                Err(PErrModel::Expected(TokenType::Semicolon, line_at(ts, j)))
            }
        }
    }
}

/// Parses one statement: a print statement or an expression statement.
pub open spec fn p_statement(ts: Seq<TokenModel>, i: int) -> Result<(StmtModel, int), PErrModel>
    recommends
        0 <= i < ts.len(),
    decreases ts.len() - i, 8int,
    when 0 <= i < ts.len() && stream_wf(ts)
{
    if ts[i].kind == TokenType::Print {
        if i + 1 < ts.len() {
            p_print(ts, i + 1)
        } else {
            Err(PErrModel::Expected(TokenType::Semicolon, line_at(ts, i)))
        }
    } else {
        match p_assignment(ts, i) {
            Err(m) => Err(m),
            Ok((e, j)) => {
                let jj = held(ts.len() as int, i, j);
                if jj < ts.len() && ts[jj].kind == TokenType::Semicolon {
                    Ok((StmtModel::Expr(e), jj + 1))
                } else {
                    Err(PErrModel::Expected(TokenType::Semicolon, line_at(ts, jj)))
                }
            },
        }
    }
}

/// Parses one declaration or, failing a declaration keyword, one
/// statement.
pub open spec fn p_declaration(ts: Seq<TokenModel>, i: int) -> Result<
    (StmtModel, int),
    PErrModel,
>
    recommends
        0 <= i < ts.len(),
    decreases ts.len() - i, 9int,
    when 0 <= i < ts.len() && stream_wf(ts)
{
    if ts[i].kind == TokenType::Let {
        if i + 1 < ts.len() {
            p_declare_variable(ts, i + 1)
        } else {
            Err(PErrModel::Expected(TokenType::Identifier, line_at(ts, i)))
        }
    } else {
        p_statement(ts, i)
    }
}

/// Parses the whole stream from a position: declarations in order until
/// the end-of-input marker, closed by the exit statement.
pub open spec fn p_stmts(ts: Seq<TokenModel>, i: int) -> Result<Seq<StmtModel>, PErrModel>
    recommends
        0 <= i < ts.len(),
    decreases ts.len() - i, 10int,
    when 0 <= i < ts.len() && stream_wf(ts)
{
    if ts[i].kind == TokenType::Eof {
        Ok(seq![StmtModel::Exit])
    } else {
        match p_declaration(ts, i) {
            Err(m) => Err(m),
            Ok((st, j)) => {
                let jj = held(ts.len() as int, i, j);
                if jj < ts.len() {
                    match p_stmts(ts, jj) {
                        Err(m) => Err(m),
                        Ok(rest) => Ok(seq![st] + rest),
                    }
                } else {
                    Ok(seq![st, StmtModel::Exit])
                }
            },
        }
    }
}

/// A properly terminated token stream is properly terminated at the model
/// level too.
pub proof fn lemma_stream_wf(ts: Seq<Token>)
    requires
        tokens_terminated(ts),
    ensures
        stream_wf(tokens_models(ts)),
{
    assert forall|i: int|
        0 <= i < tokens_models(ts).len() - 1 implies (#[trigger] tokens_models(ts)[i]).kind
        != TokenType::Eof by {
        assert(tokens_models(ts)[i] == token_model(ts[i]));
    }
    assert(tokens_models(ts).last() == token_model(ts.last()));
}

/// Whether every character of the text is a decimal digit.
pub open spec fn all_digits(s: Seq<char>) -> bool {
    forall|i: int| 0 <= i < s.len() ==> '0' <= #[trigger] s[i] <= '9'
}

/// The number a run of decimal digits denotes, most significant first.
pub open spec fn digits_value(s: Seq<char>) -> int
    decreases s.len(),
{
    if s.len() == 0 {
        0
    } else {
        digits_value(s.drop_last()) * 10 + (s.last() as u32 - 48)
    }
}

/// Digit text denotes a non-negative number, and no prefix of it denotes
/// more than the whole.
proof fn lemma_digits_prefix_bound(s: Seq<char>, i: int)
    requires
        all_digits(s),
        0 <= i <= s.len(),
    ensures
        digits_value(s) >= 0,
        digits_value(s) >= digits_value(s.take(i)),
    decreases s.len(),
{
    if s.len() == 0 {
        assert(s.take(i) =~= s);
    } else {
        let head = s.drop_last();
        assert(all_digits(head)) by {
            assert(forall|j: int| 0 <= j < head.len() ==> head[j] == s[j]);
        }
        lemma_digits_prefix_bound(head, if i <= head.len() {
            i
        } else {
            head.len() as int
        });
        assert('0' <= s.last() <= '9');
        if i == s.len() {
            assert(s.take(i) =~= s);
        } else {
            assert(s.take(i) =~= head.take(i));
        }
    }
}

/// Parses decimal numeric literal text into a number value: one or more
/// digits denoting a representable number, whose value the result carries;
/// anything else is invalid numeric literal text, reported with the given
/// source line.
pub fn parse_number(lexeme: &String, line: u64) -> (r: Result<Value, ParseError>)
    ensures
        r matches Ok(v) ==> lexeme@.len() > 0 && all_digits(lexeme@) && (v matches Value::Number(
            n,
        ) && n == digits_value(lexeme@)),
        r matches Err(e) ==> (e matches ParseError::InvalidNumericLiteral(t, l) && t@ == lexeme@
            && l == line) && (lexeme@.len() == 0 || !all_digits(lexeme@) || digits_value(lexeme@)
            > i64::MAX),
{
    let n = lexeme.as_str().unicode_len();
    if n == 0 {
        return Err(ParseError::InvalidNumericLiteral(lexeme.clone(), line));
    }
    let mut value: i64 = 0;
    let mut i: usize = 0;
    while i < n
        invariant
            n == lexeme@.len(),
            i <= n,
            forall|j: int| 0 <= j < i ==> '0' <= #[trigger] lexeme@[j] <= '9',
            0 <= value,
            value == digits_value(lexeme@.take(i as int)),
        decreases n - i,
    {
        let c = lexeme.as_str().get_char(i);
        if !(c >= '0' && c <= '9') {
            return Err(ParseError::InvalidNumericLiteral(lexeme.clone(), line));
        }
        proof {
            assert(lexeme@.take(i + 1 as int).drop_last() =~= lexeme@.take(i as int));
            assert(lexeme@.take(i + 1 as int).last() == lexeme@[i as int]);
        }
        let d = (c as u32) - ('0' as u32);
        let grown = match value.checked_mul(10) {
            Some(g) => g,
            None => {
                proof {
                    lemma_overflow_means_too_big(lexeme@, i as int);
                }
                return Err(ParseError::InvalidNumericLiteral(lexeme.clone(), line));
            },
        };
        value = match grown.checked_add(d as i64) {
            Some(v) => v,
            None => {
                proof {
                    lemma_overflow_means_too_big(lexeme@, i as int);
                }
                return Err(ParseError::InvalidNumericLiteral(lexeme.clone(), line));
            },
        };
        i = i + 1;
    }
    proof {
        assert(lexeme@.take(n as int) =~= lexeme@);
    }
    Ok(Value::Number(value))
}

/// If one more digit would push the running value past the greatest
/// representable number, the whole digit text denotes too large a number
/// (or holds a non-digit later on).
proof fn lemma_overflow_means_too_big(s: Seq<char>, i: int)
    requires
        0 <= i < s.len(),
        forall|j: int| 0 <= j <= i ==> '0' <= #[trigger] s[j] <= '9',
        digits_value(s.take(i)) * 10 + (s[i] as u32 - 48) > i64::MAX,
    ensures
        !all_digits(s) || digits_value(s) > i64::MAX,
{
    if all_digits(s) {
        assert(s.take(i + 1).drop_last() =~= s.take(i));
        assert(s.take(i + 1).last() == s[i]);
        assert(digits_value(s.take(i + 1)) > i64::MAX);
        lemma_digits_prefix_bound(s, i + 1);
    }
}

} // verus!
