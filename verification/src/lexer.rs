//! The scanner: turns source text into a token sequence, character by
//! character, tracking the 1-based source line. The whole scan is specified
//! by a character-level model: which token each position yields, with its
//! lexeme and line, whitespace yielding none; the stream always ends with a
//! single end-of-input marker and holds none before it.

use vstd::prelude::*;

use crate::token::{Token, TokenType};

verus! {

/// Whether a token stream is properly terminated: one end-of-input marker,
/// at the end and nowhere else.
pub open spec fn tokens_terminated(ts: Seq<Token>) -> bool {
    &&& ts.len() >= 1
    &&& ts.last().kind == TokenType::Eof
    &&& forall|i: int| 0 <= i < ts.len() - 1 ==> (#[trigger] ts[i]).kind != TokenType::Eof
}


/// Spec-level picture of one token.
pub struct TokenModel {
    pub kind: TokenType,
    pub lexeme: Seq<char>,
    pub line: u64,
}

/// Model of a token.
pub open spec fn token_model(t: Token) -> TokenModel {
    TokenModel { kind: t.kind, lexeme: t.lexeme@, line: t.line }
}

/// Models of a token stream, token by token.
pub open spec fn tokens_models(ts: Seq<Token>) -> Seq<TokenModel> {
    ts.map_values(|t: Token| token_model(t))
}

/// One scanning step's outcome: the token it produced, if any, and the
/// position and line it left the scanner on.
pub struct ScanStep {
    pub token: Option<TokenModel>,
    pub offset: int,
    pub line: u64,
}

/// The next source line, saturating at the largest count.
pub open spec fn next_line(line: u64) -> u64 {
    if line < u64::MAX {
        (line + 1) as u64
    } else {
        line
    }
}

/// Whether a character is an ASCII decimal digit.
pub open spec fn is_digit_char(c: char) -> bool {
    '0' <= c <= '9'
}

/// Whether a character can stand in an identifier.
pub open spec fn is_identic_char(c: char) -> bool {
    is_digit_char(c) || ('a' <= c <= 'z') || ('A' <= c <= 'Z') || c == '_'
}

/// The token kind of a single-character operator or punctuation mark.
pub open spec fn simple_kind(c: char) -> Option<TokenType> {
    if c == ';' {
        Some(TokenType::Semicolon)
    } else if c == '+' {
        Some(TokenType::Plus)
    } else if c == '-' {
        Some(TokenType::Minus)
    } else if c == '*' {
        Some(TokenType::Asterisk)
    } else if c == '/' {
        Some(TokenType::Slash)
    } else if c == '%' {
        Some(TokenType::Percent)
    } else if c == '!' {
        Some(TokenType::Bang)
    } else if c == '=' {
        Some(TokenType::Equal)
    } else {
        None
    }
}

/// Where a string literal's content ends: the position of the closing
/// quote (or the end of input if unterminated), and the position scanning
/// resumes at.
pub open spec fn str_scan(src: Seq<char>, j: int) -> (int, int)
    decreases src.len() - j,
    when 0 <= j <= src.len()
{
    if j >= src.len() {
        (j, j)
    } else if src[j] == '"' {
        (j, j + 1)
    } else {
        str_scan(src, j + 1)
    }
}

/// The first position at or past `j` holding no decimal digit.
pub open spec fn digits_end(src: Seq<char>, j: int) -> int
    decreases src.len() - j,
    when 0 <= j <= src.len()
{
    if j < src.len() && is_digit_char(src[j]) {
        digits_end(src, j + 1)
    } else {
        j
    }
}

/// The first position at or past `j` holding no identifier character.
pub open spec fn ident_end(src: Seq<char>, j: int) -> int
    decreases src.len() - j,
    when 0 <= j <= src.len()
{
    if j < src.len() && is_identic_char(src[j]) {
        ident_end(src, j + 1)
    } else {
        j
    }
}

/// The token kind an identifier lexeme denotes: a keyword where it is one.
pub open spec fn keyword_kind(s: Seq<char>) -> TokenType {
    if s == "Empty"@ {
        TokenType::Empty
    } else if s == "true"@ {
        TokenType::True
    } else if s == "false"@ {
        TokenType::False
    } else if s == "let"@ {
        TokenType::Let
    } else if s == "print"@ {
        TokenType::Print
    } else {
        TokenType::Identifier
    }
}

/// One scanning step at a position inside the source: whitespace produces
/// no token, a newline only advances the line counter, and every token
/// carries the line it started on and its lexeme text.
pub open spec fn scan_token_model(src: Seq<char>, off: int, line: u64) -> ScanStep
    recommends
        0 <= off < src.len(),
{
    let c = src[off];
    if c == '\n' {
        ScanStep { token: None, offset: off + 1, line: next_line(line) }
    } else if c == ' ' || c == '\t' || c == '\r' {
        ScanStep { token: None, offset: off + 1, line }
    } else if simple_kind(c) is Some {
        ScanStep {
            token: Some(
                TokenModel {
                    kind: simple_kind(c).unwrap(),
                    lexeme: src.subrange(off, off + 1),
                    line,
                },
            ),
            offset: off + 1,
            line,
        }
    } else if c == '"' {
        let (content_end, next) = str_scan(src, off + 1);
        ScanStep {
            token: Some(
                TokenModel {
                    kind: TokenType::Str,
                    lexeme: src.subrange(off + 1, content_end),
                    line,
                },
            ),
            offset: next,
            line,
        }
    } else if is_digit_char(c) {
        let de = digits_end(src, off + 1);
        let num_end = if de + 1 < src.len() && src[de] == '.' && is_digit_char(src[de + 1]) {
            digits_end(src, de + 1)
        } else {
            de
        };
        ScanStep {
            token: Some(
                TokenModel {
                    kind: TokenType::Number,
                    lexeme: src.subrange(off, num_end),
                    line,
                },
            ),
            offset: num_end,
            line,
        }
    } else if is_identic_char(c) {
        let ie = ident_end(src, off + 1);
        ScanStep {
            token: Some(
                TokenModel {
                    kind: keyword_kind(src.subrange(off, ie)),
                    lexeme: src.subrange(off, ie),
                    line,
                },
            ),
            offset: ie,
            line,
        }
    } else {
        ScanStep {
            token: Some(
                TokenModel {
                    kind: TokenType::Error,
                    lexeme: src.subrange(off, off + 1),
                    line,
                },
            ),
            offset: off + 1,
            line,
        }
    }
}

/// A string-content scan stays within the source and past its start.
pub proof fn lemma_str_scan_range(src: Seq<char>, j: int)
    requires
        0 <= j <= src.len(),
    ensures
        j <= str_scan(src, j).0 <= src.len(),
        j <= str_scan(src, j).1 <= src.len(),
        str_scan(src, j).0 <= str_scan(src, j).1,
    decreases src.len() - j,
{
    if j < src.len() && src[j] != '"' {
        lemma_str_scan_range(src, j + 1);
    }
}

/// A digit run's end stays within the source and past its start.
pub proof fn lemma_digits_end_range(src: Seq<char>, j: int)
    requires
        0 <= j <= src.len(),
    ensures
        j <= digits_end(src, j) <= src.len(),
    decreases src.len() - j,
{
    if j < src.len() && is_digit_char(src[j]) {
        lemma_digits_end_range(src, j + 1);
    }
}

/// An identifier run's end stays within the source and past its start.
pub proof fn lemma_ident_end_range(src: Seq<char>, j: int)
    requires
        0 <= j <= src.len(),
    ensures
        j <= ident_end(src, j) <= src.len(),
    decreases src.len() - j,
{
    if j < src.len() && is_identic_char(src[j]) {
        lemma_ident_end_range(src, j + 1);
    }
}

/// A scanning step inside the source always moves forward and never past
/// the end.
pub proof fn lemma_scan_step_in_range(src: Seq<char>, off: int, line: u64)
    requires
        0 <= off < src.len(),
    ensures
        off < scan_token_model(src, off, line).offset <= src.len(),
{
    lemma_str_scan_range(src, off + 1);
    lemma_digits_end_range(src, off + 1);
    lemma_ident_end_range(src, off + 1);
    let c = src[off];
    if is_digit_char(c) {
        let de = digits_end(src, off + 1);
        if de + 1 < src.len() && src[de] == '.' && is_digit_char(src[de + 1]) {
            lemma_digits_end_range(src, de + 1);
        }
    }
}

/// The whole scan from a position: each step's token in source order,
/// closed by the end-of-input marker carrying the final line.
pub open spec fn scan_model(src: Seq<char>, off: int, line: u64) -> Seq<TokenModel>
    decreases src.len() - off,
    when 0 <= off <= src.len()
    via scan_model_decreases
{
    if off >= src.len() {
        seq![TokenModel { kind: TokenType::Eof, lexeme: Seq::empty(), line }]
    } else {
        let step = scan_token_model(src, off, line);
        match step.token {
            None => scan_model(src, step.offset, step.line),
            Some(t) => seq![t] + scan_model(src, step.offset, step.line),
        }
    }
}

#[via_fn]
proof fn scan_model_decreases(src: Seq<char>, off: int, line: u64) {
    if 0 <= off < src.len() {
        lemma_scan_step_in_range(src, off, line);
    }
}

/// The scanner's state: the source, the position in characters, the current
/// line, and whether the end of input was reached.
pub struct Lexer<'s> {
    /// The source text being scanned.
    pub source: &'s str,
    /// Position in the source, counted in characters.
    pub offset: usize,
    /// Current 1-based source line.
    pub line: u64,
    /// Set once the end of input is reached.
    pub finished: bool,
}

impl<'s> Lexer<'s> {
    /// The scanner's internal invariant: the position never passes the end.
    pub open spec fn wf(&self) -> bool {
        self.offset <= self.source@.len()
    }

    /// A scanner at the start of the source, on line one.
    pub fn new(source: &'s str) -> (r: Lexer<'s>)
        ensures
            r.wf(),
            r.source == source,
            r.offset == 0,
            r.line == 1,
            !r.finished,
    {
        Lexer { source, offset: 0, line: 1, finished: false }
    }

    /// The next character, if any, without consuming it.
    fn peek(&self) -> (r: Option<char>)
        requires
            self.wf(),
        ensures
            r is Some <==> self.offset < self.source@.len(),
            r matches Some(c) ==> c == self.source@[self.offset as int],
    {
        if self.offset < self.source.unicode_len() {
            Some(self.source.get_char(self.offset))
        } else {
            None
        }
    }

    /// The character a given distance past the next one, if any.
    fn peek_ahead(&self, n: usize) -> (r: Option<char>)
        requires
            self.wf(),
            n < usize::MAX,
        ensures
            (r is Some) == (self.offset + n < self.source@.len() && self.offset + n
                < usize::MAX),
            r matches Some(c) ==> c == self.source@[self.offset + n],
    {
        if self.offset < usize::MAX - n && self.offset + n < self.source.unicode_len() {
            Some(self.source.get_char(self.offset + n))
        } else {
            None
        }
    }

    /// Consumes and returns the next character.
    fn advance(&mut self) -> (r: Option<char>)
        requires
            old(self).wf(),
        ensures
            final(self).wf(),
            final(self).source == old(self).source,
            final(self).line == old(self).line,
            final(self).finished == old(self).finished,
            r is Some <==> old(self).offset < old(self).source@.len(),
            r is Some ==> final(self).offset == old(self).offset + 1,
            r is None ==> final(self).offset == old(self).offset,
            r matches Some(c) ==> c == old(self).source@[old(self).offset as int],
    {
        if self.offset < self.source.unicode_len() {
            let c = self.source.get_char(self.offset);
            self.offset = self.offset + 1;
            Some(c)
        } else {
            None
        }
    }

    /// Scans the whole source, handing back exactly the token stream the
    /// scanning model describes: every token in source order with its
    /// lexeme and 1-based line, whitespace contributing none, and the
    /// end-of-input marker closing the stream.
    #[verifier::loop_isolation(false)]
    pub fn scan(self) -> (r: Vec<Token>)
        requires
            self.wf(),
            !self.finished,
        ensures
            tokens_terminated(r@),
            tokens_models(r@) == scan_model(self.source@, self.offset as int, self.line),
            self.source@.len() == self.offset ==> r@.len() == 1,
    {
        let mut this = self;
        let mut tokens: Vec<Token> = Vec::new();
        while !this.finished
            invariant
                this.wf(),
                this.source == self.source,
                this.finished ==> this.offset as int == this.source@.len(),
                tokens_models(tokens@) + scan_model(
                    this.source@,
                    this.offset as int,
                    this.line,
                ) == scan_model(self.source@, self.offset as int, self.line),
                self.source@.len() == self.offset ==> (tokens@.len() == 0 && this.offset
                    == self.offset),
                forall|i: int|
                    0 <= i < tokens@.len() ==> (#[trigger] tokens@[i]).kind != TokenType::Eof,
            decreases this.source@.len() - this.offset + (if this.finished {
                0int
            } else {
                1int
            }),
        {
            let ghost pre = this;
            let ghost toks = tokens@;
            let stepped = this.scan_token();
            proof {
                let rest = scan_model(this.source@, this.offset as int, this.line);
                if (pre.offset as int) < pre.source@.len() {
                    let step = scan_token_model(pre.source@, pre.offset as int, pre.line);
                    if step.token is Some {
                        assert(scan_model(pre.source@, pre.offset as int, pre.line)
                            == seq![step.token.unwrap()] + rest);
                        assert(tokens_models(toks) + (seq![step.token.unwrap()] + rest) =~= (
                        tokens_models(toks) + seq![step.token.unwrap()]) + rest);
                    } else {
                        assert(scan_model(pre.source@, pre.offset as int, pre.line) == rest);
                    }
                }
            }
            if let Some(token) = stepped {
                proof {
                    let rest = scan_model(this.source@, this.offset as int, this.line);
                    let tm = token_model(token);
                    assert(scan_model(pre.source@, pre.offset as int, pre.line) == seq![tm]
                        + rest);
                    assert(tokens_models(toks) + (seq![tm] + rest) =~= (tokens_models(toks)
                        + seq![tm]) + rest);
                    assert(tokens_models(toks.push(token)) =~= tokens_models(toks) + seq![tm]);
                    assert(tokens_models(toks.push(token)) + rest == scan_model(
                        self.source@,
                        self.offset as int,
                        self.line,
                    ));
                }
                tokens.push(token);
            } else {
                proof {
                    assert(tokens_models(tokens@) + scan_model(
                        this.source@,
                        this.offset as int,
                        this.line,
                    ) == scan_model(self.source@, self.offset as int, self.line));
                }
            }
        }
        let eof = Token::new(TokenType::Eof, String::new(), this.line);
        proof {
            assert(scan_model(this.source@, this.offset as int, this.line) == seq![
                TokenModel { kind: TokenType::Eof, lexeme: Seq::empty(), line: this.line },
            ]);
            assert(token_model(eof) == (TokenModel {
                kind: TokenType::Eof,
                lexeme: Seq::empty(),
                line: this.line,
            }));
            assert(tokens_models(tokens@.push(eof)) =~= tokens_models(tokens@).push(
                token_model(eof),
            ));
            assert(tokens_models(tokens@).push(token_model(eof)) =~= tokens_models(tokens@)
                + seq![token_model(eof)]);
        }
        tokens.push(eof);
        tokens
    }

    /// Scans one token, or nothing for whitespace; sets the finished flag at
    /// the end of input. Inside the source, the step is exactly the one the
    /// scanning model describes.
    fn scan_token(&mut self) -> (r: Option<Token>)
        requires
            old(self).wf(),
        ensures
            final(self).wf(),
            final(self).source == old(self).source,
            r matches Some(t) ==> t.kind != TokenType::Eof,
            old(self).offset == old(self).source@.len() ==> r is None && final(self).offset
                == old(self).offset && final(self).line == old(self).line,
            final(self).offset > old(self).offset || (final(self).finished && final(self).offset
                == old(self).offset),
            old(self).offset < old(self).source@.len() ==> ({
                let step = scan_token_model(
                    old(self).source@,
                    old(self).offset as int,
                    old(self).line,
                );
                &&& final(self).offset as int == step.offset
                &&& final(self).line == step.line
                &&& final(self).finished == old(self).finished
                &&& (match r {
                    None => step.token is None,
                    Some(t) => step.token == Some(token_model(t)),
                })
            }),
        decreases old(self).source@.len() - old(self).offset,
    {
        if self.peek().is_none() {
            self.finished = true;
            return None;
        }
        let start = self.offset;
        let c = self.advance().unwrap();

        if c == '\n' {
            if self.line < u64::MAX {
                self.line = self.line + 1;
            }
            return None;
        }
        if c == ' ' || c == '\t' || c == '\r' {
            return None;
        }
        let kind_simple: Option<TokenType> = match c {
            ';' => Some(TokenType::Semicolon),
            '+' => Some(TokenType::Plus),
            '-' => Some(TokenType::Minus),
            '*' => Some(TokenType::Asterisk),
            '/' => Some(TokenType::Slash),
            '%' => Some(TokenType::Percent),
            '!' => Some(TokenType::Bang),
            '=' => Some(TokenType::Equal),
            _ => None,
        };
        if let Some(kind) = kind_simple {
            let lx = self.lexeme(start, self.offset);
            return Some(Token::new(kind, lx, self.line));
        }
        if c == '"' {
            let content_start = self.offset;
            let mut end = self.offset;
            loop
                invariant_except_break
                    self.wf(),
                    self.source == old(self).source,
                    self.line == old(self).line,
                    self.finished == old(self).finished,
                    content_start <= self.offset,
                    end == self.offset,
                    str_scan(self.source@, content_start as int) == str_scan(
                        self.source@,
                        self.offset as int,
                    ),
                ensures
                    self.wf(),
                    self.source == old(self).source,
                    self.line == old(self).line,
                    self.finished == old(self).finished,
                    content_start <= end,
                    end as int == str_scan(self.source@, content_start as int).0,
                    self.offset as int == str_scan(self.source@, content_start as int).1,
                decreases self.source@.len() - self.offset,
            {
                match self.advance() {
                    None => {
                        break ;
                    },
                    Some(ch) => {
                        if ch == '"' {
                            break ;
                        }
                        end = self.offset;
                    },
                }
            }
            proof {
                lemma_str_scan_range(self.source@, content_start as int);
            }
            let lx = self.lexeme(content_start, end);
            return Some(Token::new(TokenType::Str, lx, self.line));
        }
        if is_digit(c) {
            let mut end = self.offset;
            while self.peek().is_some() && is_digit(self.peek().unwrap())
                invariant
                    self.wf(),
                    self.source == old(self).source,
                    self.line == old(self).line,
                    self.finished == old(self).finished,
                    start < end,
                    end == self.offset,
                    digits_end(self.source@, start as int + 1) == digits_end(
                        self.source@,
                        self.offset as int,
                    ),
                decreases self.source@.len() - self.offset,
            {
                self.advance();
                end = self.offset;
            }
            proof {
                assert(digits_end(self.source@, self.offset as int) == self.offset as int);
            }
            let n = self.source.unicode_len();
            let dot_then_digit = match (self.peek(), self.peek_ahead(1)) {
                (Some(d), Some(d2)) => d == '.' && is_digit(d2),
                _ => false,
            };
            if dot_then_digit {
                self.advance();
                while self.peek().is_some() && is_digit(self.peek().unwrap())
                    invariant
                        self.wf(),
                        self.source == old(self).source,
                        self.line == old(self).line,
                        self.finished == old(self).finished,
                        start < end,
                        end < self.offset,
                        digits_end(self.source@, end as int + 1) == digits_end(
                            self.source@,
                            self.offset as int,
                        ),
                    decreases self.source@.len() - self.offset,
                {
                    self.advance();
                }
                proof {
                    assert(digits_end(self.source@, self.offset as int) == self.offset as int);
                }
                end = self.offset;
            }
            let lx = self.lexeme(start, end);
            return Some(Token::new(TokenType::Number, lx, self.line));
        }
        if is_identic(c) {
            let mut end = self.offset;
            while self.peek().is_some() && is_identic(self.peek().unwrap())
                invariant
                    self.wf(),
                    self.source == old(self).source,
                    self.line == old(self).line,
                    self.finished == old(self).finished,
                    start < end,
                    end == self.offset,
                    ident_end(self.source@, start as int + 1) == ident_end(
                        self.source@,
                        self.offset as int,
                    ),
                decreases self.source@.len() - self.offset,
            {
                self.advance();
                end = self.offset;
            }
            proof {
                assert(ident_end(self.source@, self.offset as int) == self.offset as int);
            }
            let lx = self.lexeme(start, end);
            let kind = keyword_or_identifier(&lx);
            return Some(Token::new(kind, lx, self.line));
        }
        let lx = self.lexeme(start, self.offset);
        Some(Token::new(TokenType::Error, lx, self.line))
    }

    /// The source text between two character positions, as owned text.
    fn lexeme(&self, from: usize, to: usize) -> (r: String)
        requires
            self.wf(),
            from <= to <= self.source@.len(),
        ensures
            r@ == self.source@.subrange(from as int, to as int),
    {
        String::from_str(self.source.substring_char(from, to))
    }
}

/// Whether a character is an ASCII decimal digit.
fn is_digit(c: char) -> (r: bool)
    ensures
        r == ('0' <= c <= '9'),
{
    c >= '0' && c <= '9'
}

/// Whether a character can stand in an identifier: an ASCII letter, digit,
/// or underscore.
fn is_identic(c: char) -> (r: bool)
    ensures
        r == ('0' <= c <= '9' || 'a' <= c <= 'z' || 'A' <= c <= 'Z' || c == '_'),
{
    (c >= '0' && c <= '9') || (c >= 'a' && c <= 'z') || (c >= 'A' && c <= 'Z') || c == '_'
}

/// The token kind of an identifier lexeme: a keyword where it is one.
fn keyword_or_identifier(lx: &String) -> (r: TokenType)
    ensures
        r == keyword_kind(lx@),
        r != TokenType::Eof,
{
    if *lx == String::from_str("Empty") {
        TokenType::Empty
    } else if *lx == String::from_str("true") {
        TokenType::True
    } else if *lx == String::from_str("false") {
        TokenType::False
    } else if *lx == String::from_str("let") {
        TokenType::Let
    } else if *lx == String::from_str("print") {
        TokenType::Print
    } else {
        TokenType::Identifier
    }
}

} // verus!
