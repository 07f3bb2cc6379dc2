//! The recursive descent parser: turns the token stream into statements.

use vstd::prelude::*;
use vstd::string::*;
use crate::tokenizer::Token;
use crate::types::Type;
use crate::text::{int_text, str_debug, int_to_text, debug_text, text_of, text_result};

verus! {

/// An expression node in the abstract syntax tree.
#[derive(Debug, PartialEq)]
pub enum Expr {
    /// An integer literal.
    Number(i64),
    /// A boolean literal.
    Bool(bool),
    /// A variable reference by name.
    Name(String),
    /// A binary operation combining two subexpressions.
    BinaryOp {
        /// The left operand.
        left: Box<Expr>,
        /// The operator.
        op: Operator,
        /// The right operand.
        right: Box<Expr>,
    },
}

/// A statement node in the abstract syntax tree.
#[derive(Debug, PartialEq)]
pub enum Stmt {
    /// An expression used as a statement.
    Expr(Expr),
    /// A variable declaration with an optional initializer:
    /// `name: type [= initializer]`.
    VariableDecl {
        /// The variable name.
        name: String,
        /// The declared type.
        typ: Type,
        /// An optional initial value.
        initializer: Option<Expr>,
    },
    /// An assignment to an existing variable: `name = value`.
    Assign {
        /// The variable name.
        name: String,
        /// The value to assign.
        value: Expr,
    },
    /// A conditional statement with optional elif and else branches.
    If {
        /// The condition for the main if branch.
        condition: Expr,
        /// The statements to execute if the condition is true.
        then_branch: Vec<Stmt>,
        /// Zero or more elif branches, each with a condition and statements.
        elif_branches: Vec<(Expr, Vec<Stmt>)>,
        /// An optional else branch.
        else_branch: Option<Vec<Stmt>>,
    },
}

/// A binary operator.
#[derive(Debug, PartialEq, Eq, Clone, Copy, Structural)]
pub enum Operator {
    /// Addition: `+`
    Plus,
    /// Subtraction: `-`
    Minus,
    /// Multiplication: `*`
    Star,
    /// Division: `/`
    Slash,
    /// Equality: `==`
    Eq,
    /// Inequality: `!=`
    NotEq,
    /// Less than: `<`
    Less,
    /// Greater than: `>`
    Greater,
    /// Less than or equal: `<=`
    LessEq,
    /// Greater than or equal: `>=`
    GreaterEq,
}

/// A statement with its blocks as sequences.
pub enum StmtV {
    Expr(Expr),
    VariableDecl { name: String, typ: Type, initializer: Option<Expr> },
    Assign { name: String, value: Expr },
    If {
        condition: Expr,
        then_branch: Seq<StmtV>,
        elif_branches: Seq<(Expr, Seq<StmtV>)>,
        else_branch: Option<Seq<StmtV>>,
    },
}

/// The statement with its blocks as sequences.
pub open spec fn stmt_view(s: Stmt) -> StmtV
    decreases s,
{
    match s {
        Stmt::Expr(e) => StmtV::Expr(e),
        Stmt::VariableDecl { name, typ, initializer } => StmtV::VariableDecl { name, typ, initializer },
        Stmt::Assign { name, value } => StmtV::Assign { name, value },
        Stmt::If { condition, then_branch, elif_branches, else_branch } => StmtV::If {
            condition,
            then_branch: stmts_view(then_branch@),
            elif_branches: elifs_view(elif_branches@),
            else_branch: match else_branch {
                Some(b) => Some(stmts_view(b@)),
                None => None,
            },
        },
    }
}

/// A block of statements, each by `stmt_view`.
pub open spec fn stmts_view(ss: Seq<Stmt>) -> Seq<StmtV>
    decreases ss,
{
    if ss.len() == 0 {
        Seq::empty()
    } else {
        stmts_view(ss.drop_last()).push(stmt_view(ss.last()))
    }
}

/// Elif branches, each block by `stmts_view`.
pub open spec fn elifs_view(bs: Seq<(Expr, Vec<Stmt>)>) -> Seq<(Expr, Seq<StmtV>)>
    decreases bs,
{
    if bs.len() == 0 {
        Seq::empty()
    } else {
        elifs_view(bs.drop_last()).push((bs.last().0, stmts_view(bs.last().1@)))
    }
}

/// `stmts_view` keeps the length and maps position by position.
pub proof fn lemma_stmts_view(ss: Seq<Stmt>)
    ensures
        stmts_view(ss).len() == ss.len(),
        forall|i: int| 0 <= i < ss.len() ==> #[trigger] stmts_view(ss)[i] == stmt_view(ss[i]),
    decreases ss.len(),
{
    if ss.len() > 0 {
        lemma_stmts_view(ss.drop_last());
    }
}

/// `elifs_view` keeps the length and maps position by position.
pub proof fn lemma_elifs_view(bs: Seq<(Expr, Vec<Stmt>)>)
    ensures
        elifs_view(bs).len() == bs.len(),
        forall|i: int| 0 <= i < bs.len() ==> #[trigger] elifs_view(bs)[i] == (bs[i].0, stmts_view(bs[i].1@)),
    decreases bs.len(),
{
    if bs.len() > 0 {
        lemma_elifs_view(bs.drop_last());
    }
}

/// `stmts_view` of a sequence with one more statement.
pub proof fn lemma_stmts_view_push(ss: Seq<Stmt>, s: Stmt)
    ensures
        stmts_view(ss.push(s)) == stmts_view(ss).push(stmt_view(s)),
{
    assert(ss.push(s).drop_last() =~= ss);
}

/// `elifs_view` of a sequence with one more branch.
pub proof fn lemma_elifs_view_push(bs: Seq<(Expr, Vec<Stmt>)>, b: (Expr, Vec<Stmt>))
    ensures
        elifs_view(bs.push(b)) == elifs_view(bs).push((b.0, stmts_view(b.1@))),
{
    assert(bs.push(b).drop_last() =~= bs);
}

// ---------------------------------------------------------------------------
// The grammar, as functions from a token position to what is parsed there
// and the position after it
// ---------------------------------------------------------------------------

/// The token at position `p`; past the end of the stream the parser sees `EOF`.
pub open spec fn tok(ts: Seq<Token>, p: int) -> Token {
    if 0 <= p < ts.len() { ts[p] } else { Token::Eof }
}

/// What `{:?}` prints for a token.
pub open spec fn token_debug(t: Token) -> Seq<char> {
    match t {
        Token::Number(n) => "Number("@ + int_text(n as int) + ")"@,
        Token::Name(s) => "Name("@ + str_debug(s@) + ")"@,
        Token::True => "True"@,
        Token::False => "False"@,
        Token::Plus => "Plus"@,
        Token::Minus => "Minus"@,
        Token::Star => "Star"@,
        Token::Slash => "Slash"@,
        Token::Eq => "Eq"@,
        Token::NotEq => "NotEq"@,
        Token::Greater => "Greater"@,
        Token::Less => "Less"@,
        Token::GreaterEq => "GreaterEq"@,
        Token::LessEq => "LessEq"@,
        Token::LParen => "LParen"@,
        Token::RParen => "RParen"@,
        Token::Assign => "Assign"@,
        Token::Colon => "Colon"@,
        Token::Comma => "Comma"@,
        Token::RArrow => "RArrow"@,
        Token::NewLine => "NewLine"@,
        Token::Indent => "Indent"@,
        Token::Dedent => "Dedent"@,
        Token::If => "If"@,
        Token::Elif => "Elif"@,
        Token::Else => "Else"@,
        Token::Def => "Def"@,
        Token::Return => "Return"@,
        Token::Eof => "Eof"@,
    }
}

pub open spec fn expected_text(expected: Token, found: Token) -> Seq<char> {
    "SyntaxError: expected "@ + token_debug(expected) + ", but got "@ + token_debug(found)
}

pub open spec fn unknown_type_text(name: Seq<char>) -> Seq<char> {
    "SyntaxError: unknown type "@ + str_debug(name)
}

pub open spec fn expected_expression_text(found: Token) -> Seq<char> {
    "SyntaxError: expected expression but got "@ + token_debug(found)
}

pub open spec fn missing_annotation_text() -> Seq<char> {
    "SyntaxError: expected type annotation"@
}

pub open spec fn empty_block_text() -> Seq<char> {
    "SyntaxError: expected an indented block"@
}

/// Consumes the token `expected` at `p`.
pub open spec fn expect_at(ts: Seq<Token>, p: int, expected: Token) -> Result<int, Seq<char>> {
    if tok(ts, p) == expected {
        Ok(p + 1)
    } else {
        Err(expected_text(expected, tok(ts, p)))
    }
}

/// The operator that token `t` denotes at precedence `level`: comparisons
/// at 0, `+`/`-` at 1, `*`/`/` at 2.
pub open spec fn binary_operator(level: nat, t: Token) -> Option<Operator> {
    if level == 0 {
        match t {
            Token::Eq => Some(Operator::Eq),
            Token::NotEq => Some(Operator::NotEq),
            Token::Less => Some(Operator::Less),
            Token::Greater => Some(Operator::Greater),
            Token::LessEq => Some(Operator::LessEq),
            Token::GreaterEq => Some(Operator::GreaterEq),
            _ => None,
        }
    } else if level == 1 {
        match t {
            Token::Plus => Some(Operator::Plus),
            Token::Minus => Some(Operator::Minus),
            _ => None,
        }
    } else if level == 2 {
        match t {
            Token::Star => Some(Operator::Star),
            Token::Slash => Some(Operator::Slash),
            _ => None,
        }
    } else {
        None
    }
}

/// `factor = NUMBER | NAME | 'True' | 'False' | '(' expression ')'`
pub open spec fn parse_factor_at(ts: Seq<Token>, p: int) -> Result<(Expr, int), Seq<char>>
    decreases ts.len() - p, 13int,
{
    match tok(ts, p) {
        Token::Number(n) => Ok((Expr::Number(n), p + 1)),
        Token::True => Ok((Expr::Bool(true), p + 1)),
        Token::False => Ok((Expr::Bool(false), p + 1)),
        Token::Name(s) => Ok((Expr::Name(s), p + 1)),
        Token::LParen => {
            if 0 <= p < ts.len() {
                match parse_level_at(ts, p + 1, 0) {
                    Ok((e, q)) => match expect_at(ts, q, Token::RParen) {
                        Ok(r) => Ok((e, r)),
                        Err(m) => Err(m),
                    },
                    Err(m) => Err(m),
                }
            } else {
                Err(Seq::empty())
            }
        },
        t => Err(expected_expression_text(t)),
    }
}

/// An expression at precedence `level` (0 for comparisons, 1 for sums,
/// 2 for products, 3 for factors); binary operators associate to the left.
pub open spec fn parse_level_at(ts: Seq<Token>, p: int, level: nat) -> Result<(Expr, int), Seq<char>>
    decreases ts.len() - p, if level >= 3 { 14int } else { 20 - 2 * level },
{
    if level >= 3 {
        parse_factor_at(ts, p)
    } else {
        match parse_level_at(ts, p, level + 1) {
            Ok((left, q)) => if p < q <= ts.len() {
                parse_operations_at(ts, q, level, left)
            } else {
                Err(Seq::empty())
            },
            Err(m) => Err(m),
        }
    }
}

/// The operator-operand pairs that follow `left` at precedence `level`.
pub open spec fn parse_operations_at(ts: Seq<Token>, p: int, level: nat, left: Expr) -> Result<(Expr, int), Seq<char>>
    decreases ts.len() - p, 0int,
{
    match binary_operator(level, tok(ts, p)) {
        Some(op) => {
            if 0 <= p < ts.len() && level < 3 {
                match parse_level_at(ts, p + 1, level + 1) {
                    Ok((right, q)) => {
                        let e = Expr::BinaryOp { left: Box::new(left), op, right: Box::new(right) };
                        if p + 1 < q <= ts.len() {
                            parse_operations_at(ts, q, level, e)
                        } else {
                            Err(Seq::empty())
                        }
                    },
                    Err(m) => Err(m),
                }
            } else {
                Err(Seq::empty())
            }
        },
        None => Ok((left, p)),
    }
}

/// The position after the newlines that start at `p`.
pub open spec fn skip_newlines(ts: Seq<Token>, p: int) -> int
    decreases ts.len() - p,
{
    if 0 <= p < ts.len() && ts[p] is NewLine { skip_newlines(ts, p + 1) } else { p }
}

/// `type = 'int' | 'bool'`
pub open spec fn parse_type_at(ts: Seq<Token>, p: int) -> Result<(Type, int), Seq<char>> {
    match tok(ts, p) {
        Token::Name(s) => if s@ == "int"@ {
            Ok((Type::Int, p + 1))
        } else if s@ == "bool"@ {
            Ok((Type::Bool, p + 1))
        } else {
            Err(unknown_type_text(s@))
        },
        _ => Err(missing_annotation_text()),
    }
}

/// `statement = if-statement | NAME ':' TYPE ['=' expression] | NAME '=' expression | expression`
pub open spec fn parse_statement_at(ts: Seq<Token>, p: int) -> Result<(StmtV, int), Seq<char>>
    decreases ts.len() - p, 40int,
{
    if tok(ts, p) is If {
        parse_if_at(ts, p)
    } else if tok(ts, p) is Name && tok(ts, p + 1) is Colon {
        let name = tok(ts, p)->Name_0;
        match parse_type_at(ts, p + 2) {
            Ok((typ, q)) => if tok(ts, q) is Assign {
                match parse_level_at(ts, q + 1, 0) {
                    Ok((e, r)) => Ok((StmtV::VariableDecl { name, typ, initializer: Some(e) }, r)),
                    Err(m) => Err(m),
                }
            } else {
                Ok((StmtV::VariableDecl { name, typ, initializer: None }, q))
            },
            Err(m) => Err(m),
        }
    } else if tok(ts, p) is Name && tok(ts, p + 1) is Assign {
        let name = tok(ts, p)->Name_0;
        match parse_level_at(ts, p + 2, 0) {
            Ok((e, q)) => Ok((StmtV::Assign { name, value: e }, q)),
            Err(m) => Err(m),
        }
    } else {
        match parse_level_at(ts, p, 0) {
            Ok((e, q)) => Ok((StmtV::Expr(e), q)),
            Err(m) => Err(m),
        }
    }
}

/// `if-statement = 'if' expression ':' block ('elif' expression ':' block)* ['else' ':' block]`
pub open spec fn parse_if_at(ts: Seq<Token>, p: int) -> Result<(StmtV, int), Seq<char>>
    decreases ts.len() - p, 39int,
{
    match expect_at(ts, p, Token::If) {
        Ok(p1) => match parse_level_at(ts, p1, 0) {
            Ok((condition, p2)) => match expect_at(ts, p2, Token::Colon) {
                Ok(p3) => if p < p3 <= ts.len() {
                    match parse_block_at(ts, p3) {
                        Ok((then_branch, p4)) => if p < p4 <= ts.len() {
                            match parse_elifs_at(ts, p4, Seq::empty()) {
                                Ok((elif_branches, p5)) => if tok(ts, p5) is Else {
                                    match expect_at(ts, p5 + 1, Token::Colon) {
                                        Ok(p6) => if p < p6 <= ts.len() {
                                            match parse_block_at(ts, p6) {
                                                Ok((b, p7)) => Ok((StmtV::If { condition, then_branch, elif_branches, else_branch: Some(b) }, p7)),
                                                Err(m) => Err(m),
                                            }
                                        } else {
                                            Err(Seq::empty())
                                        },
                                        Err(m) => Err(m),
                                    }
                                } else {
                                    Ok((StmtV::If { condition, then_branch, elif_branches, else_branch: None }, p5))
                                },
                                Err(m) => Err(m),
                            }
                        } else {
                            Err(Seq::empty())
                        },
                        Err(m) => Err(m),
                    }
                } else {
                    Err(Seq::empty())
                },
                Err(m) => Err(m),
            },
            Err(m) => Err(m),
        },
        Err(m) => Err(m),
    }
}

/// The `elif` branches that start at `p`, appended to `acc`.
pub open spec fn parse_elifs_at(ts: Seq<Token>, p: int, acc: Seq<(Expr, Seq<StmtV>)>) -> Result<(Seq<(Expr, Seq<StmtV>)>, int), Seq<char>>
    decreases ts.len() - p, 38int,
{
    if tok(ts, p) is Elif {
        match parse_level_at(ts, p + 1, 0) {
            Ok((condition, q)) => match expect_at(ts, q, Token::Colon) {
                Ok(r) => if p < r <= ts.len() {
                    match parse_block_at(ts, r) {
                        Ok((b, s)) => if p < s <= ts.len() {
                            parse_elifs_at(ts, s, acc.push((condition, b)))
                        } else {
                            Err(Seq::empty())
                        },
                        Err(m) => Err(m),
                    }
                } else {
                    Err(Seq::empty())
                },
                Err(m) => Err(m),
            },
            Err(m) => Err(m),
        }
    } else {
        Ok((acc, p))
    }
}

/// `block = NEWLINE INDENT statement+ DEDENT`, with blank lines skipped.
pub open spec fn parse_block_at(ts: Seq<Token>, p: int) -> Result<(Seq<StmtV>, int), Seq<char>>
    decreases ts.len() - p, 37int,
{
    match expect_at(ts, p, Token::NewLine) {
        Ok(p1) => match expect_at(ts, p1, Token::Indent) {
            Ok(p2) => {
                let q = skip_newlines(ts, p2);
                if p < q <= ts.len() {
                    match parse_block_stmts_at(ts, q, Seq::empty()) {
                        Ok((stmts, r)) => match expect_at(ts, r, Token::Dedent) {
                            Ok(s) => if stmts.len() == 0 { Err(empty_block_text()) } else { Ok((stmts, s)) },
                            Err(m) => Err(m),
                        },
                        Err(m) => Err(m),
                    }
                } else {
                    Err(Seq::empty())
                }
            },
            Err(m) => Err(m),
        },
        Err(m) => Err(m),
    }
}

/// The statements of a block up to its `DEDENT` (or the end), appended to `acc`.
pub open spec fn parse_block_stmts_at(ts: Seq<Token>, p: int, acc: Seq<StmtV>) -> Result<(Seq<StmtV>, int), Seq<char>>
    decreases ts.len() - p, 41int,
{
    if tok(ts, p) is Dedent || tok(ts, p) is Eof {
        Ok((acc, p))
    } else {
        match parse_statement_at(ts, p) {
            Ok((st, q)) => {
                let r = skip_newlines(ts, q);
                if p < r <= ts.len() {
                    parse_block_stmts_at(ts, r, acc.push(st))
                } else {
                    Err(Seq::empty())
                }
            },
            Err(m) => Err(m),
        }
    }
}

/// The statements of a program up to `EOF`, appended to `acc`.
pub open spec fn parse_program_stmts_at(ts: Seq<Token>, p: int, acc: Seq<StmtV>) -> Result<Seq<StmtV>, Seq<char>>
    decreases ts.len() - p,
{
    if tok(ts, p) is Eof {
        Ok(acc)
    } else {
        match parse_statement_at(ts, p) {
            Ok((st, q)) => {
                let r = skip_newlines(ts, q);
                if p < r <= ts.len() {
                    parse_program_stmts_at(ts, r, acc.push(st))
                } else {
                    Err(Seq::empty())
                }
            },
            Err(m) => Err(m),
        }
    }
}

/// A whole program from position `p`: leading newlines are skipped, then
/// statements are parsed up to `EOF`.
pub open spec fn parse_program_at(ts: Seq<Token>, p: int) -> Result<Seq<StmtV>, Seq<char>> {
    parse_program_stmts_at(ts, skip_newlines(ts, p), Seq::empty())
}

// ---------------------------------------------------------------------------
// The executable parser
// ---------------------------------------------------------------------------

/// A recursive descent parser.
///
/// The parser consumes a flat stream of tokens and produces statements. It
/// follows standard precedence rules:
/// 1. Comparison operators (lowest precedence)
/// 2. Addition and subtraction
/// 3. Multiplication and division
/// 4. Atoms and parentheses (highest precedence)
pub struct Parser {
    tokens: Vec<Token>,
    pos: usize,
}

/// A token without a payload (every variant but numbers and names).
pub open spec fn is_plain_token(t: Token) -> bool {
    !(t is Number) && !(t is Name)
}

/// A numeric tag per token variant.
pub open spec fn token_tag(t: Token) -> u8 {
    match t {
        Token::Number(_) => 0,
        Token::True => 1,
        Token::False => 2,
        Token::Plus => 3,
        Token::Minus => 4,
        Token::Star => 5,
        Token::Slash => 6,
        Token::Eq => 7,
        Token::NotEq => 8,
        Token::Greater => 9,
        Token::Less => 10,
        Token::GreaterEq => 11,
        Token::LessEq => 12,
        Token::LParen => 13,
        Token::RParen => 14,
        Token::Name(_) => 15,
        Token::Assign => 16,
        Token::Colon => 17,
        Token::Comma => 18,
        Token::RArrow => 19,
        Token::NewLine => 20,
        Token::Indent => 21,
        Token::Dedent => 22,
        Token::If => 23,
        Token::Elif => 24,
        Token::Else => 25,
        Token::Def => 26,
        Token::Return => 27,
        Token::Eof => 28,
    }
}

fn tag_of(t: &Token) -> (n: u8)
    ensures
        n == token_tag(*t),
{
    match t {
        Token::Number(_) => 0,
        Token::True => 1,
        Token::False => 2,
        Token::Plus => 3,
        Token::Minus => 4,
        Token::Star => 5,
        Token::Slash => 6,
        Token::Eq => 7,
        Token::NotEq => 8,
        Token::Greater => 9,
        Token::Less => 10,
        Token::GreaterEq => 11,
        Token::LessEq => 12,
        Token::LParen => 13,
        Token::RParen => 14,
        Token::Name(_) => 15,
        Token::Assign => 16,
        Token::Colon => 17,
        Token::Comma => 18,
        Token::RArrow => 19,
        Token::NewLine => 20,
        Token::Indent => 21,
        Token::Dedent => 22,
        Token::If => 23,
        Token::Elif => 24,
        Token::Else => 25,
        Token::Def => 26,
        Token::Return => 27,
        Token::Eof => 28,
    }
}

/// What `{:?}` prints for the token.
fn token_debug_text(t: &Token) -> (r: String)
    ensures
        r@ == token_debug(*t),
{
    match t {
        Token::Number(n) => {
            let mut r = text_of("Number(");
            r.append(int_to_text(*n).as_str());
            r.append(")");
            r
        },
        Token::Name(s) => {
            let mut r = text_of("Name(");
            r.append(debug_text(s.as_str()).as_str());
            r.append(")");
            r
        },
        Token::True => text_of("True"),
        Token::False => text_of("False"),
        Token::Plus => text_of("Plus"),
        Token::Minus => text_of("Minus"),
        Token::Star => text_of("Star"),
        Token::Slash => text_of("Slash"),
        Token::Eq => text_of("Eq"),
        Token::NotEq => text_of("NotEq"),
        Token::Greater => text_of("Greater"),
        Token::Less => text_of("Less"),
        Token::GreaterEq => text_of("GreaterEq"),
        Token::LessEq => text_of("LessEq"),
        Token::LParen => text_of("LParen"),
        Token::RParen => text_of("RParen"),
        Token::Assign => text_of("Assign"),
        Token::Colon => text_of("Colon"),
        Token::Comma => text_of("Comma"),
        Token::RArrow => text_of("RArrow"),
        Token::NewLine => text_of("NewLine"),
        Token::Indent => text_of("Indent"),
        Token::Dedent => text_of("Dedent"),
        Token::If => text_of("If"),
        Token::Elif => text_of("Elif"),
        Token::Else => text_of("Else"),
        Token::Def => text_of("Def"),
        Token::Return => text_of("Return"),
        Token::Eof => text_of("Eof"),
    }
}

impl Parser {
    /// The token stream being parsed.
    pub closed spec fn tokens_seq(&self) -> Seq<Token> {
        self.tokens@
    }

    /// The position of the next token.
    pub closed spec fn position(&self) -> int {
        self.pos as int
    }

    /// The position lies within the token stream (one past its end at most).
    pub closed spec fn wf(&self) -> bool {
        self.pos <= self.tokens@.len()
    }

    /// Creates a new parser for the given token stream.
    pub fn new(tokens: Vec<Token>) -> (p: Self)
        ensures
            p.wf(),
            p.tokens_seq() == tokens@,
            p.position() == 0,
    {
        Parser { tokens, pos: 0 }
    }

    /// The current token, `None` past the end (where the parser sees `EOF`).
    fn peek(&self) -> (t: Option<&Token>)
        requires
            self.wf(),
        ensures
            self.pos < self.tokens@.len() ==> t == Some(&self.tokens@[self.pos as int]),
            self.pos >= self.tokens@.len() ==> t is None,
    {
        if self.pos < self.tokens.len() {
            Some(&self.tokens[self.pos])
        } else {
            None
        }
    }

    /// Whether the current token is `expected`, a token without payload.
    fn current_is(&self, expected: &Token) -> (r: bool)
        requires
            self.wf(),
            is_plain_token(*expected),
        ensures
            r == (tok(self.tokens@, self.pos as int) == *expected),
    {
        let tag = tag_of(expected);
        match self.peek() {
            Some(t) => tag_of(t) == tag,
            None => tag == 28,
        }
    }

    /// Moves past the current token.
    fn advance(&mut self)
        requires
            old(self).pos < old(self).tokens@.len(),
        ensures
            final(self).tokens@ == old(self).tokens@,
            final(self).pos == old(self).pos + 1,
    {
        let n = self.tokens.len();
        assert(self.pos < n);
        self.pos = self.pos + 1;
    }

    /// The `{:?}` rendering of the current token.
    fn current_debug(&self) -> (r: String)
        requires
            self.wf(),
        ensures
            r@ == token_debug(tok(self.tokens@, self.pos as int)),
    {
        match self.peek() {
            Some(t) => token_debug_text(t),
            None => text_of("Eof"),
        }
    }

    /// Consumes the current token if it is `expected`, and reports a syntax
    /// error otherwise.
    fn eat(&mut self, expected: Token) -> (r: Result<(), String>)
        requires
            old(self).wf(),
            is_plain_token(expected),
            !(expected is Eof),
        ensures
            final(self).wf(),
            final(self).tokens@ == old(self).tokens@,
            match expect_at(old(self).tokens@, old(self).pos as int, expected) {
                Ok(q) => r is Ok && final(self).pos == q,
                Err(m) => r matches Err(s) && s@ == m,
            },
    {
        if self.current_is(&expected) {
            self.advance();
            Ok(())
        } else {
            let mut m = text_of("SyntaxError: expected ");
            m.append(token_debug_text(&expected).as_str());
            m.append(", but got ");
            m.append(self.current_debug().as_str());
            Err(m)
        }
    }

    /// Skips newline tokens.
    fn skip_newlines(&mut self)
        requires
            old(self).wf(),
        ensures
            final(self).wf(),
            final(self).tokens@ == old(self).tokens@,
            final(self).pos == skip_newlines(old(self).tokens@, old(self).pos as int),
    {
        while self.current_is(&Token::NewLine)
            invariant
                self.wf(),
                self.tokens@ == old(self).tokens@,
                skip_newlines(self.tokens@, self.pos as int) == skip_newlines(old(self).tokens@, old(self).pos as int),
            decreases self.tokens@.len() - self.pos,
        {
            self.advance();
        }
    }

    /// The operator that the current token denotes at precedence `level`.
    fn current_operator(&self, level: u8) -> (r: Option<Operator>)
        requires
            self.wf(),
        ensures
            r == binary_operator(level as nat, tok(self.tokens@, self.pos as int)),
    {
        match self.peek() {
            Some(t) => {
                if level == 0 {
                    match t {
                        Token::Eq => Some(Operator::Eq),
                        Token::NotEq => Some(Operator::NotEq),
                        Token::Less => Some(Operator::Less),
                        Token::Greater => Some(Operator::Greater),
                        Token::LessEq => Some(Operator::LessEq),
                        Token::GreaterEq => Some(Operator::GreaterEq),
                        _ => None,
                    }
                } else if level == 1 {
                    match t {
                        Token::Plus => Some(Operator::Plus),
                        Token::Minus => Some(Operator::Minus),
                        _ => None,
                    }
                } else if level == 2 {
                    match t {
                        Token::Star => Some(Operator::Star),
                        Token::Slash => Some(Operator::Slash),
                        _ => None,
                    }
                } else {
                    None
                }
            },
            None => None,
        }
    }

    /// Parses an atomic expression: a number, a name, a boolean literal or a
    /// parenthesized expression.
    fn parse_factor(&mut self) -> (r: Result<Expr, String>)
        requires
            old(self).wf(),
        ensures
            final(self).wf(),
            final(self).tokens@ == old(self).tokens@,
            match parse_factor_at(old(self).tokens@, old(self).pos as int) {
                Ok((e, q)) => r == Ok::<Expr, String>(e) && final(self).pos == q,
                Err(m) => r matches Err(s) && s@ == m,
            },
            r is Ok ==> old(self).pos < final(self).pos,
        decreases old(self).tokens@.len() - old(self).pos, 13int,
    {
        match self.peek() {
            Some(Token::Number(n)) => {
                let v = *n;
                self.advance();
                Ok(Expr::Number(v))
            },
            Some(Token::True) => {
                self.advance();
                Ok(Expr::Bool(true))
            },
            Some(Token::False) => {
                self.advance();
                Ok(Expr::Bool(false))
            },
            Some(Token::Name(name)) => {
                let var_name = name.clone();
                self.advance();
                Ok(Expr::Name(var_name))
            },
            Some(Token::LParen) => {
                self.advance();
                let expr = match self.parse_binary_op(0) {
                    Ok(e) => e,
                    Err(m) => return Err(m),
                };
                match self.eat(Token::RParen) {
                    Ok(()) => Ok(expr),
                    Err(m) => Err(m),
                }
            },
            _ => {
                let mut m = text_of("SyntaxError: expected expression but got ");
                m.append(self.current_debug().as_str());
                Err(m)
            },
        }
    }

    /// Parses an expression at precedence `level`: comparisons (0), sums (1),
    /// products (2) or a factor (3).
    fn parse_binary_op(&mut self, level: u8) -> (r: Result<Expr, String>)
        requires
            old(self).wf(),
        ensures
            final(self).wf(),
            final(self).tokens@ == old(self).tokens@,
            match parse_level_at(old(self).tokens@, old(self).pos as int, level as nat) {
                Ok((e, q)) => r == Ok::<Expr, String>(e) && final(self).pos == q,
                Err(m) => r matches Err(s) && s@ == m,
            },
            r is Ok ==> old(self).pos < final(self).pos,
        decreases old(self).tokens@.len() - old(self).pos, if level >= 3 { 14int } else { 20 - 2 * level },
    {
        if level >= 3 {
            return self.parse_factor();
        }
        let left = match self.parse_binary_op(level + 1) {
            Ok(e) => e,
            Err(m) => return Err(m),
        };
        self.parse_operations(level, left)
    }

    /// Parses the operator-operand pairs that follow `left` at precedence
    /// `level`, combining them to the left.
    fn parse_operations(&mut self, level: u8, first: Expr) -> (r: Result<Expr, String>)
        requires
            old(self).wf(),
            level < 3,
        ensures
            final(self).wf(),
            final(self).tokens@ == old(self).tokens@,
            match parse_operations_at(old(self).tokens@, old(self).pos as int, level as nat, first) {
                Ok((e, q)) => r == Ok::<Expr, String>(e) && final(self).pos == q,
                Err(m) => r matches Err(s) && s@ == m,
            },
            r is Ok ==> old(self).pos <= final(self).pos,
        decreases old(self).tokens@.len() - old(self).pos, 0int,
    {
        let ghost ts = self.tokens@;
        let ghost p0 = self.pos as int;
        let ghost left0 = first;
        let mut left = first;
        loop
            invariant
                self.wf(),
                self.tokens@ == ts,
                ts == old(self).tokens@,
                p0 == old(self).pos,
                left0 == first,
                level < 3,
                p0 <= self.pos,
                parse_operations_at(ts, self.pos as int, level as nat, left) == parse_operations_at(ts, p0, level as nat, left0),
            decreases ts.len() - self.pos,
        {
            let op = match self.current_operator(level) {
                Some(op) => op,
                None => {
                    return Ok(left);
                },
            };
            self.advance();
            let right = match self.parse_binary_op(level + 1) {
                Ok(e) => e,
                Err(m) => return Err(m),
            };
            left = Expr::BinaryOp { left: Box::new(left), op, right: Box::new(right) };
        }
    }

    /// Parses a full expression (comparison precedence).
    fn parse_expression(&mut self) -> (r: Result<Expr, String>)
        requires
            old(self).wf(),
        ensures
            final(self).wf(),
            final(self).tokens@ == old(self).tokens@,
            match parse_level_at(old(self).tokens@, old(self).pos as int, 0) {
                Ok((e, q)) => r == Ok::<Expr, String>(e) && final(self).pos == q,
                Err(m) => r matches Err(s) && s@ == m,
            },
            r is Ok ==> old(self).pos < final(self).pos,
    {
        self.parse_binary_op(0)
    }

    /// Parses a type annotation: `int` or `bool`.
    fn parse_type(&mut self) -> (r: Result<Type, String>)
        requires
            old(self).wf(),
        ensures
            final(self).wf(),
            final(self).tokens@ == old(self).tokens@,
            match parse_type_at(old(self).tokens@, old(self).pos as int) {
                Ok((t, q)) => r == Ok::<Type, String>(t) && final(self).pos == q,
                Err(m) => r matches Err(s) && s@ == m,
            },
    {
        let name = match self.peek() {
            Some(Token::Name(name)) => name.clone(),
            _ => return Err(text_of("SyntaxError: expected type annotation")),
        };
        if name == text_of("int") {
            self.advance();
            Ok(Type::Int)
        } else if name == text_of("bool") {
            self.advance();
            Ok(Type::Bool)
        } else {
            let mut m = text_of("SyntaxError: unknown type ");
            m.append(debug_text(name.as_str()).as_str());
            Err(m)
        }
    }

    /// Parses a single statement.
    fn parse_statement(&mut self) -> (r: Result<Stmt, String>)
        requires
            old(self).wf(),
        ensures
            final(self).wf(),
            final(self).tokens@ == old(self).tokens@,
            match parse_statement_at(old(self).tokens@, old(self).pos as int) {
                Ok((sv, q)) => (r matches Ok(st) && stmt_view(st) == sv) && final(self).pos == q,
                Err(m) => r matches Err(s) && s@ == m,
            },
            r is Ok ==> old(self).pos < final(self).pos,
        decreases old(self).tokens@.len() - old(self).pos, 40int,
    {
        if self.current_is(&Token::If) {
            return self.parse_if_statement();
        }
        let name_opt = match self.peek() {
            Some(Token::Name(name)) => Some(name.clone()),
            _ => None,
        };
        if let Some(name) = name_opt {
            let saved_pos = self.pos;
            self.advance();
            if self.current_is(&Token::Colon) {
                self.advance();
                let typ = match self.parse_type() {
                    Ok(t) => t,
                    Err(m) => return Err(m),
                };
                let initializer = if self.current_is(&Token::Assign) {
                    self.advance();
                    match self.parse_expression() {
                        Ok(e) => Some(e),
                        Err(m) => return Err(m),
                    }
                } else {
                    None
                };
                return Ok(Stmt::VariableDecl { name, typ, initializer });
            }
            if self.current_is(&Token::Assign) {
                self.advance();
                let value = match self.parse_expression() {
                    Ok(e) => e,
                    Err(m) => return Err(m),
                };
                return Ok(Stmt::Assign { name, value });
            }
            self.pos = saved_pos;
        }
        match self.parse_expression() {
            Ok(e) => Ok(Stmt::Expr(e)),
            Err(m) => Err(m),
        }
    }

    /// Parses an if statement with its elif and else branches.
    fn parse_if_statement(&mut self) -> (r: Result<Stmt, String>)
        requires
            old(self).wf(),
        ensures
            final(self).wf(),
            final(self).tokens@ == old(self).tokens@,
            match parse_if_at(old(self).tokens@, old(self).pos as int) {
                Ok((sv, q)) => (r matches Ok(st) && stmt_view(st) == sv) && final(self).pos == q,
                Err(m) => r matches Err(s) && s@ == m,
            },
            r is Ok ==> old(self).pos < final(self).pos,
        decreases old(self).tokens@.len() - old(self).pos, 39int,
    {
        let ghost ts = self.tokens@;
        match self.eat(Token::If) {
            Ok(()) => {},
            Err(m) => return Err(m),
        }
        let condition = match self.parse_expression() {
            Ok(e) => e,
            Err(m) => return Err(m),
        };
        match self.eat(Token::Colon) {
            Ok(()) => {},
            Err(m) => return Err(m),
        }
        let then_branch = match self.parse_block() {
            Ok(b) => b,
            Err(m) => return Err(m),
        };
        let elif_branches = match self.parse_elif_branches() {
            Ok(b) => b,
            Err(m) => return Err(m),
        };
        let else_branch = if self.current_is(&Token::Else) {
            self.advance();
            match self.eat(Token::Colon) {
                Ok(()) => {},
                Err(m) => return Err(m),
            }
            match self.parse_block() {
                Ok(b) => Some(b),
                Err(m) => return Err(m),
            }
        } else {
            None
        };
        Ok(Stmt::If { condition, then_branch, elif_branches, else_branch })
    }

    /// Parses the `elif` branches at the current position.
    fn parse_elif_branches(&mut self) -> (r: Result<Vec<(Expr, Vec<Stmt>)>, String>)
        requires
            old(self).wf(),
        ensures
            final(self).wf(),
            final(self).tokens@ == old(self).tokens@,
            match parse_elifs_at(old(self).tokens@, old(self).pos as int, Seq::empty()) {
                Ok((bs, q)) => (r matches Ok(v) && elifs_view(v@) == bs) && final(self).pos == q,
                Err(m) => r matches Err(s) && s@ == m,
            },
            r is Ok ==> old(self).pos <= final(self).pos,
        decreases old(self).tokens@.len() - old(self).pos, 38int,
    {
        let ghost ts = self.tokens@;
        let ghost p0 = self.pos as int;
        let mut branches: Vec<(Expr, Vec<Stmt>)> = Vec::new();
        while self.current_is(&Token::Elif)
            invariant
                self.wf(),
                self.tokens@ == ts,
                ts == old(self).tokens@,
                p0 == old(self).pos,
                p0 <= self.pos,
                parse_elifs_at(ts, self.pos as int, elifs_view(branches@))
                    == parse_elifs_at(ts, p0, Seq::empty()),
            decreases ts.len() - self.pos,
        {
            self.advance();
            let condition = match self.parse_expression() {
                Ok(e) => e,
                Err(m) => return Err(m),
            };
            match self.eat(Token::Colon) {
                Ok(()) => {},
                Err(m) => return Err(m),
            }
            let branch = match self.parse_block() {
                Ok(b) => b,
                Err(m) => return Err(m),
            };
            proof { lemma_elifs_view_push(branches@, (condition, branch)); }
            branches.push((condition, branch));
        }
        Ok(branches)
    }

    /// Parses an indented block: a newline, an indent, one or more
    /// statements, and a dedent.
    fn parse_block(&mut self) -> (r: Result<Vec<Stmt>, String>)
        requires
            old(self).wf(),
        ensures
            final(self).wf(),
            final(self).tokens@ == old(self).tokens@,
            match parse_block_at(old(self).tokens@, old(self).pos as int) {
                Ok((ss, q)) => (r matches Ok(v) && stmts_view(v@) == ss) && final(self).pos == q,
                Err(m) => r matches Err(s) && s@ == m,
            },
            r is Ok ==> old(self).pos < final(self).pos,
        decreases old(self).tokens@.len() - old(self).pos, 37int,
    {
        let ghost ts = self.tokens@;
        let ghost p0 = self.pos as int;
        match self.eat(Token::NewLine) {
            Ok(()) => {},
            Err(m) => return Err(m),
        }
        match self.eat(Token::Indent) {
            Ok(()) => {},
            Err(m) => return Err(m),
        }
        let ghost p2 = self.pos as int;
        self.skip_newlines();
        let ghost q0 = self.pos as int;
        proof { lemma_skip_newlines(ts, p2); }
        let mut stmts: Vec<Stmt> = Vec::new();
        while !self.current_is(&Token::Dedent) && !self.current_is(&Token::Eof)
            invariant
                self.wf(),
                self.tokens@ == ts,
                ts == old(self).tokens@,
                p0 == old(self).pos,
                p0 < q0 <= self.pos,
                expect_at(ts, p0, Token::NewLine) == Ok::<int, Seq<char>>(p0 + 1),
                expect_at(ts, p0 + 1, Token::Indent) == Ok::<int, Seq<char>>(p2),
                p2 == p0 + 2,
                q0 == skip_newlines(ts, p2),
                parse_block_stmts_at(ts, self.pos as int, stmts_view(stmts@))
                    == parse_block_stmts_at(ts, q0, Seq::empty()),
            decreases ts.len() - self.pos,
        {
            let stmt = match self.parse_statement() {
                Ok(s) => s,
                Err(m) => return Err(m),
            };
            let ghost q = self.pos as int;
            proof { lemma_stmts_view_push(stmts@, stmt); }
            stmts.push(stmt);
            self.skip_newlines();
            proof { lemma_skip_newlines(ts, q); }
        }
        match self.eat(Token::Dedent) {
            Ok(()) => {},
            Err(m) => return Err(m),
        }
        proof { lemma_stmts_view(stmts@); }
        if stmts.len() == 0 {
            return Err(text_of("SyntaxError: expected an indented block"));
        }
        Ok(stmts)
    }

    /// Parses the entire token stream into a list of statements.
    ///
    /// Leading and trailing newlines are ignored. Parsing continues until
    /// the end of file is reached.
    pub fn parse(&mut self) -> (r: Result<Vec<Stmt>, String>)
        requires
            old(self).wf(),
        ensures
            final(self).wf(),
            final(self).tokens_seq() == old(self).tokens_seq(),
            match parse_program_at(old(self).tokens_seq(), old(self).position()) {
                Ok(ss) => r matches Ok(v) && stmts_view(v@) == ss,
                Err(m) => r matches Err(s) && s@ == m,
            },
    {
        let ghost ts = self.tokens@;
        let ghost p0 = self.pos as int;
        self.skip_newlines();
        let ghost q0 = self.pos as int;
        let mut stmts: Vec<Stmt> = Vec::new();
        while !self.current_is(&Token::Eof)
            invariant
                self.wf(),
                self.tokens@ == ts,
                ts == old(self).tokens@,
                q0 == skip_newlines(ts, p0),
                p0 == old(self).pos,
                parse_program_stmts_at(ts, self.pos as int, stmts_view(stmts@))
                    == parse_program_stmts_at(ts, q0, Seq::empty()),
            decreases ts.len() - self.pos,
        {
            let ghost p = self.pos as int;
            let stmt = match self.parse_statement() {
                Ok(s) => s,
                Err(m) => return Err(m),
            };
            let ghost q = self.pos as int;
            proof { lemma_stmts_view_push(stmts@, stmt); }
            stmts.push(stmt);
            self.skip_newlines();
            proof { lemma_skip_newlines(ts, q); }
        }
        Ok(stmts)
    }

    /// Gives back the token stream, for a driver that shows it.
    pub fn into_tokens(self) -> (ts: Vec<Token>)
        ensures
            ts@ == self.tokens_seq(),
    {
        self.tokens
    }
}

/// `skip_newlines` moves forward, and not past the end.
pub proof fn lemma_skip_newlines(ts: Seq<Token>, p: int)
    requires
        0 <= p <= ts.len(),
    ensures
        p <= skip_newlines(ts, p) <= ts.len(),
    decreases ts.len() - p,
{
    if 0 <= p < ts.len() && ts[p] is NewLine {
        lemma_skip_newlines(ts, p + 1);
    }
}

/// The tokens `a op1 b op2 c` of one line, then the end of input.
pub open spec fn three_operands(a: i64, t1: Token, b: i64, t2: Token, c: i64) -> Seq<Token> {
    seq![Token::Number(a), t1, Token::Number(b), t2, Token::Number(c), Token::NewLine, Token::Eof]
}

proof fn lemma_parse_number(ts: Seq<Token>, p: int, n: i64)
    requires
        0 <= p < ts.len(),
        ts[p] == Token::Number(n),
    ensures
        parse_level_at(ts, p, 3) == Ok::<(Expr, int), Seq<char>>((Expr::Number(n), p + 1)),
{
    assert(tok(ts, p) == Token::Number(n));
    assert(parse_factor_at(ts, p) == Ok::<(Expr, int), Seq<char>>((Expr::Number(n), p + 1)));
}

proof fn lemma_parse_no_operator(ts: Seq<Token>, q: int, level: nat, e: Expr)
    requires
        binary_operator(level, tok(ts, q)) is None,
    ensures
        parse_operations_at(ts, q, level, e) == Ok::<(Expr, int), Seq<char>>((e, q)),
{
}

proof fn lemma_parse_level(ts: Seq<Token>, p: int, level: nat, e: Expr, q: int, e2: Expr, r: int)
    requires
        level < 3,
        parse_level_at(ts, p, level + 1) == Ok::<(Expr, int), Seq<char>>((e, q)),
        p < q <= ts.len(),
        parse_operations_at(ts, q, level, e) == Ok::<(Expr, int), Seq<char>>((e2, r)),
    ensures
        parse_level_at(ts, p, level) == Ok::<(Expr, int), Seq<char>>((e2, r)),
{
}

proof fn lemma_parse_operator(ts: Seq<Token>, p: int, level: nat, left: Expr, op: Operator, right: Expr, q: int, e2: Expr, r: int)
    requires
        level < 3,
        0 <= p < ts.len(),
        binary_operator(level, tok(ts, p)) == Some(op),
        parse_level_at(ts, p + 1, level + 1) == Ok::<(Expr, int), Seq<char>>((right, q)),
        p + 1 < q <= ts.len(),
        parse_operations_at(ts, q, level, Expr::BinaryOp { left: Box::new(left), op, right: Box::new(right) })
            == Ok::<(Expr, int), Seq<char>>((e2, r)),
    ensures
        parse_operations_at(ts, p, level, left) == Ok::<(Expr, int), Seq<char>>((e2, r)),
{
}

/// The line `a op1 b op2 c` with a sum operator first and a product one
/// second parses as `a op1 (b op2 c)`.
#[verifier::spinoff_prover]
proof fn lemma_sum_then_product(a: i64, b: i64, c: i64, ta: Token, oa: Operator, tm: Token, om: Operator)
    requires
        binary_operator(0, ta) is None,
        binary_operator(1, ta) == Some(oa),
        binary_operator(2, ta) is None,
        binary_operator(0, tm) is None,
        binary_operator(2, tm) == Some(om),
    ensures
        parse_program_at(three_operands(a, ta, b, tm, c), 0) == Ok::<Seq<StmtV>, Seq<char>>(seq![StmtV::Expr(
            Expr::BinaryOp { left: Box::new(Expr::Number(a)), op: oa, right: Box::new(Expr::BinaryOp { left: Box::new(Expr::Number(b)), op: om, right: Box::new(Expr::Number(c)) }) },
        )]),
{
    let na = Expr::Number(a);
    let nb = Expr::Number(b);
    let nc = Expr::Number(c);
    let ts = three_operands(a, ta, b, tm, c);
    assert(tok(ts, 1) == ta && tok(ts, 3) == tm && tok(ts, 5) == Token::NewLine);
    assert(binary_operator(0, Token::NewLine) is None && binary_operator(1, Token::NewLine) is None
        && binary_operator(2, Token::NewLine) is None);
    let bc = Expr::BinaryOp { left: Box::new(nb), op: om, right: Box::new(nc) };
    let e = Expr::BinaryOp { left: Box::new(na), op: oa, right: Box::new(bc) };
    lemma_parse_number(ts, 4, c);
    lemma_parse_number(ts, 2, b);
    lemma_parse_number(ts, 0, a);
    lemma_parse_no_operator(ts, 5, 2, bc);
    lemma_parse_operator(ts, 3, 2, nb, om, nc, 5, bc, 5);
    lemma_parse_level(ts, 2, 2, nb, 3, bc, 5);
    lemma_parse_no_operator(ts, 1, 2, na);
    lemma_parse_level(ts, 0, 2, na, 1, na, 1);
    lemma_parse_no_operator(ts, 5, 1, e);
    lemma_parse_operator(ts, 1, 1, na, oa, bc, 5, e, 5);
    lemma_parse_level(ts, 0, 1, na, 1, e, 5);
    lemma_parse_no_operator(ts, 5, 0, e);
    lemma_parse_level(ts, 0, 0, e, 5, e, 5);
    lemma_program_of_one_line(ts, e);
}

/// The line `a op1 b op2 c` with a product operator first and a sum one
/// second parses as `(a op1 b) op2 c`.
#[verifier::spinoff_prover]
proof fn lemma_product_then_sum(a: i64, b: i64, c: i64, tm: Token, om: Operator, ta: Token, oa: Operator)
    requires
        binary_operator(0, ta) is None,
        binary_operator(1, ta) == Some(oa),
        binary_operator(2, ta) is None,
        binary_operator(0, tm) is None,
        binary_operator(2, tm) == Some(om),
    ensures
        parse_program_at(three_operands(a, tm, b, ta, c), 0) == Ok::<Seq<StmtV>, Seq<char>>(seq![StmtV::Expr(
            Expr::BinaryOp { left: Box::new(Expr::BinaryOp { left: Box::new(Expr::Number(a)), op: om, right: Box::new(Expr::Number(b)) }), op: oa, right: Box::new(Expr::Number(c)) },
        )]),
{
    let na = Expr::Number(a);
    let nb = Expr::Number(b);
    let nc = Expr::Number(c);
    let us = three_operands(a, tm, b, ta, c);
    assert(tok(us, 1) == tm && tok(us, 3) == ta && tok(us, 5) == Token::NewLine);
    assert(binary_operator(0, Token::NewLine) is None && binary_operator(1, Token::NewLine) is None
        && binary_operator(2, Token::NewLine) is None);
    let ab = Expr::BinaryOp { left: Box::new(na), op: om, right: Box::new(nb) };
    let f = Expr::BinaryOp { left: Box::new(ab), op: oa, right: Box::new(nc) };
    lemma_parse_number(us, 0, a);
    lemma_parse_number(us, 2, b);
    lemma_parse_number(us, 4, c);
    lemma_parse_no_operator(us, 3, 2, ab);
    lemma_parse_operator(us, 1, 2, na, om, nb, 3, ab, 3);
    lemma_parse_level(us, 0, 2, na, 1, ab, 3);
    lemma_parse_no_operator(us, 5, 2, nc);
    lemma_parse_level(us, 4, 2, nc, 5, nc, 5);
    lemma_parse_no_operator(us, 5, 1, f);
    lemma_parse_operator(us, 3, 1, ab, oa, nc, 5, f, 5);
    lemma_parse_level(us, 0, 1, ab, 3, f, 5);
    lemma_parse_no_operator(us, 5, 0, f);
    lemma_parse_level(us, 0, 0, f, 5, f, 5);
    lemma_program_of_one_line(us, f);
}

/// A program of one expression line: its expression spans the first five
/// tokens, then the newline and the end.
proof fn lemma_program_of_one_line(ts: Seq<Token>, e: Expr)
    requires
        ts.len() == 7,
        ts[0] is Number,
        ts[5] is NewLine,
        ts[6] is Eof,
        parse_level_at(ts, 0, 0) == Ok::<(Expr, int), Seq<char>>((e, 5)),
    ensures
        parse_program_at(ts, 0) == Ok::<Seq<StmtV>, Seq<char>>(seq![StmtV::Expr(e)]),
{
    assert(parse_statement_at(ts, 0) == Ok::<(StmtV, int), Seq<char>>((StmtV::Expr(e), 5)));
    assert(skip_newlines(ts, 6) == 6);
    assert(skip_newlines(ts, 5) == 6);
    assert(skip_newlines(ts, 0) == 0);
    assert(parse_program_stmts_at(ts, 6, seq![StmtV::Expr(e)]) == Ok::<Seq<StmtV>, Seq<char>>(seq![StmtV::Expr(e)]));
    assert(Seq::<StmtV>::empty().push(StmtV::Expr(e)) =~= seq![StmtV::Expr(e)]);
}

/// `*` and `/` bind tighter than `+` and `-`: for all operands, the line
/// `a + b / c` (or with `-`, or with `*`) parses as `a + (b / c)`, and the
/// line `a / b + c` as `(a / b) + c`.
pub proof fn law_products_bind_tighter_than_sums(a: i64, b: i64, c: i64, additive: bool, multiplicative: bool)
    ensures
        ({
            let (ta, oa) = if additive { (Token::Plus, Operator::Plus) } else { (Token::Minus, Operator::Minus) };
            let (tm, om) = if multiplicative { (Token::Star, Operator::Star) } else { (Token::Slash, Operator::Slash) };
            let na = Expr::Number(a);
            let nb = Expr::Number(b);
            let nc = Expr::Number(c);
            &&& parse_program_at(three_operands(a, ta, b, tm, c), 0) == Ok::<Seq<StmtV>, Seq<char>>(seq![StmtV::Expr(
                Expr::BinaryOp { left: Box::new(na), op: oa, right: Box::new(Expr::BinaryOp { left: Box::new(nb), op: om, right: Box::new(nc) }) },
            )])
            &&& parse_program_at(three_operands(a, tm, b, ta, c), 0) == Ok::<Seq<StmtV>, Seq<char>>(seq![StmtV::Expr(
                Expr::BinaryOp { left: Box::new(Expr::BinaryOp { left: Box::new(na), op: om, right: Box::new(nb) }), op: oa, right: Box::new(nc) },
            )])
        }),
{
    let (ta, oa) = if additive { (Token::Plus, Operator::Plus) } else { (Token::Minus, Operator::Minus) };
    let (tm, om) = if multiplicative { (Token::Star, Operator::Star) } else { (Token::Slash, Operator::Slash) };
    lemma_sum_then_product(a, b, c, ta, oa, tm, om);
    lemma_product_then_sum(a, b, c, tm, om, ta, oa);
}

/// The comparison tokens and the operators they denote, by number.
pub open spec fn comparison_pair(i: int) -> (Token, Operator) {
    if i == 0 {
        (Token::Eq, Operator::Eq)
    } else if i == 1 {
        (Token::NotEq, Operator::NotEq)
    } else if i == 2 {
        (Token::Less, Operator::Less)
    } else if i == 3 {
        (Token::Greater, Operator::Greater)
    } else if i == 4 {
        (Token::LessEq, Operator::LessEq)
    } else {
        (Token::GreaterEq, Operator::GreaterEq)
    }
}

/// `a < b + c` parses as `a < (b + c)`.
#[verifier::spinoff_prover]
proof fn lemma_comparison_then_sum(a: i64, b: i64, c: i64, tc: Token, oc: Operator, ta: Token, oa: Operator)
    requires
        binary_operator(0, ta) is None,
        binary_operator(1, ta) == Some(oa),
        binary_operator(2, ta) is None,
        binary_operator(0, tc) == Some(oc),
        binary_operator(1, tc) is None,
        binary_operator(2, tc) is None,
    ensures
        parse_program_at(three_operands(a, tc, b, ta, c), 0) == Ok::<Seq<StmtV>, Seq<char>>(seq![StmtV::Expr(
            Expr::BinaryOp { left: Box::new(Expr::Number(a)), op: oc, right: Box::new(Expr::BinaryOp { left: Box::new(Expr::Number(b)), op: oa, right: Box::new(Expr::Number(c)) }) },
        )]),
{
    let na = Expr::Number(a);
    let nb = Expr::Number(b);
    let nc = Expr::Number(c);
    assert(binary_operator(0, Token::NewLine) is None && binary_operator(1, Token::NewLine) is None
        && binary_operator(2, Token::NewLine) is None);
    // a < b + c
    let ts = three_operands(a, tc, b, ta, c);
    assert(tok(ts, 1) == tc && tok(ts, 3) == ta && tok(ts, 5) == Token::NewLine);
    let bc = Expr::BinaryOp { left: Box::new(nb), op: oa, right: Box::new(nc) };
    let e = Expr::BinaryOp { left: Box::new(na), op: oc, right: Box::new(bc) };
    lemma_parse_number(ts, 0, a);
    lemma_parse_number(ts, 2, b);
    lemma_parse_number(ts, 4, c);
    lemma_parse_no_operator(ts, 1, 2, na);
    lemma_parse_level(ts, 0, 2, na, 1, na, 1);
    lemma_parse_no_operator(ts, 1, 1, na);
    lemma_parse_level(ts, 0, 1, na, 1, na, 1);
    lemma_parse_no_operator(ts, 3, 2, nb);
    lemma_parse_level(ts, 2, 2, nb, 3, nb, 3);
    lemma_parse_no_operator(ts, 5, 2, nc);
    lemma_parse_level(ts, 4, 2, nc, 5, nc, 5);
    lemma_parse_no_operator(ts, 5, 1, bc);
    lemma_parse_operator(ts, 3, 1, nb, oa, nc, 5, bc, 5);
    lemma_parse_level(ts, 2, 1, nb, 3, bc, 5);
    lemma_parse_no_operator(ts, 5, 0, e);
    lemma_parse_operator(ts, 1, 0, na, oc, bc, 5, e, 5);
    lemma_parse_level(ts, 0, 0, na, 1, e, 5);
    lemma_program_of_one_line(ts, e);

}

/// `a + b < c` parses as `(a + b) < c`.
#[verifier::spinoff_prover]
proof fn lemma_sum_then_comparison(a: i64, b: i64, c: i64, ta: Token, oa: Operator, tc: Token, oc: Operator)
    requires
        binary_operator(0, ta) is None,
        binary_operator(1, ta) == Some(oa),
        binary_operator(2, ta) is None,
        binary_operator(0, tc) == Some(oc),
        binary_operator(1, tc) is None,
        binary_operator(2, tc) is None,
    ensures
        parse_program_at(three_operands(a, ta, b, tc, c), 0) == Ok::<Seq<StmtV>, Seq<char>>(seq![StmtV::Expr(
            Expr::BinaryOp { left: Box::new(Expr::BinaryOp { left: Box::new(Expr::Number(a)), op: oa, right: Box::new(Expr::Number(b)) }), op: oc, right: Box::new(Expr::Number(c)) },
        )]),
{
    let na = Expr::Number(a);
    let nb = Expr::Number(b);
    let nc = Expr::Number(c);
    assert(binary_operator(0, Token::NewLine) is None && binary_operator(1, Token::NewLine) is None
        && binary_operator(2, Token::NewLine) is None);
    // a + b < c
    let us = three_operands(a, ta, b, tc, c);
    assert(tok(us, 1) == ta && tok(us, 3) == tc && tok(us, 5) == Token::NewLine);
    let ab = Expr::BinaryOp { left: Box::new(na), op: oa, right: Box::new(nb) };
    let f = Expr::BinaryOp { left: Box::new(ab), op: oc, right: Box::new(nc) };
    lemma_parse_number(us, 0, a);
    lemma_parse_number(us, 2, b);
    lemma_parse_number(us, 4, c);
    lemma_parse_no_operator(us, 1, 2, na);
    lemma_parse_level(us, 0, 2, na, 1, na, 1);
    lemma_parse_no_operator(us, 3, 2, nb);
    lemma_parse_level(us, 2, 2, nb, 3, nb, 3);
    lemma_parse_no_operator(us, 3, 1, ab);
    lemma_parse_operator(us, 1, 1, na, oa, nb, 3, ab, 3);
    lemma_parse_level(us, 0, 1, na, 1, ab, 3);
    lemma_parse_no_operator(us, 5, 2, nc);
    lemma_parse_level(us, 4, 2, nc, 5, nc, 5);
    lemma_parse_no_operator(us, 5, 1, nc);
    lemma_parse_level(us, 4, 1, nc, 5, nc, 5);
    lemma_parse_no_operator(us, 5, 0, f);
    lemma_parse_operator(us, 3, 0, ab, oc, nc, 5, f, 5);
    lemma_parse_level(us, 0, 0, ab, 3, f, 5);
    lemma_program_of_one_line(us, f);
}

/// Sums bind tighter than comparisons: for all operands and every
/// comparison, `a < b + c` parses as `a < (b + c)` and `a + b < c` as
/// `(a + b) < c` (likewise with `-`).
pub proof fn law_sums_bind_tighter_than_comparisons(a: i64, b: i64, c: i64, additive: bool, i: int)
    ensures
        ({
            let (ta, oa) = if additive { (Token::Plus, Operator::Plus) } else { (Token::Minus, Operator::Minus) };
            let (tc, oc) = comparison_pair(i);
            let na = Expr::Number(a);
            let nb = Expr::Number(b);
            let nc = Expr::Number(c);
            &&& parse_program_at(three_operands(a, tc, b, ta, c), 0) == Ok::<Seq<StmtV>, Seq<char>>(seq![StmtV::Expr(
                Expr::BinaryOp { left: Box::new(na), op: oc, right: Box::new(Expr::BinaryOp { left: Box::new(nb), op: oa, right: Box::new(nc) }) },
            )])
            &&& parse_program_at(three_operands(a, ta, b, tc, c), 0) == Ok::<Seq<StmtV>, Seq<char>>(seq![StmtV::Expr(
                Expr::BinaryOp { left: Box::new(Expr::BinaryOp { left: Box::new(na), op: oa, right: Box::new(nb) }), op: oc, right: Box::new(nc) },
            )])
        }),
{
    let (ta, oa) = if additive { (Token::Plus, Operator::Plus) } else { (Token::Minus, Operator::Minus) };
    let (tc, oc) = comparison_pair(i);
    lemma_comparison_then_sum(a, b, c, tc, oc, ta, oa);
    lemma_sum_then_comparison(a, b, c, ta, oa, tc, oc);
}

/// Operators of one precedence associate to the left: `a - b + c` parses as
/// `(a - b) + c` and `a / b * c` as `(a / b) * c`, for all operands and
/// either order of the two operators.
#[verifier::spinoff_prover]
#[verifier::rlimit(40)]
pub proof fn law_operators_associate_left(a: i64, b: i64, c: i64, products: bool, first_is_primary: bool, second_is_primary: bool)
    ensures
        ({
            let pick = |primary: bool| if products {
                if primary { (Token::Star, Operator::Star) } else { (Token::Slash, Operator::Slash) }
            } else {
                if primary { (Token::Plus, Operator::Plus) } else { (Token::Minus, Operator::Minus) }
            };
            let (t1, o1) = pick(first_is_primary);
            let (t2, o2) = pick(second_is_primary);
            parse_program_at(three_operands(a, t1, b, t2, c), 0) == Ok::<Seq<StmtV>, Seq<char>>(seq![StmtV::Expr(
                Expr::BinaryOp {
                    left: Box::new(Expr::BinaryOp { left: Box::new(Expr::Number(a)), op: o1, right: Box::new(Expr::Number(b)) }),
                    op: o2,
                    right: Box::new(Expr::Number(c)),
                },
            )])
        }),
{
    let pick = |primary: bool| if products {
        if primary { (Token::Star, Operator::Star) } else { (Token::Slash, Operator::Slash) }
    } else {
        if primary { (Token::Plus, Operator::Plus) } else { (Token::Minus, Operator::Minus) }
    };
    let (t1, o1) = pick(first_is_primary);
    let (t2, o2) = pick(second_is_primary);
    let na = Expr::Number(a);
    let nb = Expr::Number(b);
    let nc = Expr::Number(c);
    let ts = three_operands(a, t1, b, t2, c);
    assert(tok(ts, 1) == t1 && tok(ts, 3) == t2 && tok(ts, 5) == Token::NewLine);
    assert(binary_operator(0, Token::NewLine) is None && binary_operator(1, Token::NewLine) is None
        && binary_operator(2, Token::NewLine) is None);
    let ab = Expr::BinaryOp { left: Box::new(na), op: o1, right: Box::new(nb) };
    let f = Expr::BinaryOp { left: Box::new(ab), op: o2, right: Box::new(nc) };
    lemma_parse_number(ts, 0, a);
    lemma_parse_number(ts, 2, b);
    lemma_parse_number(ts, 4, c);
    if products {
        lemma_parse_no_operator(ts, 5, 2, f);
        lemma_parse_operator(ts, 3, 2, ab, o2, nc, 5, f, 5);
        lemma_parse_operator(ts, 1, 2, na, o1, nb, 3, f, 5);
        lemma_parse_level(ts, 0, 2, na, 1, f, 5);
        lemma_parse_no_operator(ts, 5, 1, f);
        lemma_parse_level(ts, 0, 1, f, 5, f, 5);
    } else {
        lemma_parse_no_operator(ts, 1, 2, na);
        lemma_parse_level(ts, 0, 2, na, 1, na, 1);
        lemma_parse_no_operator(ts, 3, 2, nb);
        lemma_parse_level(ts, 2, 2, nb, 3, nb, 3);
        lemma_parse_no_operator(ts, 5, 2, nc);
        lemma_parse_level(ts, 4, 2, nc, 5, nc, 5);
        lemma_parse_no_operator(ts, 5, 1, f);
        lemma_parse_operator(ts, 3, 1, ab, o2, nc, 5, f, 5);
        lemma_parse_operator(ts, 1, 1, na, o1, nb, 3, f, 5);
        lemma_parse_level(ts, 0, 1, na, 1, f, 5);
    }
    lemma_parse_no_operator(ts, 5, 0, f);
    lemma_parse_level(ts, 0, 0, f, 5, f, 5);
    lemma_program_of_one_line(ts, f);
}

} // verus!
