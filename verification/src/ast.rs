//! The data model shared by every stage of the pipeline: tokens, the
//! expression and statement trees, operand locations, instructions, and the
//! error taxonomy.
//!
//! Types that carry a `String` (tokens, expressions, statements) have a
//! ghost view with the name abstracted to a `Seq<char>`; all other types are
//! plain enough to appear in specifications directly.

use vstd::prelude::*;

verus! {

/// A binary operator of the expression language.
#[derive(Debug, Clone, Copy, PartialEq, Eq, Structural)]
pub enum Op {
    Add,
    Sub,
    Mul,
    Div,
}

/// One lexical unit of the source text.
#[derive(Debug, PartialEq, Clone)]
pub enum Token {
    Add,
    Sub,
    Mul,
    Div,
    Number { value: i32 },
    LeftParenthesis,
    RightParenthesis,
    Identifier { name: String },
    Assignment,
    Semi,
}

/// The mathematical value of a [`Token`]: identifier names become character
/// sequences, numbers become unbounded integers.
pub enum TokenV {
    Add,
    Sub,
    Mul,
    Div,
    Number { value: int },
    LeftParenthesis,
    RightParenthesis,
    Identifier { name: Seq<char> },
    Assignment,
    Semi,
}

impl View for Token {
    type V = TokenV;

    open spec fn view(&self) -> TokenV {
        match self {
            Token::Add => TokenV::Add,
            Token::Sub => TokenV::Sub,
            Token::Mul => TokenV::Mul,
            Token::Div => TokenV::Div,
            Token::Number { value } => TokenV::Number { value: *value as int },
            Token::LeftParenthesis => TokenV::LeftParenthesis,
            Token::RightParenthesis => TokenV::RightParenthesis,
            Token::Identifier { name } => TokenV::Identifier { name: name@ },
            Token::Assignment => TokenV::Assignment,
            Token::Semi => TokenV::Semi,
        }
    }
}

/// The view of a whole token sequence.
pub open spec fn tokens_view(ts: Seq<Token>) -> Seq<TokenV> {
    Seq::new(ts.len(), |i: int| ts[i]@)
}

/// An expression of the source language: a tree owning its children.
#[derive(Debug, PartialEq)]
pub enum Expr {
    Integer(i32),
    BinaryExpr(Box<Expr>, Op, Box<Expr>),
    Identifier(String),
}

/// The mathematical value of an [`Expr`].
pub enum ExprV {
    Integer(int),
    BinaryExpr(Box<ExprV>, Op, Box<ExprV>),
    Identifier(Seq<char>),
}

pub open spec fn expr_view(e: Expr) -> ExprV
    decreases e,
{
    match e {
        Expr::Integer(v) => ExprV::Integer(v as int),
        Expr::BinaryExpr(l, op, r) => ExprV::BinaryExpr(
            Box::new(expr_view(*l)),
            op,
            Box::new(expr_view(*r)),
        ),
        Expr::Identifier(name) => ExprV::Identifier(name@),
    }
}

impl View for Expr {
    type V = ExprV;

    open spec fn view(&self) -> ExprV {
        expr_view(*self)
    }
}

/// A statement of the source language: `name = expression ;`.
#[derive(Debug, PartialEq)]
pub enum Statement {
    Assignment(String, Expr),
}

/// The mathematical value of a [`Statement`].
pub enum StatementV {
    Assignment(Seq<char>, ExprV),
}

impl View for Statement {
    type V = StatementV;

    open spec fn view(&self) -> StatementV {
        match self {
            Statement::Assignment(name, e) => StatementV::Assignment(name@, e@),
        }
    }
}

/// The view of a whole statement sequence.
pub open spec fn statements_view(ss: Seq<Statement>) -> Seq<StatementV> {
    Seq::new(ss.len(), |i: int| ss[i]@)
}

/// A storage place for a value: one of the five allocatable registers
/// (index `0..5`), or a stack slot.
#[derive(Debug, Clone, Copy, PartialEq, Eq, Structural)]
pub enum Location {
    Register(usize),
    StackIndex(usize),
}

/// An instruction operand: a location holding a value, or an immediate
/// constant.
#[derive(Debug, Clone, Copy, PartialEq, Eq, Structural)]
pub enum Data {
    Loc(Location),
    Constant(i32),
}

/// One instruction of the target machine.
#[derive(Debug, Clone, Copy, PartialEq, Eq, Structural)]
pub enum Instruction {
    Add { source: Data, dest: Location },
    Mul { factor1: Data, factor2: Data },
    Move { source: Data, dest: Location },
    Push { source: Data },
}

/// The lexical class of a token, used to describe what a failing parse
/// found; `EndOfInput` stands for an exhausted token sequence.
#[derive(Debug, Clone, Copy, PartialEq, Eq, Structural)]
pub enum TokenKind {
    Add,
    Sub,
    Mul,
    Div,
    Number,
    LeftParenthesis,
    RightParenthesis,
    Identifier,
    Assignment,
    Semi,
    EndOfInput,
}

/// What the parser was looking for when it failed; `Factor` stands for any
/// of the tokens that may begin a factor.
#[derive(Debug, Clone, Copy, PartialEq, Eq, Structural)]
pub enum ExpectedToken {
    Identifier,
    Assignment,
    Semi,
    RightParenthesis,
    Factor,
}

/// Every failure the pipeline can report. All are fatal: the first one
/// aborts the remaining stages.
#[allow(inconsistent_fields)]
#[derive(Debug, Clone, Copy, PartialEq, Eq, Structural)]
pub enum CompileError {
    /// The tokenizer met a character that starts no token.
    InvalidCharacterError { found: char },
    /// A number literal does not fit the integer type of the language.
    NumberOverflowError,
    /// The parser met the wrong token, or ran out of tokens.
    UnexpectedTokenError { expected: ExpectedToken, found: TokenKind },
    /// An expression referenced an identifier with no symbol-table entry.
    UnknownIdentifierError,
    /// An expression needed more than the five available registers.
    OutOfRegistersError,
    /// A register was released that was not held.
    DoubleFreeError,
    /// An operator the code generator does not support (division, and the
    /// never-parsed subtraction) reached code generation.
    UnsupportedOperationError,
}

/// The lexical class of a token value.
pub open spec fn token_kind(t: TokenV) -> TokenKind {
    match t {
        TokenV::Add => TokenKind::Add,
        TokenV::Sub => TokenKind::Sub,
        TokenV::Mul => TokenKind::Mul,
        TokenV::Div => TokenKind::Div,
        TokenV::Number { .. } => TokenKind::Number,
        TokenV::LeftParenthesis => TokenKind::LeftParenthesis,
        TokenV::RightParenthesis => TokenKind::RightParenthesis,
        TokenV::Identifier { .. } => TokenKind::Identifier,
        TokenV::Assignment => TokenKind::Assignment,
        TokenV::Semi => TokenKind::Semi,
    }
}

/// The lexical class of the token at `pos`, or `EndOfInput` past the end.
pub open spec fn token_kind_at(ts: Seq<TokenV>, pos: int) -> TokenKind {
    if 0 <= pos < ts.len() {
        token_kind(ts[pos])
    } else {
        TokenKind::EndOfInput
    }
}

} // verus!
