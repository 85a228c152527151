//! Recursive-descent parsing: the token sequence becomes an ordered
//! sequence of statements, read left to right with one-token lookahead.
//!
//! Grammar, precedence low to high (`+` and `*`/`/` fold left, giving
//! left-associative trees; parentheses recurse into a full expression):
//!
//! ```text
//! program    := statement+
//! statement  := Identifier Assignment expr Semi
//! expr       := term ( Add term )*
//! term       := factor ( (Mul|Div) factor )*
//! factor     := Number | Identifier | LeftParenthesis expr RightParenthesis
//! ```
//!
//! The `expr` production continues only on `Add`; a `Sub` token therefore
//! stops the expression, as the grammar intends, and is reported
//! as the unexpected token of whatever production demanded the next
//! terminal. Any mismatch, including running out of tokens, is
//! `UnexpectedTokenError`; nothing is recovered.

use vstd::prelude::*;

use crate::ast::{
    token_kind, token_kind_at, tokens_view, statements_view, CompileError, ExpectedToken, Expr,
    ExprV, Statement, StatementV, Token, TokenKind, TokenV, Op,
};

verus! {

/// `q` clamped into `[lo, hi]`. Every parsing function below consumes at
/// least one token and stays inside the sequence, so the positions fed back
/// into recursive calls are always left unchanged by this clamp; it only
/// makes the recursion's termination measure self-evident.
pub open spec fn clipped(q: int, lo: int, hi: int) -> int {
    if q < lo {
        lo
    } else if q > hi {
        hi
    } else {
        q
    }
}

/// What parsing a factor at `pos` yields: the expression and the position
/// just after it, or the aborting error.
pub open spec fn spec_parse_factor(t: Seq<TokenV>, pos: int) -> Result<
    (ExprV, int),
    CompileError,
>
    decreases t.len() - pos, 0int,
{
    if !(0 <= pos < t.len()) {
        Err(
            CompileError::UnexpectedTokenError {
                expected: ExpectedToken::Factor,
                found: TokenKind::EndOfInput,
            },
        )
    } else {
        match t[pos] {
            TokenV::Identifier { name } => Ok((ExprV::Identifier(name), pos + 1)),
            TokenV::Number { value } => Ok((ExprV::Integer(value), pos + 1)),
            TokenV::LeftParenthesis => match spec_parse_expr(t, pos + 1) {
                Ok((e, q)) => if 0 <= q < t.len() && t[q] is RightParenthesis {
                    Ok((e, q + 1))
                } else {
                    Err(
                        CompileError::UnexpectedTokenError {
                            expected: ExpectedToken::RightParenthesis,
                            found: token_kind_at(t, q),
                        },
                    )
                },
                Err(e) => Err(e),
            },
            _ => Err(
                CompileError::UnexpectedTokenError {
                    expected: ExpectedToken::Factor,
                    found: token_kind(t[pos]),
                },
            ),
        }
    }
}

/// Fold further `Mul`/`Div` factors onto `acc`, left-associatively.
pub open spec fn spec_parse_term_more(t: Seq<TokenV>, pos: int, acc: ExprV) -> Result<
    (ExprV, int),
    CompileError,
>
    decreases t.len() - pos, 1int,
{
    if !(0 <= pos < t.len()) {
        Ok((acc, pos))
    } else if t[pos] is Mul || t[pos] is Div {
        let op = if t[pos] is Mul {
            Op::Mul
        } else {
            Op::Div
        };
        match spec_parse_factor(t, pos + 1) {
            Ok((e2, q)) => spec_parse_term_more(
                t,
                clipped(q, pos + 1, t.len() as int),
                ExprV::BinaryExpr(Box::new(acc), op, Box::new(e2)),
            ),
            Err(e) => Err(e),
        }
    } else {
        Ok((acc, pos))
    }
}

/// What parsing a term at `pos` yields.
pub open spec fn spec_parse_term(t: Seq<TokenV>, pos: int) -> Result<(ExprV, int), CompileError>
    decreases t.len() - pos, 2int,
{
    if !(0 <= pos < t.len()) {
        Err(
            CompileError::UnexpectedTokenError {
                expected: ExpectedToken::Factor,
                found: TokenKind::EndOfInput,
            },
        )
    } else {
        match spec_parse_factor(t, pos) {
            Ok((e1, q1)) => spec_parse_term_more(t, clipped(q1, pos + 1, t.len() as int), e1),
            Err(e) => Err(e),
        }
    }
}

/// Fold further `Add` terms onto `acc`, left-associatively.
pub open spec fn spec_parse_expr_more(t: Seq<TokenV>, pos: int, acc: ExprV) -> Result<
    (ExprV, int),
    CompileError,
>
    decreases t.len() - pos, 1int,
{
    if !(0 <= pos < t.len()) {
        Ok((acc, pos))
    } else if t[pos] is Add {
        match spec_parse_term(t, pos + 1) {
            Ok((e2, q)) => spec_parse_expr_more(
                t,
                clipped(q, pos + 1, t.len() as int),
                ExprV::BinaryExpr(Box::new(acc), Op::Add, Box::new(e2)),
            ),
            Err(e) => Err(e),
        }
    } else {
        Ok((acc, pos))
    }
}

/// What parsing an expression at `pos` yields.
pub open spec fn spec_parse_expr(t: Seq<TokenV>, pos: int) -> Result<(ExprV, int), CompileError>
    decreases t.len() - pos, 3int,
{
    if !(0 <= pos < t.len()) {
        Err(
            CompileError::UnexpectedTokenError {
                expected: ExpectedToken::Factor,
                found: TokenKind::EndOfInput,
            },
        )
    } else {
        match spec_parse_term(t, pos) {
            Ok((e1, q1)) => spec_parse_expr_more(t, clipped(q1, pos + 1, t.len() as int), e1),
            Err(e) => Err(e),
        }
    }
}

/// What parsing one `Identifier Assignment expr Semi` statement at `pos`
/// yields.
pub open spec fn spec_parse_statement(t: Seq<TokenV>, pos: int) -> Result<
    (StatementV, int),
    CompileError,
>
    decreases t.len() - pos, 4int,
{
    if !(0 <= pos < t.len()) {
        Err(
            CompileError::UnexpectedTokenError {
                expected: ExpectedToken::Identifier,
                found: TokenKind::EndOfInput,
            },
        )
    } else {
        match t[pos] {
            TokenV::Identifier { name } => if !(pos + 1 < t.len() && t[pos + 1] is Assignment) {
                Err(
                    CompileError::UnexpectedTokenError {
                        expected: ExpectedToken::Assignment,
                        found: token_kind_at(t, pos + 1),
                    },
                )
            } else {
                match spec_parse_expr(t, pos + 2) {
                    Ok((e, q)) => if 0 <= q < t.len() && t[q] is Semi {
                        Ok((StatementV::Assignment(name, e), q + 1))
                    } else {
                        Err(
                            CompileError::UnexpectedTokenError {
                                expected: ExpectedToken::Semi,
                                found: token_kind_at(t, q),
                            },
                        )
                    },
                    Err(e) => Err(e),
                }
            },
            _ => Err(
                CompileError::UnexpectedTokenError {
                    expected: ExpectedToken::Identifier,
                    found: token_kind(t[pos]),
                },
            ),
        }
    }
}

/// What parsing a whole program at `pos` yields: one statement after
/// another until the tokens are exhausted; an empty sequence is no program.
pub open spec fn spec_parse_program(t: Seq<TokenV>, pos: int) -> Result<
    Seq<StatementV>,
    CompileError,
>
    decreases t.len() - pos, 5int,
{
    if !(0 <= pos < t.len()) {
        Err(
            CompileError::UnexpectedTokenError {
                expected: ExpectedToken::Identifier,
                found: TokenKind::EndOfInput,
            },
        )
    } else {
        match spec_parse_statement(t, pos) {
            Ok((st, q)) => if q >= t.len() {
                Ok(seq![st])
            } else {
                match spec_parse_program(t, clipped(q, pos + 1, t.len() as int)) {
                    Ok(rest) => Ok(seq![st] + rest),
                    Err(e) => Err(e),
                }
            },
            Err(e) => Err(e),
        }
    }
}

/// The lexical class of one token.
fn token_kind_of(t: &Token) -> (r: TokenKind)
    ensures
        r == token_kind(t@),
{
    match t {
        Token::Add => TokenKind::Add,
        Token::Sub => TokenKind::Sub,
        Token::Mul => TokenKind::Mul,
        Token::Div => TokenKind::Div,
        Token::Number { .. } => TokenKind::Number,
        Token::LeftParenthesis => TokenKind::LeftParenthesis,
        Token::RightParenthesis => TokenKind::RightParenthesis,
        Token::Identifier { .. } => TokenKind::Identifier,
        Token::Assignment => TokenKind::Assignment,
        Token::Semi => TokenKind::Semi,
    }
}

/// The lexical class found at `pos`, or `EndOfInput` past the end.
fn found_at(tokens: &Vec<Token>, pos: usize) -> (r: TokenKind)
    ensures
        r == token_kind_at(tokens_view(tokens@), pos as int),
{
    if pos < tokens.len() {
        token_kind_of(&tokens[pos])
    } else {
        TokenKind::EndOfInput
    }
}

/// Parse one factor: a number, an identifier, or a parenthesized
/// expression.
pub fn parse_factor(tokens: &Vec<Token>, pos: usize) -> (r: Result<(Expr, usize), CompileError>)
    requires
        pos <= tokens@.len(),
    ensures
        match r {
            Ok((e, q)) => pos < q <= tokens@.len() && spec_parse_factor(
                tokens_view(tokens@),
                pos as int,
            ) == Ok::<(ExprV, int), CompileError>((e@, q as int)),
            Err(er) => spec_parse_factor(tokens_view(tokens@), pos as int) == Err::<
                (ExprV, int),
                CompileError,
            >(er),
        },
    decreases tokens@.len() - pos, 0int,
{
    if pos >= tokens.len() {
        return Err(
            CompileError::UnexpectedTokenError {
                expected: ExpectedToken::Factor,
                found: TokenKind::EndOfInput,
            },
        );
    }
    match &tokens[pos] {
        Token::Identifier { name } => Ok((Expr::Identifier(name.clone()), pos + 1)),
        Token::Number { value } => Ok((Expr::Integer(*value), pos + 1)),
        Token::LeftParenthesis => {
            match parse_expr(tokens, pos + 1) {
                Ok((e, q)) => {
                    if q < tokens.len() {
                        match &tokens[q] {
                            Token::RightParenthesis => Ok((e, q + 1)),
                            _ => Err(
                                CompileError::UnexpectedTokenError {
                                    expected: ExpectedToken::RightParenthesis,
                                    found: token_kind_of(&tokens[q]),
                                },
                            ),
                        }
                    } else {
                        Err(
                            CompileError::UnexpectedTokenError {
                                expected: ExpectedToken::RightParenthesis,
                                found: TokenKind::EndOfInput,
                            },
                        )
                    }
                },
                Err(e) => Err(e),
            }
        },
        _ => Err(
            CompileError::UnexpectedTokenError {
                expected: ExpectedToken::Factor,
                found: token_kind_of(&tokens[pos]),
            },
        ),
    }
}

/// Fold further `Mul`/`Div` factors onto `acc`.
fn parse_term_more(tokens: &Vec<Token>, pos: usize, acc: Expr) -> (r: Result<
    (Expr, usize),
    CompileError,
>)
    requires
        pos <= tokens@.len(),
    ensures
        match r {
            Ok((e, q)) => pos <= q <= tokens@.len() && spec_parse_term_more(
                tokens_view(tokens@),
                pos as int,
                acc@,
            ) == Ok::<(ExprV, int), CompileError>((e@, q as int)),
            Err(er) => spec_parse_term_more(tokens_view(tokens@), pos as int, acc@) == Err::<
                (ExprV, int),
                CompileError,
            >(er),
        },
    decreases tokens@.len() - pos, 1int,
{
    if pos >= tokens.len() {
        return Ok((acc, pos));
    }
    let is_mul = matches!(&tokens[pos], Token::Mul);
    let is_div = matches!(&tokens[pos], Token::Div);
    if is_mul || is_div {
        let op = if is_mul {
            Op::Mul
        } else {
            Op::Div
        };
        match parse_factor(tokens, pos + 1) {
            Ok((e2, q)) => parse_term_more(
                tokens,
                q,
                Expr::BinaryExpr(Box::new(acc), op, Box::new(e2)),
            ),
            Err(e) => Err(e),
        }
    } else {
        Ok((acc, pos))
    }
}

/// Parse one term: a factor possibly folded with `*` or `/` factors.
pub fn parse_term(tokens: &Vec<Token>, pos: usize) -> (r: Result<(Expr, usize), CompileError>)
    requires
        pos <= tokens@.len(),
    ensures
        match r {
            Ok((e, q)) => pos < q <= tokens@.len() && spec_parse_term(
                tokens_view(tokens@),
                pos as int,
            ) == Ok::<(ExprV, int), CompileError>((e@, q as int)),
            Err(er) => spec_parse_term(tokens_view(tokens@), pos as int) == Err::<
                (ExprV, int),
                CompileError,
            >(er),
        },
    decreases tokens@.len() - pos, 2int,
{
    match parse_factor(tokens, pos) {
        Ok((e1, q1)) => parse_term_more(tokens, q1, e1),
        Err(e) => Err(e),
    }
}

/// Fold further `Add` terms onto `acc`.
fn parse_expr_more(tokens: &Vec<Token>, pos: usize, acc: Expr) -> (r: Result<
    (Expr, usize),
    CompileError,
>)
    requires
        pos <= tokens@.len(),
    ensures
        match r {
            Ok((e, q)) => pos <= q <= tokens@.len() && spec_parse_expr_more(
                tokens_view(tokens@),
                pos as int,
                acc@,
            ) == Ok::<(ExprV, int), CompileError>((e@, q as int)),
            Err(er) => spec_parse_expr_more(tokens_view(tokens@), pos as int, acc@) == Err::<
                (ExprV, int),
                CompileError,
            >(er),
        },
    decreases tokens@.len() - pos, 1int,
{
    if pos >= tokens.len() {
        return Ok((acc, pos));
    }
    let is_add = matches!(&tokens[pos], Token::Add);
    if is_add {
        match parse_term(tokens, pos + 1) {
            Ok((e2, q)) => parse_expr_more(
                tokens,
                q,
                Expr::BinaryExpr(Box::new(acc), Op::Add, Box::new(e2)),
            ),
            Err(e) => Err(e),
        }
    } else {
        Ok((acc, pos))
    }
}

/// Parse one expression: a term possibly folded with `+` terms.
pub fn parse_expr(tokens: &Vec<Token>, pos: usize) -> (r: Result<(Expr, usize), CompileError>)
    requires
        pos <= tokens@.len(),
    ensures
        match r {
            Ok((e, q)) => pos < q <= tokens@.len() && spec_parse_expr(
                tokens_view(tokens@),
                pos as int,
            ) == Ok::<(ExprV, int), CompileError>((e@, q as int)),
            Err(er) => spec_parse_expr(tokens_view(tokens@), pos as int) == Err::<
                (ExprV, int),
                CompileError,
            >(er),
        },
    decreases tokens@.len() - pos, 3int,
{
    match parse_term(tokens, pos) {
        Ok((e1, q1)) => parse_expr_more(tokens, q1, e1),
        Err(e) => Err(e),
    }
}

/// Parse one `Identifier Assignment expr Semi` statement.
fn parse_statement(tokens: &Vec<Token>, pos: usize) -> (r: Result<
    (Statement, usize),
    CompileError,
>)
    requires
        pos <= tokens@.len(),
    ensures
        match r {
            Ok((st, q)) => pos < q <= tokens@.len() && spec_parse_statement(
                tokens_view(tokens@),
                pos as int,
            ) == Ok::<(StatementV, int), CompileError>((st@, q as int)),
            Err(er) => spec_parse_statement(tokens_view(tokens@), pos as int) == Err::<
                (StatementV, int),
                CompileError,
            >(er),
        },
{
    if pos >= tokens.len() {
        return Err(
            CompileError::UnexpectedTokenError {
                expected: ExpectedToken::Identifier,
                found: TokenKind::EndOfInput,
            },
        );
    }
    let name: String = match &tokens[pos] {
        Token::Identifier { name } => name.clone(),
        _ => {
            return Err(
                CompileError::UnexpectedTokenError {
                    expected: ExpectedToken::Identifier,
                    found: token_kind_of(&tokens[pos]),
                },
            );
        },
    };
    let has_assign = pos + 1 < tokens.len() && matches!(&tokens[pos + 1], Token::Assignment);
    if !has_assign {
        return Err(
            CompileError::UnexpectedTokenError {
                expected: ExpectedToken::Assignment,
                found: found_at(tokens, pos + 1),
            },
        );
    }
    match parse_expr(tokens, pos + 2) {
        Ok((e, q)) => {
            if q < tokens.len() && matches!(&tokens[q], Token::Semi) {
                Ok((Statement::Assignment(name, e), q + 1))
            } else {
                Err(
                    CompileError::UnexpectedTokenError {
                        expected: ExpectedToken::Semi,
                        found: found_at(tokens, q),
                    },
                )
            }
        },
        Err(e) => Err(e),
    }
}

/// Parse a whole program: one statement after another until the tokens are
/// exhausted.
pub fn parse(tokens: &Vec<Token>) -> (r: Result<Vec<Statement>, CompileError>)
    ensures
        match r {
            Ok(ss) => spec_parse_program(tokens_view(tokens@), 0) == Ok::<
                Seq<StatementV>,
                CompileError,
            >(statements_view(ss@)),
            Err(er) => spec_parse_program(tokens_view(tokens@), 0) == Err::<
                Seq<StatementV>,
                CompileError,
            >(er),
        },
{
    let ghost t = tokens_view(tokens@);
    let mut statements: Vec<Statement> = Vec::new();
    let mut pos: usize = 0;
    let n = tokens.len();
    loop
        invariant
            pos <= n,
            n == tokens@.len(),
            t == tokens_view(tokens@),
            spec_parse_program(t, 0) == (match spec_parse_program(t, pos as int) {
                Ok(rest) => Ok::<Seq<StatementV>, CompileError>(statements_view(statements@) + rest),
                Err(e) => Err::<Seq<StatementV>, CompileError>(e),
            }),
        decreases n - pos,
    {
        let ghost prev = statements@;
        match parse_statement(tokens, pos) {
            Err(e) => {
                return Err(e);
            },
            Ok((st, q)) => {
                statements.push(st);
                proof {
                    assert(statements_view(statements@) =~= statements_view(prev).push(st@));
                    if q >= n {
                        assert(statements_view(prev) + seq![st@] =~= statements_view(
                            statements@,
                        ));
                    } else {
                        assert(clipped(q as int, pos + 1, t.len() as int) == q as int);
                        if let Ok(rest) = spec_parse_program(t, q as int) {
                            assert(statements_view(prev) + (seq![st@] + rest) =~= statements_view(
                                statements@,
                            ) + rest);
                        }
                    }
                }
                if q >= n {
                    return Ok(statements);
                }
                pos = q;
            },
        }
    }
}

} // verus!
