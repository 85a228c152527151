//! Lexical analysis: the whole character stream becomes an ordered token
//! sequence, or the first unusable character aborts the scan.
//!
//! Digits start a maximal run forming one number; letters and `_` start a
//! maximal run of letters, digits and `_` forming one identifier; the eight
//! operator and punctuation characters map to single tokens; space and
//! newline are skipped; anything else is `InvalidCharacterError`. A number
//! run whose value does not fit the language's integer type is
//! `NumberOverflowError`.

use vstd::prelude::*;

use crate::ast::{CompileError, Token, TokenV};

verus! {

/// A decimal digit.
pub open spec fn is_digit_char(c: char) -> bool {
    '0' <= c <= '9'
}

/// A letter of an identifier.
pub open spec fn is_letter_char(c: char) -> bool {
    'a' <= c <= 'z' || 'A' <= c <= 'Z'
}

/// A character that may begin an identifier.
pub open spec fn is_identifier_start(c: char) -> bool {
    is_letter_char(c) || c == '_'
}

/// A character that may continue an identifier.
pub open spec fn is_identifier_char(c: char) -> bool {
    is_identifier_start(c) || is_digit_char(c)
}

/// Skipped without producing a token.
pub open spec fn is_whitespace_char(c: char) -> bool {
    c == ' ' || c == '\n'
}

/// The numeric value of a digit.
pub open spec fn digit_value(c: char) -> int {
    c as int - '0' as int
}

/// The value of a run of decimal digits, most significant first.
pub open spec fn digits_value(s: Seq<char>) -> int
    decreases s.len(),
{
    if s.len() == 0 {
        0
    } else {
        digits_value(s.drop_last()) * 10 + digit_value(s.last())
    }
}

/// The end of the maximal run of characters satisfying `pred` that starts
/// at `pos`.
pub open spec fn run_end(s: Seq<char>, pos: int, pred: spec_fn(char) -> bool) -> int
    decreases s.len() - pos,
{
    if 0 <= pos < s.len() && pred(s[pos]) {
        run_end(s, pos + 1, pred)
    } else {
        pos
    }
}

/// `run_end` stays within the sequence, every character of the run
/// satisfies `pred`, and the first character after the run does not.
pub proof fn lemma_run_end(s: Seq<char>, pos: int, pred: spec_fn(char) -> bool)
    requires
        0 <= pos <= s.len(),
    ensures
        pos <= run_end(s, pos, pred) <= s.len(),
        forall|i: int| pos <= i < run_end(s, pos, pred) ==> pred(s[i]),
        run_end(s, pos, pred) < s.len() ==> !pred(s[run_end(s, pos, pred)]),
    decreases s.len() - pos,
{
    if 0 <= pos < s.len() && pred(s[pos]) {
        lemma_run_end(s, pos + 1, pred);
    }
}

/// Conversely, a position bounding a `pred`-run from the right is exactly
/// where `run_end` lands.
pub proof fn lemma_run_end_is(s: Seq<char>, pos: int, q: int, pred: spec_fn(char) -> bool)
    requires
        0 <= pos <= q <= s.len(),
        forall|i: int| pos <= i < q ==> pred(s[i]),
        q < s.len() ==> !pred(s[q]),
    ensures
        run_end(s, pos, pred) == q,
    decreases s.len() - pos,
{
    if pos < q {
        lemma_run_end_is(s, pos + 1, q, pred);
    }
}

/// What tokenizing the stream from `pos` on yields: the token sequence, or
/// the error that aborts the scan.
pub open spec fn spec_tokenize_from(s: Seq<char>, pos: int) -> Result<Seq<TokenV>, CompileError>
    decreases s.len() - pos,
    via spec_tokenize_from_decreases
{
    if !(0 <= pos < s.len()) {
        Ok(Seq::empty())
    } else {
        let c = s[pos];
        if is_digit_char(c) {
            let q = run_end(s, pos, |a: char| is_digit_char(a));
            let value = digits_value(s.subrange(pos, q));
            if value > i32::MAX {
                Err(CompileError::NumberOverflowError)
            } else {
                match spec_tokenize_from(s, q) {
                    Ok(rest) => Ok(seq![TokenV::Number { value }] + rest),
                    Err(e) => Err(e),
                }
            }
        } else if is_identifier_start(c) {
            let q = run_end(s, pos, |a: char| is_identifier_char(a));
            match spec_tokenize_from(s, q) {
                Ok(rest) => Ok(seq![TokenV::Identifier { name: s.subrange(pos, q) }] + rest),
                Err(e) => Err(e),
            }
        } else if is_whitespace_char(c) {
            spec_tokenize_from(s, pos + 1)
        } else {
            let t = if c == '+' {
                Some(TokenV::Add)
            } else if c == '-' {
                Some(TokenV::Sub)
            } else if c == '*' {
                Some(TokenV::Mul)
            } else if c == '/' {
                Some(TokenV::Div)
            } else if c == '(' {
                Some(TokenV::LeftParenthesis)
            } else if c == ')' {
                Some(TokenV::RightParenthesis)
            } else if c == '=' {
                Some(TokenV::Assignment)
            } else if c == ';' {
                Some(TokenV::Semi)
            } else {
                None
            };
            match t {
                Some(tok) => match spec_tokenize_from(s, pos + 1) {
                    Ok(rest) => Ok(seq![tok] + rest),
                    Err(e) => Err(e),
                },
                None => Err(CompileError::InvalidCharacterError { found: c }),
            }
        }
    }
}

#[via_fn]
proof fn spec_tokenize_from_decreases(s: Seq<char>, pos: int) {
    if 0 <= pos < s.len() {
        let c = s[pos];
        if is_digit_char(c) {
            lemma_run_end(s, pos, |a: char| is_digit_char(a));
        } else if is_identifier_start(c) {
            lemma_run_end(s, pos, |a: char| is_identifier_char(a));
        }
    }
}

/// What tokenizing a whole character stream yields.
pub open spec fn spec_tokenize(s: Seq<char>) -> Result<Seq<TokenV>, CompileError> {
    spec_tokenize_from(s, 0)
}

/// Consume the maximal run of characters satisfying `x` starting at `pos`:
/// returns the run and the position just after it.
pub fn consume_while<F: Fn(char) -> bool>(src: &Vec<char>, pos: usize, x: F) -> (r: (
    Vec<char>,
    usize,
))
    requires
        pos <= src.len(),
        forall|c: char| #[trigger] call_requires(x, (c,)),
    ensures
        pos <= r.1 <= src.len(),
        r.0@ == src@.subrange(pos as int, r.1 as int),
        forall|i: int| pos <= i < r.1 ==> call_ensures(x, (src@[i],), true),
        r.1 < src.len() ==> call_ensures(x, (src@[r.1 as int],), false),
{
    let mut v: Vec<char> = Vec::new();
    let mut q = pos;
    loop
        invariant
            pos <= q <= src.len(),
            v@ == src@.subrange(pos as int, q as int),
            forall|i: int| pos <= i < q ==> call_ensures(x, (src@[i],), true),
            forall|c: char| #[trigger] call_requires(x, (c,)),
        decreases src.len() - q,
    {
        if q == src.len() {
            return (v, q);
        }
        let c = src[q];
        if x(c) {
            v.push(c);
            q = q + 1;
            proof {
                assert(v@ =~= src@.subrange(pos as int, q as int));
            }
        } else {
            return (v, q);
        }
    }
}

/// Each digit appended multiplies the run's value by ten and adds the digit.
proof fn lemma_digits_value_take_step(s: Seq<char>, i: int)
    requires
        0 <= i < s.len(),
    ensures
        digits_value(s.take(i + 1)) == digits_value(s.take(i)) * 10 + digit_value(s[i]),
{
    assert(s.take(i + 1).drop_last() =~= s.take(i));
    assert(s.take(i + 1).last() == s[i]);
}

/// A run of digits is worth a non-negative amount.
proof fn lemma_digits_value_nonneg(s: Seq<char>)
    requires
        forall|k: int| 0 <= k < s.len() ==> is_digit_char(#[trigger] s[k]),
    ensures
        digits_value(s) >= 0,
    decreases s.len(),
{
    if s.len() > 0 {
        lemma_digits_value_nonneg(s.drop_last());
    }
}

/// A run of digits is worth at least any of its prefixes.
proof fn lemma_digits_value_prefix_le(s: Seq<char>, i: int)
    requires
        0 <= i <= s.len(),
        forall|k: int| 0 <= k < s.len() ==> is_digit_char(#[trigger] s[k]),
    ensures
        digits_value(s.take(i)) <= digits_value(s),
    decreases s.len() - i,
{
    if i == s.len() {
        assert(s.take(i) =~= s);
    } else {
        lemma_digits_value_take_step(s, i);
        assert(forall|k: int|
            0 <= k < s.take(i as int).len() ==> is_digit_char(#[trigger] s.take(i as int)[k]));
        lemma_digits_value_nonneg(s.take(i));
        lemma_digits_value_prefix_le(s, i + 1);
    }
}

/// The value of a maximal digit run, as the language's integer type, or
/// `NumberOverflowError` if it does not fit.
fn digits_to_i32(chunk: &Vec<char>) -> (r: Result<i32, CompileError>)
    requires
        forall|k: int| 0 <= k < chunk@.len() ==> is_digit_char(#[trigger] chunk@[k]),
    ensures
        match r {
            Ok(v) => digits_value(chunk@) == v as int && digits_value(chunk@) <= i32::MAX,
            Err(e) => e == CompileError::NumberOverflowError && digits_value(chunk@) > i32::MAX,
        },
{
    let n = chunk.len();
    let mut acc: u64 = 0;
    let mut i: usize = 0;
    while i < n
        invariant
            i <= n,
            n == chunk@.len(),
            forall|k: int| 0 <= k < chunk@.len() ==> is_digit_char(#[trigger] chunk@[k]),
            acc as int == digits_value(chunk@.take(i as int)),
            acc <= i32::MAX as u64,
        decreases n - i,
    {
        let c = chunk[i];
        let d: u64 = (c as u32 as u64) - ('0' as u32 as u64);
        proof {
            lemma_digits_value_take_step(chunk@, i as int);
        }
        acc = acc * 10 + d;
        i = i + 1;
        if acc > i32::MAX as u64 {
            proof {
                lemma_digits_value_prefix_le(chunk@, i as int);
            }
            return Err(CompileError::NumberOverflowError);
        }
    }
    proof {
        assert(chunk@.take(n as int) =~= chunk@);
    }
    Ok(acc as i32)
}

/// Tokenize the whole character stream.
pub fn tokenize(src: &Vec<char>) -> (r: Result<Vec<Token>, CompileError>)
    ensures
        match r {
            Ok(ts) => spec_tokenize(src@) == Ok::<Seq<TokenV>, CompileError>(
                crate::ast::tokens_view(ts@),
            ),
            Err(e) => spec_tokenize(src@) == Err::<Seq<TokenV>, CompileError>(e),
        },
{
    let mut tokens: Vec<Token> = Vec::new();
    let mut pos: usize = 0;
    let n = src.len();
    loop
        invariant
            pos <= n,
            n == src@.len(),
            spec_tokenize(src@) == (match spec_tokenize_from(src@, pos as int) {
                Ok(rest) => Ok::<Seq<TokenV>, CompileError>(
                    crate::ast::tokens_view(tokens@) + rest,
                ),
                Err(e) => Err::<Seq<TokenV>, CompileError>(e),
            }),
        decreases n - pos,
    {
        if pos == n {
            proof {
                assert(crate::ast::tokens_view(tokens@) + Seq::<TokenV>::empty()
                    =~= crate::ast::tokens_view(tokens@));
            }
            return Ok(tokens);
        }
        let ghost prev_tokens = tokens@;
        let c = src[pos];
        let next: Token;
        if c >= '0' && c <= '9' {
            let (chunk, q) = consume_while(src, pos, |a: char| -> (b: bool)
                ensures
                    b == is_digit_char(a),
                { a >= '0' && a <= '9' });
            proof {
                lemma_run_end_is(
                    src@,
                    pos as int,
                    q as int,
                    |a: char| is_digit_char(a),
                );
            }
            match digits_to_i32(&chunk) {
                Ok(value) => {
                    next = Token::Number { value };
                    pos = q;
                },
                Err(e) => {
                    return Err(e);
                },
            }
        } else if (c >= 'a' && c <= 'z') || (c >= 'A' && c <= 'Z') || c == '_' {
            let (chunk, q) = consume_while(src, pos, |a: char| -> (b: bool)
                ensures
                    b == is_identifier_char(a),
                {
                    (a >= 'a' && a <= 'z') || (a >= 'A' && a <= 'Z') || a == '_' || (a >= '0' && a
                        <= '9')
                });
            proof {
                lemma_run_end_is(
                    src@,
                    pos as int,
                    q as int,
                    |a: char| is_identifier_char(a),
                );
            }
            let name = chars_to_string(&chunk);
            next = Token::Identifier { name };
            pos = q;
        } else if c == ' ' || c == '\n' {
            pos = pos + 1;
            continue ;
        } else if c == '+' {
            next = Token::Add;
            pos = pos + 1;
        } else if c == '-' {
            next = Token::Sub;
            pos = pos + 1;
        } else if c == '*' {
            next = Token::Mul;
            pos = pos + 1;
        } else if c == '/' {
            next = Token::Div;
            pos = pos + 1;
        } else if c == '(' {
            next = Token::LeftParenthesis;
            pos = pos + 1;
        } else if c == ')' {
            next = Token::RightParenthesis;
            pos = pos + 1;
        } else if c == '=' {
            next = Token::Assignment;
            pos = pos + 1;
        } else if c == ';' {
            next = Token::Semi;
            pos = pos + 1;
        } else {
            return Err(CompileError::InvalidCharacterError { found: c });
        }
        tokens.push(next);
        proof {
            assert(crate::ast::tokens_view(tokens@) =~= crate::ast::tokens_view(prev_tokens).push(
                next@,
            ));
            if let Ok(rest) = spec_tokenize_from(src@, pos as int) {
                assert(crate::ast::tokens_view(prev_tokens) + (seq![next@] + rest)
                    =~= crate::ast::tokens_view(tokens@) + rest);
            }
        }
    }
}

/// The collected characters of a run, as a `String`.
///
/// Relies on `String`'s `FromIterator<char>`: collecting characters yields
/// the string of exactly those characters in order.
#[verifier::external_body]
pub(crate) fn chars_to_string(chunk: &Vec<char>) -> (r: String)
    ensures
        r@ == chunk@,
{
    chunk.iter().collect()
}

} // verus!
