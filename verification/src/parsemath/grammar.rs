//! The grammar of arithmetic expressions, as functions on token sequences.
//!
//! From the loosest level to the tightest:
//!
//! ```text
//! expr    := term  { ('+' | '-') term }        groups to the left
//! term    := power { ('*' | '/') power }       groups to the left
//! power   := unary [ '^' power ]               groups to the right
//! unary   := '-' unary | primary
//! primary := number | '(' expr ')'
//! ```
//!
//! Each function takes the tokens and the position to start at, and gives the
//! tree it reads together with the position behind it, or the error.  A
//! position at or behind the end of the tokens reads as `EOF`.
use vstd::prelude::*;
use crate::parsemath::ast::{ExprView, Operator};
use crate::parsemath::error::SyntaxError;
use crate::parsemath::token::TokenView;

verus! {

/// What a grammar function gives: a tree and the position behind it.
pub type Parsed = Result<(ExprView, int), SyntaxError>;

/// The token at `pos`; `EOF` where the tokens have run out.
pub open spec fn peek(ts: Seq<TokenView>, pos: int) -> TokenView {
    if 0 <= pos < ts.len() {
        ts[pos]
    } else {
        TokenView::EOF
    }
}

/// The operator of the `expr` level that `t` stands for.
pub open spec fn additive(t: TokenView) -> Option<Operator> {
    match t {
        TokenView::Add => Some(Operator::Add),
        TokenView::Subtract => Some(Operator::Subtract),
        _ => None,
    }
}

/// The operator of the `term` level that `t` stands for.
pub open spec fn multiplicative(t: TokenView) -> Option<Operator> {
    match t {
        TokenView::Multiply => Some(Operator::Multiply),
        TokenView::Divide => Some(Operator::Divide),
        _ => None,
    }
}

/// The node for `left op right`.
pub open spec fn binary(op: Operator, left: ExprView, right: ExprView) -> ExprView {
    ExprView::BinaryOp(op, Box::new(left), Box::new(right))
}

/// The node for `-operand`.
pub open spec fn negated(operand: ExprView) -> ExprView {
    ExprView::UnaryMinus(Box::new(operand))
}

/// `primary := number | '(' expr ')'`
pub open spec fn parse_primary(ts: Seq<TokenView>, pos: int) -> Parsed
    decreases ts.len() - pos, 0int,
{
    match peek(ts, pos) {
        TokenView::Num(text) => Ok((ExprView::Number(text), pos + 1)),
        TokenView::LeftParen => match parse_expr(ts, pos + 1) {
            Ok((inner, close)) => match peek(ts, close) {
                TokenView::RightParen => Ok((inner, close + 1)),
                TokenView::EOF => Err(SyntaxError::UnterminatedGroup),
                _ => Err(SyntaxError::UnexpectedToken),
            },
            Err(e) => Err(e),
        },
        TokenView::EOF => Err(SyntaxError::ExpectedExpression),
        _ => Err(SyntaxError::UnexpectedToken),
    }
}

/// `unary := '-' unary | primary`
pub open spec fn parse_unary(ts: Seq<TokenView>, pos: int) -> Parsed
    decreases ts.len() - pos, 1int,
{
    if peek(ts, pos) is Subtract {
        match parse_unary(ts, pos + 1) {
            Ok((operand, next)) => Ok((negated(operand), next)),
            Err(e) => Err(e),
        }
    } else {
        parse_primary(ts, pos)
    }
}

/// `power := unary [ '^' power ]`
///
/// The test on `next` is there for the definition to be well founded; it
/// never fails, by [`lemma_parse_advances`].
pub open spec fn parse_power(ts: Seq<TokenView>, pos: int) -> Parsed
    decreases ts.len() - pos, 2int,
{
    match parse_unary(ts, pos) {
        Ok((base, next)) => if peek(ts, next) is Caret && next >= pos {
            match parse_power(ts, next + 1) {
                Ok((exponent, end)) => Ok((binary(Operator::Caret, base, exponent), end)),
                Err(e) => Err(e),
            }
        } else {
            Ok((base, next))
        },
        Err(e) => Err(e),
    }
}

/// What follows the first operand of a `term`: `{ ('*' | '/') power }`, with
/// `left` the tree read so far.
///
/// The test on `next` is there for the definition to be well founded; it
/// never fails, by [`lemma_parse_advances`].
pub open spec fn term_tail(ts: Seq<TokenView>, pos: int, left: ExprView) -> Parsed
    decreases ts.len() - pos, 3int,
{
    match multiplicative(peek(ts, pos)) {
        Some(op) => match parse_power(ts, pos + 1) {
            Ok((right, next)) => if pos < next <= ts.len() {
                term_tail(ts, next, binary(op, left, right))
            } else {
                Err(SyntaxError::UnexpectedToken)
            },
            Err(e) => Err(e),
        },
        None => Ok((left, pos)),
    }
}

/// `term := power { ('*' | '/') power }`
///
/// The test on `next` is there for the definition to be well founded; it
/// never fails, by [`lemma_parse_advances`].
pub open spec fn parse_term(ts: Seq<TokenView>, pos: int) -> Parsed
    decreases ts.len() - pos, 4int,
{
    match parse_power(ts, pos) {
        Ok((first, next)) => if pos < next <= ts.len() {
            term_tail(ts, next, first)
        } else {
            Err(SyntaxError::UnexpectedToken)
        },
        Err(e) => Err(e),
    }
}

/// What follows the first operand of an `expr`: `{ ('+' | '-') term }`, with
/// `left` the tree read so far.
///
/// The test on `next` is there for the definition to be well founded; it
/// never fails, by [`lemma_parse_advances`].
pub open spec fn expr_tail(ts: Seq<TokenView>, pos: int, left: ExprView) -> Parsed
    decreases ts.len() - pos, 5int,
{
    match additive(peek(ts, pos)) {
        Some(op) => match parse_term(ts, pos + 1) {
            Ok((right, next)) => if pos < next <= ts.len() {
                expr_tail(ts, next, binary(op, left, right))
            } else {
                Err(SyntaxError::UnexpectedToken)
            },
            Err(e) => Err(e),
        },
        None => Ok((left, pos)),
    }
}

/// `expr := term { ('+' | '-') term }`
///
/// The test on `next` is there for the definition to be well founded; it
/// never fails, by [`lemma_parse_advances`].
pub open spec fn parse_expr(ts: Seq<TokenView>, pos: int) -> Parsed
    decreases ts.len() - pos, 6int,
{
    match parse_term(ts, pos) {
        Ok((first, next)) => if pos < next <= ts.len() {
            expr_tail(ts, next, first)
        } else {
            Err(SyntaxError::UnexpectedToken)
        },
        Err(e) => Err(e),
    }
}

/// The tree of a whole token sequence: one expression from the start, with
/// `EOF` right behind it.
pub open spec fn parse_tokens(ts: Seq<TokenView>) -> Result<ExprView, SyntaxError> {
    parse_from(ts, 0)
}

/// One expression from `pos` on, with `EOF` right behind it.
pub open spec fn parse_from(ts: Seq<TokenView>, pos: int) -> Result<ExprView, SyntaxError> {
    match parse_expr(ts, pos) {
        Ok((tree, end)) => if peek(ts, end) is EOF {
            Ok(tree)
        } else {
            Err(SyntaxError::UnexpectedToken)
        },
        Err(e) => Err(e),
    }
}

/// `r`, if it is a tree, ends behind `pos` and within the tokens.
pub open spec fn advances(ts: Seq<TokenView>, pos: int, r: Parsed) -> bool {
    r matches Ok((_, end)) ==> pos < end <= ts.len()
}

/// `r`, if it is a tree, ends at or behind `pos` and within the tokens.
pub open spec fn holds_ground(ts: Seq<TokenView>, pos: int, r: Parsed) -> bool {
    r matches Ok((_, end)) ==> pos <= end <= ts.len()
}

/// Every grammar function that reads an operand consumes at least one token
/// and never reads past the end.
pub proof fn lemma_parse_advances(ts: Seq<TokenView>, pos: int)
    requires
        0 <= pos,
    ensures
        advances(ts, pos, parse_primary(ts, pos)),
        advances(ts, pos, parse_unary(ts, pos)),
        advances(ts, pos, parse_power(ts, pos)),
        advances(ts, pos, parse_term(ts, pos)),
        advances(ts, pos, parse_expr(ts, pos)),
    decreases ts.len() - pos, 6int,
{
    lemma_term_advances(ts, pos);
    if let Ok((first, next)) = parse_term(ts, pos) {
        lemma_expr_tail_holds(ts, next, first);
    }
}

proof fn lemma_primary_advances(ts: Seq<TokenView>, pos: int)
    requires
        0 <= pos,
    ensures
        advances(ts, pos, parse_primary(ts, pos)),
    decreases ts.len() - pos, 0int,
{
    if peek(ts, pos) is LeftParen {
        lemma_parse_advances(ts, pos + 1);
    }
}

proof fn lemma_unary_advances(ts: Seq<TokenView>, pos: int)
    requires
        0 <= pos,
    ensures
        advances(ts, pos, parse_primary(ts, pos)),
        advances(ts, pos, parse_unary(ts, pos)),
    decreases ts.len() - pos, 1int,
{
    lemma_primary_advances(ts, pos);
    if peek(ts, pos) is Subtract {
        lemma_unary_advances(ts, pos + 1);
    }
}

proof fn lemma_power_advances(ts: Seq<TokenView>, pos: int)
    requires
        0 <= pos,
    ensures
        advances(ts, pos, parse_primary(ts, pos)),
        advances(ts, pos, parse_unary(ts, pos)),
        advances(ts, pos, parse_power(ts, pos)),
    decreases ts.len() - pos, 2int,
{
    lemma_unary_advances(ts, pos);
    if let Ok((base, next)) = parse_unary(ts, pos) {
        if peek(ts, next) is Caret {
            lemma_power_advances(ts, next + 1);
        }
    }
}

proof fn lemma_term_tail_holds(ts: Seq<TokenView>, pos: int, left: ExprView)
    requires
        0 <= pos <= ts.len(),
    ensures
        holds_ground(ts, pos, term_tail(ts, pos, left)),
    decreases ts.len() - pos, 3int,
{
    if let Some(op) = multiplicative(peek(ts, pos)) {
        lemma_power_advances(ts, pos + 1);
        if let Ok((right, next)) = parse_power(ts, pos + 1) {
            lemma_term_tail_holds(ts, next, binary(op, left, right));
        }
    }
}

proof fn lemma_term_advances(ts: Seq<TokenView>, pos: int)
    requires
        0 <= pos,
    ensures
        advances(ts, pos, parse_primary(ts, pos)),
        advances(ts, pos, parse_unary(ts, pos)),
        advances(ts, pos, parse_power(ts, pos)),
        advances(ts, pos, parse_term(ts, pos)),
    decreases ts.len() - pos, 4int,
{
    lemma_power_advances(ts, pos);
    if let Ok((first, next)) = parse_power(ts, pos) {
        lemma_term_tail_holds(ts, next, first);
    }
}

proof fn lemma_expr_tail_holds(ts: Seq<TokenView>, pos: int, left: ExprView)
    requires
        0 <= pos <= ts.len(),
    ensures
        holds_ground(ts, pos, expr_tail(ts, pos, left)),
    decreases ts.len() - pos, 5int,
{
    if let Some(op) = additive(peek(ts, pos)) {
        lemma_term_advances(ts, pos + 1);
        if let Ok((right, next)) = parse_term(ts, pos + 1) {
            lemma_expr_tail_holds(ts, next, binary(op, left, right));
        }
    }
}

} // verus!
