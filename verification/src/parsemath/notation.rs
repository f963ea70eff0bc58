//! The ways of writing an expression down, and the proof that the grammar
//! reads each of them back as the tree that was written.
//!
//! A [`Written`] value is an expression together with the parentheses that
//! its author chose to put.  Parentheses may stand around anything; they must
//! stand where an operand binds more loosely than its place allows, as in
//! `(1+2)*3`.  Two writings of one tree, however they differ in parentheses,
//! are read as that same tree.
use vstd::prelude::*;
use crate::parsemath::ast::{ExprView, Operator};
use crate::parsemath::error::SyntaxError;
use crate::parsemath::evaluation::{Arithmetic, value};
use crate::parsemath::grammar::{
    Parsed, additive, binary, expr_tail, multiplicative, negated, parse_expr, parse_power,
    parse_primary, parse_term, parse_tokens, parse_unary, peek, term_tail,
};
use crate::parsemath::token::TokenView;

verus! {

/// An expression as it is written: the tree, and where parentheses stand.
pub enum Written {
    /// A number.
    Number(Seq<char>),
    /// `left op right`.
    Binary(Operator, Box<Written>, Box<Written>),
    /// `-operand`.
    Minus(Box<Written>),
    /// `(inner)`.
    Group(Box<Written>),
}

/// The token that stands for `op`.
pub open spec fn operator_token(op: Operator) -> TokenView {
    match op {
        Operator::Add => TokenView::Add,
        Operator::Subtract => TokenView::Subtract,
        Operator::Multiply => TokenView::Multiply,
        Operator::Divide => TokenView::Divide,
        Operator::Caret => TokenView::Caret,
    }
}

/// How tightly `op` binds: `+` and `-` at 0, `*` and `/` at 1, `^` at 2.
pub open spec fn operator_level(op: Operator) -> nat {
    match op {
        Operator::Add | Operator::Subtract => 0,
        Operator::Multiply | Operator::Divide => 1,
        Operator::Caret => 2,
    }
}

impl Written {
    /// The tree that is written: the parentheses are dropped.
    pub open spec fn tree(self) -> ExprView
        decreases self,
    {
        match self {
            Written::Number(text) => ExprView::Number(text),
            Written::Binary(op, left, right) => binary(op, left.tree(), right.tree()),
            Written::Minus(operand) => negated(operand.tree()),
            Written::Group(inner) => inner.tree(),
        }
    }

    /// The tokens of the writing, from left to right.
    pub open spec fn tokens(self) -> Seq<TokenView>
        decreases self,
    {
        match self {
            Written::Number(text) => seq![TokenView::Num(text)],
            Written::Binary(op, left, right) => left.tokens() + seq![operator_token(op)]
                + right.tokens(),
            Written::Minus(operand) => seq![TokenView::Subtract] + operand.tokens(),
            Written::Group(inner) => seq![TokenView::LeftParen] + inner.tokens()
                + seq![TokenView::RightParen],
        }
    }

    /// How tightly the outermost construct binds: a binary operator at its
    /// own level, a unary minus at 3, a number or a group at 4.
    pub open spec fn level(self) -> nat {
        match self {
            Written::Number(_) => 4,
            Written::Binary(op, _, _) => operator_level(op),
            Written::Minus(_) => 3,
            Written::Group(_) => 4,
        }
    }

    /// Every operand binds tightly enough for its place.
    ///
    /// Left of `+ - * /` stands what binds at least as tightly as the
    /// operator, right of them what binds more tightly.  The base of `^` and
    /// the operand of a unary minus bind at least as tightly as a unary
    /// minus, the exponent at least as tightly as `^`.
    pub open spec fn well_written(self) -> bool
        decreases self,
    {
        match self {
            Written::Number(_) => true,
            Written::Binary(op, left, right) => {
                &&& left.well_written()
                &&& right.well_written()
                &&& if op == Operator::Caret {
                    left.level() >= 3 && right.level() >= 2
                } else {
                    left.level() >= operator_level(op) && right.level() > operator_level(op)
                }
            },
            Written::Minus(operand) => operand.well_written() && operand.level() >= 3,
            Written::Group(inner) => inner.well_written(),
        }
    }
}

/// The writing of `tree` with parentheses around every operand that is not
/// a number.
pub open spec fn written_in_full(tree: ExprView) -> Written
    decreases tree,
{
    match tree {
        ExprView::Number(text) => Written::Number(text),
        ExprView::BinaryOp(op, left, right) => Written::Binary(
            op,
            Box::new(enclosed(written_in_full(*left))),
            Box::new(enclosed(written_in_full(*right))),
        ),
        ExprView::UnaryMinus(operand) => Written::Minus(
            Box::new(enclosed(written_in_full(*operand))),
        ),
    }
}

/// `w` in parentheses, unless it is a number.
pub open spec fn enclosed(w: Written) -> Written {
    if w is Number {
        w
    } else {
        Written::Group(Box::new(w))
    }
}

/// The tokens of `w` stand in `ts` from `pos` on.
pub open spec fn stands_at(ts: Seq<TokenView>, pos: int, w: Written) -> bool {
    &&& 0 <= pos
    &&& pos + w.tokens().len() <= ts.len()
    &&& ts.subrange(pos, pos + w.tokens().len()) == w.tokens()
}

/// No token of a writing is `EOF`.
pub proof fn lemma_tokens_hold_no_eof(w: Written)
    ensures
        forall|i: int| 0 <= i < w.tokens().len() ==> !(#[trigger] w.tokens()[i] is EOF),
    decreases w,
{
    match w {
        Written::Number(_) => {},
        Written::Binary(op, left, right) => {
            lemma_tokens_hold_no_eof(*left);
            lemma_tokens_hold_no_eof(*right);
        },
        Written::Minus(operand) => {
            lemma_tokens_hold_no_eof(*operand);
        },
        Written::Group(inner) => {
            lemma_tokens_hold_no_eof(*inner);
        },
    }
}

/// A writing has at least one token.
pub proof fn lemma_tokens_nonempty(w: Written)
    ensures
        w.tokens().len() > 0,
    decreases w,
{
    match w {
        Written::Binary(op, left, right) => {
            lemma_tokens_nonempty(*left);
        },
        _ => {},
    }
}

/// What each rule of the grammar reads from `pos` on, where something that
/// binds at `level` and spells `tree` stands up to `end`.
///
/// A rule reads all of it as `tree` if `level` is tight enough for the rule
/// and the token at `end` cannot continue it.  For the two rules that loop,
/// the claim is that the loop arrives at `end` with `tree` in hand.
pub open spec fn reads_at(ts: Seq<TokenView>, pos: int, end: int, tree: ExprView, level: nat) -> bool {
    let read = Ok::<(ExprView, int), SyntaxError>((tree, end));
    let follow = peek(ts, end);
    &&& level >= 4 ==> parse_primary(ts, pos) == read
    &&& level >= 3 ==> parse_unary(ts, pos) == read
    &&& level >= 2 && !(follow is Caret) ==> parse_power(ts, pos) == read
    &&& level >= 1 && !(follow is Caret) ==> parse_term(ts, pos) == term_tail(ts, end, tree)
    &&& !(follow is Caret) && multiplicative(follow) is None ==> parse_expr(ts, pos) == expr_tail(
        ts,
        end,
        tree,
    )
}

/// [`reads_at`] for the writing `w`.
pub open spec fn reads(ts: Seq<TokenView>, pos: int, w: Written) -> bool {
    reads_at(ts, pos, pos + w.tokens().len(), w.tree(), w.level())
}

proof fn lemma_from_term(ts: Seq<TokenView>, pos: int, end: int, tree: ExprView)
    requires
        pos < end <= ts.len(),
        !(peek(ts, end) is Caret) ==> parse_term(ts, pos) == term_tail(ts, end, tree),
    ensures
        reads_at(ts, pos, end, tree, 1),
{
}

proof fn lemma_from_power(ts: Seq<TokenView>, pos: int, end: int, tree: ExprView)
    requires
        pos < end <= ts.len(),
        !(peek(ts, end) is Caret) ==> parse_power(ts, pos) == Ok::<(ExprView, int), SyntaxError>(
            (tree, end),
        ),
    ensures
        reads_at(ts, pos, end, tree, 2),
{
    lemma_from_term(ts, pos, end, tree);
}

proof fn lemma_from_unary(ts: Seq<TokenView>, pos: int, end: int, tree: ExprView)
    requires
        pos < end <= ts.len(),
        parse_unary(ts, pos) == Ok::<(ExprView, int), SyntaxError>((tree, end)),
    ensures
        reads_at(ts, pos, end, tree, 3),
{
    lemma_from_power(ts, pos, end, tree);
}

proof fn lemma_from_primary(ts: Seq<TokenView>, pos: int, end: int, tree: ExprView)
    requires
        pos < end <= ts.len(),
        !(peek(ts, pos) is Subtract),
        parse_primary(ts, pos) == Ok::<(ExprView, int), SyntaxError>((tree, end)),
    ensures
        reads_at(ts, pos, end, tree, 4),
{
    lemma_from_unary(ts, pos, end, tree);
}

proof fn lemma_reads_group(ts: Seq<TokenView>, pos: int, close: int, tree: ExprView, level: nat)
    requires
        0 <= pos,
        pos + 1 < close < ts.len(),
        ts[pos] == TokenView::LeftParen,
        ts[close] == TokenView::RightParen,
        reads_at(ts, pos + 1, close, tree, level),
    ensures
        reads_at(ts, pos, close + 1, tree, 4),
{
    assert(parse_expr(ts, pos + 1) == Ok::<(ExprView, int), SyntaxError>((tree, close)));
    lemma_from_primary(ts, pos, close + 1, tree);
}

proof fn lemma_reads_minus(ts: Seq<TokenView>, pos: int, end: int, operand: ExprView, level: nat)
    requires
        0 <= pos,
        pos + 1 < end <= ts.len(),
        ts[pos] == TokenView::Subtract,
        level >= 3,
        reads_at(ts, pos + 1, end, operand, level),
    ensures
        reads_at(ts, pos, end, negated(operand), 3),
{
    lemma_from_unary(ts, pos, end, negated(operand));
}

proof fn lemma_reads_caret(
    ts: Seq<TokenView>,
    pos: int,
    mid: int,
    end: int,
    l: ExprView,
    r: ExprView,
    left: nat,
    right: nat,
)
    requires
        0 <= pos < mid,
        mid + 1 < end <= ts.len(),
        ts[mid] == TokenView::Caret,
        left >= 3,
        right >= 2,
        reads_at(ts, pos, mid, l, left),
        reads_at(ts, mid + 1, end, r, right),
    ensures
        reads_at(ts, pos, end, binary(Operator::Caret, l, r), 2),
{
    lemma_from_power(ts, pos, end, binary(Operator::Caret, l, r));
}

proof fn lemma_reads_product(
    ts: Seq<TokenView>,
    pos: int,
    mid: int,
    end: int,
    op: Operator,
    l: ExprView,
    r: ExprView,
    left: nat,
    right: nat,
)
    requires
        0 <= pos < mid,
        mid + 1 < end <= ts.len(),
        operator_level(op) == 1,
        ts[mid] == operator_token(op),
        left >= 1,
        right >= 2,
        reads_at(ts, pos, mid, l, left),
        reads_at(ts, mid + 1, end, r, right),
    ensures
        reads_at(ts, pos, end, binary(op, l, r), 1),
{
    assert(multiplicative(peek(ts, mid)) == Some(op));
    if !(peek(ts, end) is Caret) {
        assert(parse_term(ts, pos) == term_tail(ts, mid, l));
        assert(parse_power(ts, mid + 1) == Ok::<(ExprView, int), SyntaxError>((r, end)));
        assert(term_tail(ts, mid, l) == term_tail(ts, end, binary(op, l, r)));
    }
    lemma_from_term(ts, pos, end, binary(op, l, r));
}

proof fn lemma_reads_sum(
    ts: Seq<TokenView>,
    pos: int,
    mid: int,
    end: int,
    op: Operator,
    l: ExprView,
    r: ExprView,
    left: nat,
    right: nat,
)
    requires
        0 <= pos < mid,
        mid + 1 < end <= ts.len(),
        operator_level(op) == 0,
        ts[mid] == operator_token(op),
        right >= 1,
        reads_at(ts, pos, mid, l, left),
        reads_at(ts, mid + 1, end, r, right),
    ensures
        reads_at(ts, pos, end, binary(op, l, r), 0),
{
    assert(additive(peek(ts, mid)) == Some(op));
    assert(multiplicative(peek(ts, mid)) is None);
    if !(peek(ts, end) is Caret) && multiplicative(peek(ts, end)) is None {
        assert(parse_expr(ts, pos) == expr_tail(ts, mid, l));
        assert(parse_term(ts, mid + 1) == term_tail(ts, end, r));
        assert(term_tail(ts, end, r) == Ok::<(ExprView, int), SyntaxError>((r, end)));
        assert(expr_tail(ts, mid, l) == expr_tail(ts, end, binary(op, l, r)));
    }
}

/// The grammar reads a well-written expression as its tree, wherever it
/// stands among the tokens: see [`reads_at`].
pub proof fn lemma_reads_writing(ts: Seq<TokenView>, pos: int, w: Written)
    requires
        w.well_written(),
        stands_at(ts, pos, w),
    ensures
        reads(ts, pos, w),
    decreases w,
{
    let toks = w.tokens();
    let n = toks.len() as int;
    let end = pos + n;
    lemma_tokens_nonempty(w);
    assert forall|i: int| 0 <= i < n implies ts[pos + i] == toks[i] by {
        assert(ts.subrange(pos, end)[i] == ts[pos + i]);
    }
    match w {
        Written::Number(text) => {
            assert(ts[pos] == toks[0]);
            lemma_from_primary(ts, pos, end, w.tree());
        },
        Written::Group(inner) => {
            let m = inner.tokens().len() as int;
            let close = pos + 1 + m;
            lemma_tokens_nonempty(*inner);
            assert(ts[pos] == toks[0]);
            assert(ts[close] == toks[m + 1]);
            assert(ts.subrange(pos + 1, close) =~= inner.tokens()) by {
                assert forall|i: int| 0 <= i < m implies ts.subrange(pos + 1, close)[i]
                    == inner.tokens()[i] by {
                    assert(ts[pos + (1 + i)] == toks[1 + i]);
                }
            }
            lemma_reads_writing(ts, pos + 1, *inner);
            lemma_reads_group(ts, pos, close, inner.tree(), inner.level());
        },
        Written::Minus(operand) => {
            let m = operand.tokens().len() as int;
            lemma_tokens_nonempty(*operand);
            assert(ts[pos] == toks[0]);
            assert(ts.subrange(pos + 1, end) =~= operand.tokens()) by {
                assert forall|i: int| 0 <= i < m implies ts.subrange(pos + 1, end)[i]
                    == operand.tokens()[i] by {
                    assert(ts[pos + (1 + i)] == toks[1 + i]);
                }
            }
            lemma_reads_writing(ts, pos + 1, *operand);
            lemma_reads_minus(ts, pos, end, operand.tree(), operand.level());
        },
        Written::Binary(op, left, right) => {
            let m = left.tokens().len() as int;
            let k = right.tokens().len() as int;
            let mid = pos + m;
            lemma_tokens_nonempty(*left);
            lemma_tokens_nonempty(*right);
            assert(ts[mid] == toks[m]);
            assert(ts.subrange(pos, mid) =~= left.tokens()) by {
                assert forall|i: int| 0 <= i < m implies ts.subrange(pos, mid)[i]
                    == left.tokens()[i] by {
                    assert(ts[pos + i] == toks[i]);
                }
            }
            assert(ts.subrange(mid + 1, end) =~= right.tokens()) by {
                assert forall|i: int| 0 <= i < k implies ts.subrange(mid + 1, end)[i]
                    == right.tokens()[i] by {
                    assert(ts[pos + (m + 1 + i)] == toks[m + 1 + i]);
                }
            }
            lemma_reads_writing(ts, pos, *left);
            lemma_reads_writing(ts, mid + 1, *right);
            let l = left.tree();
            let r = right.tree();
            if op == Operator::Caret {
                lemma_reads_caret(ts, pos, mid, end, l, r, left.level(), right.level());
            } else if operator_level(op) == 1 {
                lemma_reads_product(ts, pos, mid, end, op, l, r, left.level(), right.level());
            } else {
                lemma_reads_sum(ts, pos, mid, end, op, l, r, left.level(), right.level());
            }
        },
    }
}

/// `ts` spells `tree` in the writing `w`: the tokens of `w` from the start,
/// and `EOF`, or nothing more, behind them.
pub open spec fn spells(ts: Seq<TokenView>, w: Written, tree: ExprView) -> bool {
    &&& w.well_written()
    &&& w.tree() == tree
    &&& stands_at(ts, 0, w)
    &&& peek(ts, w.tokens().len() as int) is EOF
}

/// Tokens that spell a tree are read as that tree.
pub proof fn lemma_spelling_parses(ts: Seq<TokenView>, w: Written, tree: ExprView)
    requires
        spells(ts, w, tree),
    ensures
        parse_tokens(ts) == Ok::<ExprView, SyntaxError>(tree),
{
    let end = w.tokens().len() as int;
    lemma_tokens_nonempty(w);
    lemma_reads_writing(ts, 0, w);
    assert(parse_expr(ts, 0) == Ok::<(ExprView, int), SyntaxError>((tree, end)));
}

/// A well-written expression, closed by `EOF`, is read as its tree.
pub proof fn lemma_writing_parses(w: Written)
    requires
        w.well_written(),
    ensures
        parse_tokens(w.tokens().push(TokenView::EOF)) == Ok::<ExprView, SyntaxError>(w.tree()),
{
    let ts = w.tokens().push(TokenView::EOF);
    let end = w.tokens().len() as int;
    assert(ts.subrange(0, end) =~= w.tokens());
    lemma_spelling_parses(ts, w, w.tree());
}

/// Two well-written expressions that spell the same tree are read alike,
/// wherever their parentheses stand: both as that tree.
pub proof fn lemma_parentheses_do_not_matter(a: Written, b: Written)
    requires
        a.well_written(),
        b.well_written(),
        a.tree() == b.tree(),
    ensures
        parse_tokens(a.tokens().push(TokenView::EOF)) == parse_tokens(
            b.tokens().push(TokenView::EOF),
        ),
        parse_tokens(a.tokens().push(TokenView::EOF)) == Ok::<ExprView, SyntaxError>(a.tree()),
{
    lemma_writing_parses(a);
    lemma_writing_parses(b);
}

proof fn lemma_enclosed(w: Written)
    requires
        w.well_written(),
    ensures
        enclosed(w).well_written(),
        enclosed(w).level() == 4,
        enclosed(w).tree() == w.tree(),
{
}

/// Two well-written expressions that spell the same tree have the same
/// value in every arithmetic, wherever their parentheses stand.
pub proof fn lemma_parentheses_keep_value<V>(ar: Arithmetic<V>, a: Written, b: Written)
    requires
        a.well_written(),
        b.well_written(),
        a.tree() == b.tree(),
    ensures
        parse_tokens(a.tokens().push(TokenView::EOF)) matches Ok(x) && parse_tokens(
            b.tokens().push(TokenView::EOF),
        ) matches Ok(y) && value(ar, x) == value(ar, y),
{
    lemma_parentheses_do_not_matter(a, b);
}

/// Every tree can be written: in full parentheses it is well written and
/// spells the tree.
pub proof fn lemma_written_in_full(tree: ExprView)
    ensures
        written_in_full(tree).well_written(),
        written_in_full(tree).tree() == tree,
    decreases tree,
{
    match tree {
        ExprView::Number(text) => {},
        ExprView::BinaryOp(op, left, right) => {
            lemma_written_in_full(*left);
            lemma_written_in_full(*right);
            lemma_enclosed(written_in_full(*left));
            lemma_enclosed(written_in_full(*right));
        },
        ExprView::UnaryMinus(operand) => {
            lemma_written_in_full(*operand);
            lemma_enclosed(written_in_full(*operand));
        },
    }
}

/// Writing a tree in full parentheses and reading it gives the tree back.
pub proof fn lemma_write_then_parse(tree: ExprView)
    ensures
        parse_tokens(written_in_full(tree).tokens().push(TokenView::EOF)) == Ok::<
            ExprView,
            SyntaxError,
        >(tree),
{
    lemma_written_in_full(tree);
    lemma_writing_parses(written_in_full(tree));
}

/// `r` is a tree, and `w` is a writing of it that binds at `level` or
/// tighter and stands in `ts` from `pos` up to where `r` ends.
pub open spec fn written_as(ts: Seq<TokenView>, pos: int, w: Written, r: Parsed, level: nat) -> bool {
    &&& r matches Ok((tree, end))
    &&& w.well_written()
    &&& w.level() >= level
    &&& w.tree() == tree
    &&& stands_at(ts, pos, w)
    &&& pos + w.tokens().len() == end
}

proof fn lemma_joined_stands(
    ts: Seq<TokenView>,
    start: int,
    mid: int,
    end: int,
    op: Operator,
    left: Written,
    right: Written,
)
    requires
        stands_at(ts, start, left),
        start + left.tokens().len() == mid,
        0 <= mid < ts.len(),
        ts[mid] == operator_token(op),
        stands_at(ts, mid + 1, right),
        mid + 1 + right.tokens().len() == end,
    ensures
        stands_at(ts, start, Written::Binary(op, Box::new(left), Box::new(right))),
        start + Written::Binary(op, Box::new(left), Box::new(right)).tokens().len() == end,
{
    let w = Written::Binary(op, Box::new(left), Box::new(right));
    let m = left.tokens().len() as int;
    assert forall|i: int| 0 <= i < end - start implies ts.subrange(start, end)[i] == w.tokens()[i] by {
        if i < m {
            assert(ts.subrange(start, mid)[i] == ts[start + i]);
        } else if i > m {
            assert(ts.subrange(mid + 1, end)[i - m - 1] == ts[mid + 1 + (i - m - 1)]);
        }
    }
    assert(ts.subrange(start, end) =~= w.tokens());
}

proof fn lemma_primary_written(ts: Seq<TokenView>, pos: int) -> (w: Written)
    requires
        0 <= pos,
        parse_primary(ts, pos) is Ok,
    ensures
        written_as(ts, pos, w, parse_primary(ts, pos), 4),
    decreases ts.len() - pos, 0int,
{
    match peek(ts, pos) {
        TokenView::Num(text) => {
            let w = Written::Number(text);
            assert(ts.subrange(pos, pos + 1) =~= w.tokens());
            w
        },
        TokenView::LeftParen => {
            let inner = lemma_expr_written(ts, pos + 1);
            let close = pos + 1 + inner.tokens().len();
            let w = Written::Group(Box::new(inner));
            assert(peek(ts, close) is RightParen);
            assert forall|i: int| 0 <= i < close + 1 - pos implies ts.subrange(pos, close + 1)[i]
                == w.tokens()[i] by {
                if 0 < i < close - pos {
                    assert(ts.subrange(pos + 1, close)[i - 1] == ts[pos + 1 + (i - 1)]);
                }
            }
            assert(ts.subrange(pos, close + 1) =~= w.tokens());
            w
        },
        _ => Written::Number(Seq::empty()),
    }
}

proof fn lemma_unary_written(ts: Seq<TokenView>, pos: int) -> (w: Written)
    requires
        0 <= pos,
        parse_unary(ts, pos) is Ok,
    ensures
        written_as(ts, pos, w, parse_unary(ts, pos), 3),
    decreases ts.len() - pos, 1int,
{
    if peek(ts, pos) is Subtract {
        let operand = lemma_unary_written(ts, pos + 1);
        let end = pos + 1 + operand.tokens().len();
        let w = Written::Minus(Box::new(operand));
        assert forall|i: int| 0 <= i < end - pos implies ts.subrange(pos, end)[i] == w.tokens()[i] by {
            if 0 < i {
                assert(ts.subrange(pos + 1, end)[i - 1] == ts[pos + 1 + (i - 1)]);
            }
        }
        assert(ts.subrange(pos, end) =~= w.tokens());
        w
    } else {
        lemma_primary_written(ts, pos)
    }
}

proof fn lemma_power_written(ts: Seq<TokenView>, pos: int) -> (w: Written)
    requires
        0 <= pos,
        parse_power(ts, pos) is Ok,
    ensures
        written_as(ts, pos, w, parse_power(ts, pos), 2),
    decreases ts.len() - pos, 2int,
{
    let base = lemma_unary_written(ts, pos);
    let mid = pos + base.tokens().len();
    lemma_tokens_nonempty(base);
    if peek(ts, mid) is Caret {
        let exponent = lemma_power_written(ts, mid + 1);
        let end = mid + 1 + exponent.tokens().len();
        lemma_joined_stands(ts, pos, mid, end, Operator::Caret, base, exponent);
        Written::Binary(Operator::Caret, Box::new(base), Box::new(exponent))
    } else {
        base
    }
}

proof fn lemma_term_tail_written(ts: Seq<TokenView>, start: int, pos: int, left: Written) -> (w:
    Written)
    requires
        0 <= start < pos <= ts.len(),
        written_as(ts, start, left, Ok((left.tree(), pos)), 1),
        term_tail(ts, pos, left.tree()) is Ok,
    ensures
        written_as(ts, start, w, term_tail(ts, pos, left.tree()), 1),
    decreases ts.len() - pos, 3int,
{
    match multiplicative(peek(ts, pos)) {
        Some(op) => {
            let right = lemma_power_written(ts, pos + 1);
            let next = pos + 1 + right.tokens().len();
            lemma_tokens_nonempty(right);
            lemma_joined_stands(ts, start, pos, next, op, left, right);
            let joined = Written::Binary(op, Box::new(left), Box::new(right));
            lemma_term_tail_written(ts, start, next, joined)
        },
        None => left,
    }
}

proof fn lemma_term_written(ts: Seq<TokenView>, pos: int) -> (w: Written)
    requires
        0 <= pos,
        parse_term(ts, pos) is Ok,
    ensures
        written_as(ts, pos, w, parse_term(ts, pos), 1),
    decreases ts.len() - pos, 4int,
{
    let first = lemma_power_written(ts, pos);
    lemma_tokens_nonempty(first);
    lemma_term_tail_written(ts, pos, pos + first.tokens().len(), first)
}

proof fn lemma_expr_tail_written(ts: Seq<TokenView>, start: int, pos: int, left: Written) -> (w:
    Written)
    requires
        0 <= start < pos <= ts.len(),
        written_as(ts, start, left, Ok((left.tree(), pos)), 0),
        expr_tail(ts, pos, left.tree()) is Ok,
    ensures
        written_as(ts, start, w, expr_tail(ts, pos, left.tree()), 0),
    decreases ts.len() - pos, 5int,
{
    match additive(peek(ts, pos)) {
        Some(op) => {
            let right = lemma_term_written(ts, pos + 1);
            let next = pos + 1 + right.tokens().len();
            lemma_tokens_nonempty(right);
            lemma_joined_stands(ts, start, pos, next, op, left, right);
            let joined = Written::Binary(op, Box::new(left), Box::new(right));
            lemma_expr_tail_written(ts, start, next, joined)
        },
        None => left,
    }
}

proof fn lemma_expr_written(ts: Seq<TokenView>, pos: int) -> (w: Written)
    requires
        0 <= pos,
        parse_expr(ts, pos) is Ok,
    ensures
        written_as(ts, pos, w, parse_expr(ts, pos), 0),
    decreases ts.len() - pos, 6int,
{
    let first = lemma_term_written(ts, pos);
    lemma_tokens_nonempty(first);
    lemma_expr_tail_written(ts, pos, pos + first.tokens().len(), first)
}

/// What the grammar reads as a tree spells that tree: the writing that is
/// returned is well written, and its tokens are the ones that were read.
pub proof fn lemma_parsed_is_spelled(ts: Seq<TokenView>) -> (w: Written)
    requires
        parse_tokens(ts) is Ok,
    ensures
        spells(ts, w, parse_tokens(ts)->Ok_0),
{
    lemma_expr_written(ts, 0)
}

/// The grammar accepts exactly the well-written expressions: tokens are read
/// as `tree` if and only if they spell `tree` in some writing.
pub proof fn lemma_parses_iff_spelled(ts: Seq<TokenView>, tree: ExprView)
    ensures
        parse_tokens(ts) == Ok::<ExprView, SyntaxError>(tree) <==> exists|w: Written|
            spells(ts, w, tree),
{
    if parse_tokens(ts) == Ok::<ExprView, SyntaxError>(tree) {
        let w = lemma_parsed_is_spelled(ts);
        assert(spells(ts, w, tree));
    }
    if exists|w: Written| spells(ts, w, tree) {
        let w = choose|w: Written| spells(ts, w, tree);
        lemma_spelling_parses(ts, w, tree);
    }
}

} // verus!
