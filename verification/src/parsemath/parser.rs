//! A recursive-descent parser over a materialized token sequence.
//!
//! One routine per rule of [`crate::parsemath::grammar`]; each looks at one
//! token ahead and never steps back.
use vstd::prelude::*;
use crate::parsemath::ast::{Expr, ExprView, Operator};
use crate::parsemath::error::{ParseError, SyntaxError};
use crate::parsemath::grammar::{
    Parsed, expr_tail, lemma_parse_advances, parse_expr, parse_from, parse_power, parse_primary,
    parse_term, parse_tokens, parse_unary, term_tail,
};
use crate::parsemath::token::{Token, TokenView, token_views};
use crate::parsemath::notation::{
    Written, lemma_parsed_is_spelled, lemma_tokens_hold_no_eof, lemma_tokens_nonempty, lemma_writing_parses,
};
use crate::parsemath::tokenizer::{lemma_lex_closed, lemma_lex_opened, lemma_lex_shape, lex, tokenize};

verus! {

/// The view of a parse result: the tree's view, or the error.
pub open spec fn tree_view<E>(r: Result<Expr, E>) -> Result<ExprView, E> {
    match r {
        Ok(tree) => Ok(tree@),
        Err(e) => Err(e),
    }
}

/// The tree that the text `s` stands for: the tokens of `s`, then the
/// expression that they form.
pub open spec fn parse_text(s: Seq<char>) -> Result<ExprView, ParseError> {
    match lex(s) {
        Ok(ts) => match parse_tokens(ts) {
            Ok(tree) => Ok(tree),
            Err(e) => Err(ParseError::Syntax(e)),
        },
        Err(e) => Err(ParseError::Lex(e)),
    }
}

/// Reading a text again gives the same tree or the same error: what
/// [`parse_expression`] returns is fixed by the text alone.
pub proof fn lemma_parse_is_repeatable(
    input: Seq<char>,
    first: Result<Expr, ParseError>,
    second: Result<Expr, ParseError>,
)
    requires
        tree_view(first) == parse_text(input),
        tree_view(second) == parse_text(input),
    ensures
        tree_view(first) == tree_view(second),
{
}

/// Parentheses around a text that holds an expression change nothing: the
/// text in parentheses is read as the same tree.
pub proof fn lemma_parentheses_around_text(s: Seq<char>)
    requires
        parse_text(s) is Ok,
    ensures
        parse_text(seq!['('] + s.push(')')) == parse_text(s),
{
    let ts = lex(s)->Ok_0;
    let tree = parse_tokens(ts)->Ok_0;
    lemma_lex_shape(s);
    lemma_lex_closed(s);
    lemma_lex_opened(s.push(')'));
    let w = lemma_parsed_is_spelled(ts);
    let n = w.tokens().len() as int;
    lemma_tokens_hold_no_eof(w);
    assert(n == ts.len() - 1) by {
        if n == ts.len() {
            assert(ts.subrange(0, n)[n - 1] == ts[n - 1]);
            lemma_tokens_nonempty(w);
        }
    }
    assert(ts.drop_last() =~= w.tokens()) by {
        assert(ts.subrange(0, n) =~= ts.drop_last());
    }
    let group = Written::Group(Box::new(w));
    assert(group.tokens().push(TokenView::EOF) =~= seq![TokenView::LeftParen] + ts.drop_last().push(
        TokenView::RightParen,
    ).push(TokenView::EOF));
    lemma_writing_parses(group);
}

/// A cursor over the tokens of one expression.
pub struct Parser {
    tokens: Vec<Token>,
    pos: usize,
}

impl Parser {
    #[verifier::type_invariant]
    spec fn well_formed(self) -> bool {
        self.pos <= self.tokens@.len()
    }

    /// The tokens that the parser reads.
    pub closed spec fn tokens(&self) -> Seq<TokenView> {
        token_views(self.tokens@)
    }

    /// The index of the token that is read next.
    pub closed spec fn position(&self) -> int {
        self.pos as int
    }

    /// `r` and the parser `after` the call are what the grammar function's
    /// result `expected` says: the same tree at the same position, or the
    /// same error.  The tokens are untouched.
    pub open spec fn follows(&self, after: &Parser, r: Result<Expr, SyntaxError>, expected: Parsed) -> bool {
        &&& after.tokens() == self.tokens()
        &&& match expected {
            Ok((tree, end)) => r matches Ok(t) && t@ == tree && after.position() == end,
            Err(e) => r matches Err(x) && x == e,
        }
    }

    /// A parser at the first of `tokens`.
    pub fn new(tokens: Vec<Token>) -> (p: Parser)
        ensures
            p.tokens() == token_views(tokens@),
            p.position() == 0,
    {
        Parser { tokens, pos: 0 }
    }

    /// Reads one expression that spans all the tokens from the parser's
    /// position up to `EOF`.  On a new parser that is [`parse_tokens`].
    pub fn parse(self) -> (r: Result<Expr, SyntaxError>)
        ensures
            tree_view(r) == parse_from(self.tokens(), self.position()),
    {
        let mut parser = self;
        let tree = match parser.parse_expr() {
            Ok(tree) => tree,
            Err(e) => {
                return Err(e);
            },
        };
        proof {
            use_type_invariant(&parser);
        }
        if parser.pos < parser.tokens.len() {
            match &parser.tokens[parser.pos] {
                Token::EOF => Ok(tree),
                _ => Err(SyntaxError::UnexpectedToken),
            }
        } else {
            Ok(tree)
        }
    }

    /// `expr := term { ('+' | '-') term }`
    pub fn parse_expr(&mut self) -> (r: Result<Expr, SyntaxError>)
        ensures
            old(self).follows(final(self), r, parse_expr(old(self).tokens(), old(self).position())),
        decreases old(self).tokens().len() - old(self).position(), 6int,
    {
        let ghost ts = self.tokens();
        let ghost start = self.position();
        proof {
            use_type_invariant(&*self);
            lemma_parse_advances(ts, start);
        }
        let mut left = match self.parse_term() {
            Ok(tree) => tree,
            Err(e) => {
                return Err(e);
            },
        };
        loop
            invariant
                ts == old(self).tokens(),
                start == old(self).position(),
                self.tokens() == ts,
                start < self.position() <= ts.len(),
                parse_expr(ts, start) == expr_tail(ts, self.position(), left@),
            decreases ts.len() - self.position(),
        {
            proof {
                use_type_invariant(&*self);
            }
            if self.pos >= self.tokens.len() {
                return Ok(left);
            }
            let op = match &self.tokens[self.pos] {
                Token::Add => Operator::Add,
                Token::Subtract => Operator::Subtract,
                _ => {
                    return Ok(left);
                },
            };
            self.pos += 1;
            proof {
                lemma_parse_advances(ts, self.position());
            }
            let right = match self.parse_term() {
                Ok(tree) => tree,
                Err(e) => {
                    return Err(e);
                },
            };
            left = Expr::BinaryOp(op, Box::new(left), Box::new(right));
        }
    }

    /// `term := power { ('*' | '/') power }`
    pub fn parse_term(&mut self) -> (r: Result<Expr, SyntaxError>)
        ensures
            old(self).follows(final(self), r, parse_term(old(self).tokens(), old(self).position())),
        decreases old(self).tokens().len() - old(self).position(), 4int,
    {
        let ghost ts = self.tokens();
        let ghost start = self.position();
        proof {
            use_type_invariant(&*self);
            lemma_parse_advances(ts, start);
        }
        let mut left = match self.parse_power() {
            Ok(tree) => tree,
            Err(e) => {
                return Err(e);
            },
        };
        loop
            invariant
                ts == old(self).tokens(),
                start == old(self).position(),
                self.tokens() == ts,
                start < self.position() <= ts.len(),
                parse_term(ts, start) == term_tail(ts, self.position(), left@),
            decreases ts.len() - self.position(),
        {
            proof {
                use_type_invariant(&*self);
            }
            if self.pos >= self.tokens.len() {
                return Ok(left);
            }
            let op = match &self.tokens[self.pos] {
                Token::Multiply => Operator::Multiply,
                Token::Divide => Operator::Divide,
                _ => {
                    return Ok(left);
                },
            };
            self.pos += 1;
            proof {
                lemma_parse_advances(ts, self.position());
            }
            let right = match self.parse_power() {
                Ok(tree) => tree,
                Err(e) => {
                    return Err(e);
                },
            };
            left = Expr::BinaryOp(op, Box::new(left), Box::new(right));
        }
    }

    /// `power := unary [ '^' power ]`
    pub fn parse_power(&mut self) -> (r: Result<Expr, SyntaxError>)
        ensures
            old(self).follows(final(self), r, parse_power(old(self).tokens(), old(self).position())),
        decreases old(self).tokens().len() - old(self).position(), 2int,
    {
        let ghost ts = self.tokens();
        let ghost start = self.position();
        proof {
            use_type_invariant(&*self);
            lemma_parse_advances(ts, start);
        }
        let base = match self.parse_unary() {
            Ok(tree) => tree,
            Err(e) => {
                return Err(e);
            },
        };
        proof {
            use_type_invariant(&*self);
        }
        if self.pos >= self.tokens.len() {
            return Ok(base);
        }
        match &self.tokens[self.pos] {
            Token::Caret => {},
            _ => {
                return Ok(base);
            },
        }
        self.pos += 1;
        match self.parse_power() {
            Ok(exponent) => Ok(Expr::BinaryOp(Operator::Caret, Box::new(base), Box::new(exponent))),
            Err(e) => Err(e),
        }
    }

    /// `unary := '-' unary | primary`
    pub fn parse_unary(&mut self) -> (r: Result<Expr, SyntaxError>)
        ensures
            old(self).follows(final(self), r, parse_unary(old(self).tokens(), old(self).position())),
        decreases old(self).tokens().len() - old(self).position(), 1int,
    {
        proof {
            use_type_invariant(&*self);
        }
        if self.pos < self.tokens.len() {
            if let Token::Subtract = &self.tokens[self.pos] {
                self.pos += 1;
                return match self.parse_unary() {
                    Ok(operand) => Ok(Expr::UnaryMinus(Box::new(operand))),
                    Err(e) => Err(e),
                };
            }
        }
        self.parse_primary()
    }

    /// `primary := number | '(' expr ')'`
    pub fn parse_primary(&mut self) -> (r: Result<Expr, SyntaxError>)
        ensures
            old(self).follows(final(self), r, parse_primary(old(self).tokens(), old(self).position())),
        decreases old(self).tokens().len() - old(self).position(), 0int,
    {
        proof {
            use_type_invariant(&*self);
        }
        if self.pos >= self.tokens.len() {
            return Err(SyntaxError::ExpectedExpression);
        }
        match &self.tokens[self.pos] {
            Token::Num(lit) => {
                let tree = Expr::Number(lit.clone());
                self.pos += 1;
                Ok(tree)
            },
            Token::LeftParen => {
                self.pos += 1;
                let inner = match self.parse_expr() {
                    Ok(tree) => tree,
                    Err(e) => {
                        return Err(e);
                    },
                };
                proof {
                    use_type_invariant(&*self);
                }
                if self.pos >= self.tokens.len() {
                    return Err(SyntaxError::UnterminatedGroup);
                }
                match &self.tokens[self.pos] {
                    Token::RightParen => {
                        self.pos += 1;
                        Ok(inner)
                    },
                    Token::EOF => Err(SyntaxError::UnterminatedGroup),
                    _ => Err(SyntaxError::UnexpectedToken),
                }
            },
            Token::EOF => Err(SyntaxError::ExpectedExpression),
            _ => Err(SyntaxError::UnexpectedToken),
        }
    }
}

/// Reads the expression that `input` holds.
///
/// The text is split into tokens first; a text that cannot be split fails
/// with the lexical error, whatever its tokens would have formed.
pub fn parse_expression(input: &str) -> (r: Result<Expr, ParseError>)
    ensures
        tree_view(r) == parse_text(input@),
{
    let tokens = match tokenize(input) {
        Ok(tokens) => tokens,
        Err(e) => {
            return Err(ParseError::Lex(e));
        },
    };
    match Parser::new(tokens).parse() {
        Ok(tree) => Ok(tree),
        Err(e) => Err(ParseError::Syntax(e)),
    }
}

} // verus!
