//! The lexical vocabulary shared by the tokenizer and the parser.
use vstd::prelude::*;

verus! {

/// `c` is one of the ten decimal digits.
pub open spec fn is_digit(c: char) -> bool {
    '0' <= c && c <= '9'
}

/// `c` may occur inside a decimal literal: a digit or the decimal point.
pub open spec fn is_number_char(c: char) -> bool {
    is_digit(c) || c == '.'
}

/// At most one decimal point stands in `text`.
pub open spec fn single_point(text: Seq<char>) -> bool {
    forall|i: int, j: int|
        0 <= i < text.len() && 0 <= j < text.len() && #[trigger] text[i] == '.' && #[trigger] text[j] == '.'
            ==> i == j
}

/// `text` is a decimal literal: it starts with a digit, holds nothing but
/// digits and decimal points, and holds at most one decimal point.
pub open spec fn is_literal(text: Seq<char>) -> bool {
    &&& text.len() > 0
    &&& is_digit(text[0])
    &&& forall|i: int| 0 <= i < text.len() ==> is_number_char(#[trigger] text[i])
    &&& single_point(text)
}

/// Executable test for [`is_digit`].
pub fn digit(c: char) -> (r: bool)
    ensures
        r == is_digit(c),
{
    '0' <= c && c <= '9'
}

/// Executable test for [`is_number_char`].
pub fn number_char(c: char) -> (r: bool)
    ensures
        r == is_number_char(c),
{
    digit(c) || c == '.'
}

/// The text of a decimal number, such as `42` or `3.14`.
///
/// Every value of this type satisfies [`is_literal`].
#[derive(Debug, PartialEq, Eq)]
pub struct Literal {
    text: Vec<char>,
}

impl View for Literal {
    type V = Seq<char>;

    closed spec fn view(&self) -> Seq<char> {
        self.text@
    }
}

impl Clone for Literal {
    fn clone(&self) -> (r: Self)
        ensures
            r@ == self@,
    {
        proof {
            use_type_invariant(self);
        }
        let text = self.text.clone();
        assert(text@ =~= self.text@);
        Literal { text }
    }
}

impl Literal {
    #[verifier::type_invariant]
    spec fn well_formed(self) -> bool {
        is_literal(self.text@)
    }

    /// Checks `text` and wraps it; `None` when it is not a decimal literal.
    pub fn new(text: Vec<char>) -> (r: Option<Literal>)
        ensures
            is_literal(text@) <==> r is Some,
            r matches Some(lit) ==> lit@ == text@,
    {
        if text.len() == 0 || !digit(text[0]) {
            return None;
        }
        let mut seen_point = false;
        let mut i: usize = 0;
        while i < text.len()
            invariant
                i <= text.len(),
                forall|k: int| 0 <= k < i ==> is_number_char(#[trigger] text@[k]),
                !seen_point ==> forall|k: int| 0 <= k < i ==> text@[k] != '.',
                seen_point ==> exists|d: int|
                    0 <= d < i && text@[d] == '.' && forall|k: int|
                        0 <= k < i && #[trigger] text@[k] == '.' ==> k == d,
            decreases text.len() - i,
        {
            let c = text[i];
            if !number_char(c) {
                return None;
            }
            if c == '.' {
                if seen_point {
                    return None;
                }
                seen_point = true;
            }
            i += 1;
        }
        Some(Literal { text })
    }

    /// The characters of the literal.
    pub fn text(&self) -> (r: &Vec<char>)
        ensures
            r@ == self@,
            is_literal(self@),
    {
        proof {
            use_type_invariant(self);
        }
        &self.text
    }
}

/// What a [`Token`] stands for in specifications: the same variants, with the
/// text of a number as a sequence of characters.
pub enum TokenView {
    Add,
    Subtract,
    Multiply,
    Divide,
    Caret,
    LeftParen,
    RightParen,
    Num(Seq<char>),
    EOF,
}

/// One lexical symbol of an arithmetic expression.
#[derive(Debug, PartialEq, Eq)]
pub enum Token {
    Add,
    Subtract,
    Multiply,
    Divide,
    Caret,
    LeftParen,
    RightParen,
    Num(Literal),
    EOF,
}

impl View for Token {
    type V = TokenView;

    open spec fn view(&self) -> TokenView {
        match self {
            Token::Add => TokenView::Add,
            Token::Subtract => TokenView::Subtract,
            Token::Multiply => TokenView::Multiply,
            Token::Divide => TokenView::Divide,
            Token::Caret => TokenView::Caret,
            Token::LeftParen => TokenView::LeftParen,
            Token::RightParen => TokenView::RightParen,
            Token::Num(lit) => TokenView::Num(lit@),
            Token::EOF => TokenView::EOF,
        }
    }
}

impl Clone for Token {
    fn clone(&self) -> (r: Self)
        ensures
            r@ == self@,
    {
        match self {
            Token::Add => Token::Add,
            Token::Subtract => Token::Subtract,
            Token::Multiply => Token::Multiply,
            Token::Divide => Token::Divide,
            Token::Caret => Token::Caret,
            Token::LeftParen => Token::LeftParen,
            Token::RightParen => Token::RightParen,
            Token::Num(lit) => Token::Num(lit.clone()),
            Token::EOF => Token::EOF,
        }
    }
}

/// The views of a run of tokens, in order.
pub open spec fn token_views(tokens: Seq<Token>) -> Seq<TokenView> {
    tokens.map_values(|t: Token| t@)
}

} // verus!
