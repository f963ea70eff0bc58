//! The ways in which an expression can be refused.
use vstd::prelude::*;
use vstd::string::StringExecFns;

verus! {

/// The text cannot be split into tokens.
#[derive(Debug, Clone, Copy, PartialEq, Eq, Structural)]
pub enum LexError {
    /// A character that starts no token, such as a letter or a blank.
    UnrecognizedCharacter(char),
    /// A run of digits and decimal points with more than one decimal point.
    MalformedNumber,
    /// A number directly followed by an opening parenthesis.
    ImplicitMultiplication,
}

/// The tokens do not form an expression.
#[derive(Debug, Clone, Copy, PartialEq, Eq, Structural)]
pub enum SyntaxError {
    /// An opening parenthesis whose group runs into the end of the input.
    UnterminatedGroup,
    /// A token where the grammar allows none, such as a second number
    /// directly after a first.
    UnexpectedToken,
    /// The input ends where an operand has to stand.
    ExpectedExpression,
}

/// Either kind of failure, as the entry point reports it.
#[derive(Debug, Clone, Copy, PartialEq, Eq, Structural)]
pub enum ParseError {
    Lex(LexError),
    Syntax(SyntaxError),
}

impl LexError {
    /// The error in words.
    pub open spec fn text(self) -> Seq<char> {
        match self {
            LexError::UnrecognizedCharacter(c) => "unrecognized character "@.push(c),
            LexError::MalformedNumber => "malformed number"@,
            LexError::ImplicitMultiplication => "number directly before an opening parenthesis"@,
        }
    }

    /// The error in words.
    pub fn message(&self) -> (s: String)
        ensures
            s@ == self.text(),
    {
        match self {
            LexError::UnrecognizedCharacter(c) => {
                let mut s = "unrecognized character ".to_owned();
                s.push(*c);
                s
            },
            LexError::MalformedNumber => "malformed number".to_owned(),
            LexError::ImplicitMultiplication => "number directly before an opening parenthesis".to_owned(),
        }
    }
}

impl SyntaxError {
    /// The error in words.
    pub open spec fn text(self) -> Seq<char> {
        match self {
            SyntaxError::UnterminatedGroup => "unterminated group"@,
            SyntaxError::UnexpectedToken => "unexpected token"@,
            SyntaxError::ExpectedExpression => "expected expression, found end of input"@,
        }
    }

    /// The error in words.
    pub fn message(&self) -> (s: String)
        ensures
            s@ == self.text(),
    {
        match self {
            SyntaxError::UnterminatedGroup => "unterminated group".to_owned(),
            SyntaxError::UnexpectedToken => "unexpected token".to_owned(),
            SyntaxError::ExpectedExpression => "expected expression, found end of input".to_owned(),
        }
    }
}

impl ParseError {
    /// The error in words, its kind first.
    pub open spec fn text(self) -> Seq<char> {
        match self {
            ParseError::Lex(e) => "lexical error: "@ + e.text(),
            ParseError::Syntax(e) => "syntax error: "@ + e.text(),
        }
    }

    /// The error in words, its kind first.
    pub fn message(&self) -> (s: String)
        ensures
            s@ == self.text(),
    {
        match self {
            ParseError::Lex(e) => {
                let mut s = "lexical error: ".to_owned();
                s.append(e.message().as_str());
                s
            },
            ParseError::Syntax(e) => {
                let mut s = "syntax error: ".to_owned();
                s.append(e.message().as_str());
                s
            },
        }
    }
}

} // verus!
