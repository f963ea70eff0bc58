//! Splitting the text of an expression into tokens.
//!
//! A stream that runs to the end of its text closes with `EOF`.  It ends
//! early, without `EOF` and without an item, at a character that starts no
//! token and at a number directly followed by `(`; blanks are not skipped,
//! they are such characters.  [`Tokenizer::error`] then tells which of the
//! two it was, and [`tokenize`] reports it.  A number with more than one
//! decimal point is handed out as the error that it is.
use vstd::pervasive::unreached;
use vstd::prelude::*;
use crate::parsemath::error::LexError;
use crate::parsemath::token::{
    Literal, Token, TokenView, digit, is_digit, is_literal, is_number_char, number_char, single_point,
    token_views,
};
use crate::text::chars_of;

verus! {

/// The token that the single character `c` stands for, if any.
pub open spec fn symbol(c: char) -> Option<TokenView> {
    if c == '+' {
        Some(TokenView::Add)
    } else if c == '-' {
        Some(TokenView::Subtract)
    } else if c == '*' {
        Some(TokenView::Multiply)
    } else if c == '/' {
        Some(TokenView::Divide)
    } else if c == '^' {
        Some(TokenView::Caret)
    } else if c == '(' {
        Some(TokenView::LeftParen)
    } else if c == ')' {
        Some(TokenView::RightParen)
    } else {
        None
    }
}

/// How many characters at the start of `s` are digits or decimal points.
pub open spec fn run_length(s: Seq<char>) -> nat
    decreases s.len(),
{
    if s.len() > 0 && is_number_char(s[0]) {
        1 + run_length(s.skip(1))
    } else {
        0
    }
}

/// `n` is where the run of digits and decimal points at the start of `s`
/// ends: everything before `n` belongs to the run, and what stands at `n`,
/// if anything, does not.
pub open spec fn is_run_end(s: Seq<char>, n: int) -> bool {
    &&& 0 <= n <= s.len()
    &&& forall|i: int| 0 <= i < n ==> is_number_char(#[trigger] s[i])
    &&& n < s.len() ==> !is_number_char(s[n])
}

/// One pull on the input `s`: the token or the error that it gives, and the
/// input that is left behind.
pub open spec fn scan(s: Seq<char>) -> (Result<TokenView, LexError>, Seq<char>) {
    if s.len() == 0 {
        (Ok(TokenView::EOF), s)
    } else if is_digit(s[0]) {
        let n = run_length(s) as int;
        let rest = s.skip(n);
        if rest.len() > 0 && rest[0] == '(' {
            (Err(LexError::ImplicitMultiplication), rest)
        } else if !single_point(s.take(n)) {
            (Err(LexError::MalformedNumber), rest)
        } else {
            (Ok(TokenView::Num(s.take(n))), rest)
        }
    } else {
        match symbol(s[0]) {
            Some(t) => (Ok(t), s.skip(1)),
            None => (Err(LexError::UnrecognizedCharacter(s[0])), s.skip(1)),
        }
    }
}

/// Whether the stream ends with what a pull found: after an error and after
/// `EOF` nothing more is handed out.
pub open spec fn ends_stream(found: Result<TokenView, LexError>) -> bool {
    found is Err || found == Ok::<TokenView, LexError>(TokenView::EOF)
}

/// What a pull hands out for what it found.  A token is handed out, and so
/// is a malformed number, as an error.  At a character that starts no token
/// and at a number before `(` nothing is handed out: the stream just ends.
pub open spec fn handed_out(found: Result<TokenView, LexError>) -> Option<
    Result<TokenView, LexError>,
> {
    match found {
        Ok(t) => Some(Ok(t)),
        Err(LexError::MalformedNumber) => Some(Err(LexError::MalformedNumber)),
        Err(_) => None,
    }
}

/// The error, if any, in what a pull found.
pub open spec fn fault_of(found: Result<TokenView, LexError>) -> Option<LexError> {
    match found {
        Ok(_) => None,
        Err(e) => Some(e),
    }
}

/// All the tokens of the input `s`, the closing `EOF` included, or the first
/// error met on the way.
pub open spec fn lex(s: Seq<char>) -> Result<Seq<TokenView>, LexError>
    decreases s.len(),
{
    let (item, rest) = scan(s);
    match item {
        Err(e) => Err(e),
        Ok(TokenView::EOF) => Ok(seq![TokenView::EOF]),
        Ok(t) => {
            proof {
                lemma_run_length(s);
            }
            match lex(rest) {
                Ok(ts) => Ok(seq![t] + ts),
                Err(e) => Err(e),
            }
        },
    }
}

/// [`run_length`] gives the end of the run, and nothing else is the end.
pub proof fn lemma_run_length(s: Seq<char>)
    ensures
        is_run_end(s, run_length(s) as int),
        forall|n: int| is_run_end(s, n) ==> n == run_length(s),
    decreases s.len(),
{
    if s.len() > 0 && is_number_char(s[0]) {
        let t = s.skip(1);
        lemma_run_length(t);
        let m = run_length(t) as int;
        assert forall|i: int| 0 <= i < m + 1 implies is_number_char(#[trigger] s[i]) by {
            if i > 0 {
                assert(s[i] == t[i - 1]);
            }
        }
        if m + 1 < s.len() {
            assert(s[m + 1] == t[m]);
        }
        assert forall|n: int| is_run_end(s, n) implies n == run_length(s) by {
            assert(n > 0);
            assert forall|i: int| 0 <= i < n - 1 implies is_number_char(#[trigger] t[i]) by {
                assert(t[i] == s[i + 1]);
            }
            if n - 1 < t.len() {
                assert(t[n - 1] == s[n]);
            }
            assert(is_run_end(t, n - 1));
        }
    } else {
        assert forall|n: int| is_run_end(s, n) implies n == run_length(s) by {
            if n > 0 {
                assert(is_number_char(s[0]));
            }
        }
    }
}

/// The cursor only moves forward: what a pull leaves behind is the end of
/// what it found, and shorter if a token other than `EOF` was handed out.
pub proof fn lemma_scan_advances(s: Seq<char>)
    ensures
        scan(s).1.len() <= s.len(),
        scan(s).1 == s.skip(s.len() - scan(s).1.len()),
        !ends_stream(scan(s).0) ==> scan(s).1.len() < s.len(),
{
    lemma_run_length(s);
    assert(s.skip(0) =~= s);
}

/// A decimal literal on its own is one number token, followed by `EOF`.
pub proof fn lemma_literal_is_one_token(s: Seq<char>)
    requires
        is_literal(s),
    ensures
        lex(s) == Ok::<Seq<TokenView>, LexError>(seq![TokenView::Num(s), TokenView::EOF]),
{
    lemma_run_length(s);
    let n = s.len() as int;
    assert(is_run_end(s, n));
    assert(s.take(n) =~= s);
    let rest = s.skip(n);
    assert(rest.len() == 0);
    assert(scan(s) == (Ok::<TokenView, LexError>(TokenView::Num(s)), rest));
    assert(lex(rest) == Ok::<Seq<TokenView>, LexError>(seq![TokenView::EOF]));
    assert(seq![TokenView::Num(s)] + seq![TokenView::EOF] =~= seq![TokenView::Num(s), TokenView::EOF]);
}

/// A pull ends the stream without an item exactly at a character that
/// starts no token and at a number directly before `(`.
pub proof fn lemma_silent_end(s: Seq<char>)
    ensures
        handed_out(scan(s).0) is None <==> s.len() > 0 && if is_digit(s[0]) {
            run_length(s) < s.len() && s[run_length(s) as int] == '('
        } else {
            symbol(s[0]) is None
        },
{
    lemma_run_length(s);
}

/// Every number token that a pull hands out holds a decimal literal.
pub proof fn lemma_scan_number_is_literal(s: Seq<char>)
    ensures
        scan(s).0 matches Ok(TokenView::Num(text)) ==> is_literal(text),
{
    lemma_run_length(s);
}

/// The tokens of a text end with `EOF`, hold no `EOF` before that, and
/// every number among them is a decimal literal.
pub proof fn lemma_lex_shape(s: Seq<char>)
    ensures
        lex(s) matches Ok(ts) ==> {
            &&& ts.len() > 0
            &&& ts.last() is EOF
            &&& forall|i: int| 0 <= i < ts.len() - 1 ==> !(#[trigger] ts[i] is EOF)
            &&& forall|i: int| 0 <= i < ts.len() ==> (#[trigger] ts[i] matches TokenView::Num(text)
                ==> is_literal(text))
        },
    decreases s.len(),
{
    let (item, rest) = scan(s);
    if let Ok(t) = item {
        if !(t is EOF) {
            lemma_run_length(s);
            lemma_lex_shape(rest);
            if let Ok(tail) = lex(rest) {
                let ts = seq![t] + tail;
                assert(ts.last() == tail.last());
                assert forall|i: int| 0 <= i < ts.len() - 1 implies !(#[trigger] ts[i] is EOF) by {
                    if i > 0 {
                        assert(ts[i] == tail[i - 1]);
                    }
                }
                assert forall|i: int| 0 <= i < ts.len() implies (#[trigger] ts[i] matches TokenView::Num(
                    text,
                ) ==> is_literal(text)) by {
                    if i > 0 {
                        assert(ts[i] == tail[i - 1]);
                    }
                }
            }
        }
    }
}

/// An opening parenthesis before a text is one more token before the
/// tokens of the text.
pub proof fn lemma_lex_opened(s: Seq<char>)
    ensures
        lex(seq!['('] + s) == match lex(s) {
            Ok(ts) => Ok::<Seq<TokenView>, LexError>(seq![TokenView::LeftParen] + ts),
            Err(e) => Err(e),
        },
{
    let opened = seq!['('] + s;
    assert(opened[0] == '(');
    assert(opened.skip(1) =~= s);
}

/// A closing parenthesis behind a text that has tokens is one more token
/// behind them, before `EOF`.
pub proof fn lemma_lex_closed(s: Seq<char>)
    requires
        lex(s) is Ok,
    ensures
        lex(s.push(')')) == Ok::<Seq<TokenView>, LexError>(
            lex(s)->Ok_0.drop_last().push(TokenView::RightParen).push(TokenView::EOF),
        ),
    decreases s.len(),
{
    let closed = s.push(')');
    let ts = lex(s)->Ok_0;
    if s.len() == 0 {
        assert(closed[0] == ')');
        assert(closed.skip(1) =~= Seq::<char>::empty());
        assert(lex(closed.skip(1)) == Ok::<Seq<TokenView>, LexError>(seq![TokenView::EOF]));
        assert(seq![TokenView::RightParen] + seq![TokenView::EOF] =~= ts.drop_last().push(
            TokenView::RightParen,
        ).push(TokenView::EOF));
    } else {
        let (item, rest) = scan(s);
        let t = item->Ok_0;
        let tail = lex(rest)->Ok_0;
        lemma_run_length(s);
        lemma_run_length(closed);
        assert(closed[0] == s[0]);
        if is_digit(s[0]) {
            let n = run_length(s) as int;
            assert(is_run_end(closed, n)) by {
                assert forall|i: int| 0 <= i < n implies is_number_char(#[trigger] closed[i]) by {
                    assert(closed[i] == s[i]);
                }
                if n < s.len() {
                    assert(closed[n] == s[n]);
                } else {
                    assert(closed[n] == ')');
                }
            }
            assert(closed.take(n) =~= s.take(n));
            assert(closed.skip(n) =~= rest.push(')'));
            if rest.len() > 0 {
                assert(rest.push(')')[0] == rest[0]);
            }
        } else {
            assert(closed.skip(1) =~= rest.push(')'));
        }
        assert(scan(closed) == (item, rest.push(')')));
        lemma_lex_closed(rest);
        lemma_lex_shape(rest);
        assert(seq![t] + tail.drop_last().push(TokenView::RightParen).push(TokenView::EOF) =~= (seq![
            t,
        ] + tail).drop_last().push(TokenView::RightParen).push(TokenView::EOF));
    }
}

/// The view of what one pull hands out.
pub open spec fn item_view(item: Option<Result<Token, LexError>>) -> Option<
    Result<TokenView, LexError>,
> {
    match item {
        Some(Ok(t)) => Some(Ok(t@)),
        Some(Err(e)) => Some(Err(e)),
        None => None,
    }
}

/// A forward-only cursor over the characters of one expression.
pub struct Tokenizer {
    chars: Vec<char>,
    pos: usize,
    done: bool,
    fault: Option<LexError>,
}

impl Tokenizer {
    #[verifier::type_invariant]
    spec fn well_formed(self) -> bool {
        self.pos <= self.chars@.len()
    }

    /// The characters that have not been consumed yet.
    pub closed spec fn remaining(&self) -> Seq<char> {
        self.chars@.skip(self.pos as int)
    }

    /// Whether the stream has ended.
    pub closed spec fn is_done(&self) -> bool {
        self.done
    }

    /// The error that the last pull met, if it met one.
    pub closed spec fn fault(&self) -> Option<LexError> {
        self.fault
    }

    /// A tokenizer at the start of `new_expr`.
    pub fn new(new_expr: &str) -> (t: Tokenizer)
        ensures
            t.remaining() == new_expr@,
            !t.is_done(),
            t.fault() is None,
    {
        let chars = chars_of(new_expr);
        Tokenizer { chars, pos: 0, done: false, fault: None }
    }

    /// Why the stream ended, where it ended on an error: the way to tell an
    /// early end from the one that follows `EOF`.
    pub fn error(&self) -> (e: Option<LexError>)
        ensures
            e == self.fault(),
    {
        self.fault
    }

    /// Hands out the next token.
    ///
    /// At the end of the input this is `EOF`, once.  A number with more than
    /// one decimal point is handed out as an error.  At a character that
    /// starts no token and at a number directly before `(` the pull gives
    /// `None` at once.  After any of these the stream has ended and every
    /// further pull gives `None`.
    pub fn next(&mut self) -> (item: Option<Result<Token, LexError>>)
        ensures
            old(self).is_done() ==> {
                &&& item is None
                &&& final(self).is_done()
                &&& final(self).remaining() == old(self).remaining()
                &&& final(self).fault() == old(self).fault()
            },
            !old(self).is_done() ==> ({
                let (found, rest) = scan(old(self).remaining());
                &&& item_view(item) == handed_out(found)
                &&& final(self).remaining() == rest
                &&& final(self).is_done() == ends_stream(found)
                &&& final(self).fault() == fault_of(found)
            }),
    {
        proof {
            use_type_invariant(&*self);
        }
        if self.done {
            return None;
        }
        let ghost input = self.remaining();
        self.fault = None;
        if self.pos >= self.chars.len() {
            self.done = true;
            return Some(Ok(Token::EOF));
        }
        let start = self.pos;
        let c = self.chars[start];
        assert(input[0] == c);
        if digit(c) {
            let mut text: Vec<char> = Vec::new();
            let mut i = start;
            while i < self.chars.len() && number_char(self.chars[i])
                invariant
                    start <= i <= self.chars@.len(),
                    self.pos == start,
                    input == self.chars@.skip(start as int),
                    text@ == self.chars@.subrange(start as int, i as int),
                    forall|k: int| 0 <= k < i - start ==> is_number_char(#[trigger] input[k]),
                decreases self.chars@.len() - i,
            {
                text.push(self.chars[i]);
                assert(input[i - start] == self.chars@[i as int]);
                i += 1;
                assert(text@ =~= self.chars@.subrange(start as int, i as int));
            }
            let ghost n = i - start;
            proof {
                if n < input.len() {
                    assert(input[n] == self.chars@[i as int]);
                }
                assert(is_run_end(input, n));
                lemma_run_length(input);
                assert(text@ =~= input.take(n));
                assert(self.chars@.skip(i as int) =~= input.skip(n));
            }
            self.pos = i;
            if i < self.chars.len() && self.chars[i] == '(' {
                assert(input.skip(n)[0] == self.chars@[i as int]);
                self.done = true;
                self.fault = Some(LexError::ImplicitMultiplication);
                return None;
            }
            proof {
                if input.skip(n).len() > 0 {
                    assert(input.skip(n)[0] == self.chars@[i as int]);
                }
            }
            match Literal::new(text) {
                Some(lit) => Some(Ok(Token::Num(lit))),
                None => {
                    self.done = true;
                    self.fault = Some(LexError::MalformedNumber);
                    Some(Err(LexError::MalformedNumber))
                },
            }
        } else {
            self.pos = start + 1;
            assert(self.chars@.skip(start + 1) =~= input.skip(1));
            match c {
                '+' => Some(Ok(Token::Add)),
                '-' => Some(Ok(Token::Subtract)),
                '*' => Some(Ok(Token::Multiply)),
                '/' => Some(Ok(Token::Divide)),
                '^' => Some(Ok(Token::Caret)),
                '(' => Some(Ok(Token::LeftParen)),
                ')' => Some(Ok(Token::RightParen)),
                _ => {
                    self.done = true;
                    self.fault = Some(LexError::UnrecognizedCharacter(c));
                    None
                },
            }
        }
    }
}

/// Splits `expr` into its tokens, the closing `EOF` included.
///
/// The first error ends the work: no tokens are handed out beside it.  A
/// stream that ends before its `EOF` is reported as the error that ended it.
pub fn tokenize(expr: &str) -> (r: Result<Vec<Token>, LexError>)
    ensures
        match lex(expr@) {
            Ok(ts) => r matches Ok(v) && token_views(v@) == ts,
            Err(e) => r == Err::<Vec<Token>, LexError>(e),
        },
{
    let mut tokenizer = Tokenizer::new(expr);
    let mut tokens: Vec<Token> = Vec::new();
    loop
        invariant
            !tokenizer.is_done(),
            match lex(tokenizer.remaining()) {
                Ok(ts) => lex(expr@) == Ok::<Seq<TokenView>, LexError>(token_views(tokens@) + ts),
                Err(e) => lex(expr@) == Err::<Seq<TokenView>, LexError>(e),
            },
        decreases tokenizer.remaining().len(),
    {
        let ghost before = tokenizer.remaining();
        let ghost seen = token_views(tokens@);
        proof {
            lemma_scan_advances(before);
        }
        match tokenizer.next() {
            Some(Ok(token)) => {
                let at_end = matches!(token, Token::EOF);
                let ghost t = token@;
                tokens.push(token);
                proof {
                    assert(token_views(tokens@) =~= seen + seq![t]);
                    match lex(tokenizer.remaining()) {
                        Ok(ts) => {
                            assert((seen + seq![t]) + ts =~= seen + (seq![t] + ts));
                        },
                        Err(e) => {},
                    }
                }
                if at_end {
                    return Ok(tokens);
                }
            },
            Some(Err(e)) => {
                return Err(e);
            },
            None => {
                return match tokenizer.error() {
                    Some(e) => Err(e),
                    None => unreached(),
                };
            },
        }
    }
}

} // verus!
