use rust_system::parsemath::error::LexError;
use rust_system::parsemath::token::{Literal, Token};
use rust_system::parsemath::tokenizer::{tokenize, Tokenizer};

fn num(text: &str) -> Token {
    Token::Num(Literal::new(text.chars().collect()).unwrap())
}

fn value(token: &Token) -> f64 {
    match token {
        Token::Num(lit) => lit.text().iter().collect::<String>().parse().unwrap(),
        _ => panic!("not a number"),
    }
}

#[test]
fn literal_accepts_digits_and_one_point() {
    assert!(Literal::new("42".chars().collect()).is_some());
    assert!(Literal::new("3.14".chars().collect()).is_some());
    assert!(Literal::new("7.".chars().collect()).is_some());
}

#[test]
fn literal_refuses_what_is_no_number() {
    assert!(Literal::new(Vec::new()).is_none());
    assert!(Literal::new(".5".chars().collect()).is_none());
    assert!(Literal::new("1.2.3".chars().collect()).is_none());
    assert!(Literal::new("12a".chars().collect()).is_none());
    assert!(Literal::new("-1".chars().collect()).is_none());
}

#[test]
fn literal_keeps_its_text() {
    let lit = Literal::new("20.5".chars().collect()).unwrap();
    assert_eq!(lit.text(), &vec!['2', '0', '.', '5']);
    assert_eq!(lit.clone(), lit);
}

#[test]
fn digits_alone_are_one_number() {
    assert_eq!(tokenize("12345"), Ok(vec![num("12345"), Token::EOF]));
    assert_eq!(tokenize("0"), Ok(vec![num("0"), Token::EOF]));
}

#[test]
fn decimal_alone_is_one_number() {
    let tokens = tokenize("3.25").unwrap();
    assert_eq!(tokens, vec![num("3.25"), Token::EOF]);
    assert_eq!(value(&tokens[0]), 3.25);
}

#[test]
fn one_plus_two_tokens() {
    let tokens = tokenize("1+2").unwrap();
    assert_eq!(tokens, vec![num("1"), Token::Add, num("2"), Token::EOF]);
    assert_eq!(value(&tokens[0]), 1.0);
    assert_eq!(value(&tokens[2]), 2.0);
}

#[test]
fn every_symbol_is_its_own_token() {
    assert_eq!(
        tokenize("+-*/^()"),
        Ok(vec![
            Token::Add,
            Token::Subtract,
            Token::Multiply,
            Token::Divide,
            Token::Caret,
            Token::LeftParen,
            Token::RightParen,
            Token::EOF,
        ])
    );
}

#[test]
fn empty_text_is_eof_alone() {
    assert_eq!(tokenize(""), Ok(vec![Token::EOF]));
}

#[test]
fn pulls_end_after_eof() {
    let mut tokenizer = Tokenizer::new("7");
    assert_eq!(tokenizer.next(), Some(Ok(num("7"))));
    assert_eq!(tokenizer.next(), Some(Ok(Token::EOF)));
    assert_eq!(tokenizer.next(), None);
    assert_eq!(tokenizer.next(), None);
}

#[test]
fn stream_ends_silently_at_a_character_that_starts_no_token() {
    let mut tokenizer = Tokenizer::new("1a+2");
    assert_eq!(tokenizer.next(), Some(Ok(num("1"))));
    assert_eq!(tokenizer.error(), None);
    assert_eq!(tokenizer.next(), None);
    assert_eq!(tokenizer.error(), Some(LexError::UnrecognizedCharacter('a')));
    assert_eq!(tokenizer.next(), None);
    assert_eq!(tokenizer.error(), Some(LexError::UnrecognizedCharacter('a')));
}

#[test]
fn first_pull_is_none_for_blank_letter_and_leading_point() {
    for text in [" 1", "x", ".5", "=", "\t"] {
        let mut tokenizer = Tokenizer::new(text);
        assert_eq!(tokenizer.next(), None);
        assert_eq!(tokenizer.error(), Some(LexError::UnrecognizedCharacter(text.chars().next().unwrap())));
    }
}

#[test]
fn first_pull_is_some_for_every_token_and_for_the_end() {
    for text in ["", "0", "1.5", "7+", "+", "-", "*", "/", "^", "(", ")", "12)"] {
        let mut tokenizer = Tokenizer::new(text);
        assert!(tokenizer.next().is_some());
        assert_eq!(tokenizer.error(), None);
    }
}

#[test]
fn malformed_number_is_handed_out_as_an_error() {
    let mut tokenizer = Tokenizer::new("1.2.3+4");
    assert_eq!(tokenizer.next(), Some(Err(LexError::MalformedNumber)));
    assert_eq!(tokenizer.error(), Some(LexError::MalformedNumber));
    assert_eq!(tokenizer.next(), None);
    assert_eq!(tokenizer.error(), Some(LexError::MalformedNumber));
}

#[test]
fn proper_end_leaves_no_error() {
    let mut tokenizer = Tokenizer::new("2");
    assert_eq!(tokenizer.next(), Some(Ok(num("2"))));
    assert_eq!(tokenizer.next(), Some(Ok(Token::EOF)));
    assert_eq!(tokenizer.next(), None);
    assert_eq!(tokenizer.error(), None);
}

#[test]
fn blanks_are_not_skipped() {
    assert_eq!(tokenize("1 + 2"), Err(LexError::UnrecognizedCharacter(' ')));
}

#[test]
fn letters_are_refused() {
    assert_eq!(tokenize("2*x"), Err(LexError::UnrecognizedCharacter('x')));
}

#[test]
fn number_before_parenthesis_ends_the_stream() {
    assert_eq!(tokenize("2(3+4)"), Err(LexError::ImplicitMultiplication));
    let mut tokenizer = Tokenizer::new("2(3+4)");
    assert_eq!(tokenizer.next(), None);
    assert_eq!(tokenizer.error(), Some(LexError::ImplicitMultiplication));
    assert_eq!(tokenizer.next(), None);
    let mut tokenizer = Tokenizer::new("1+2.5(3)");
    assert_eq!(tokenizer.next(), Some(Ok(num("1"))));
    assert_eq!(tokenizer.next(), Some(Ok(Token::Add)));
    assert_eq!(tokenizer.next(), None);
    assert_eq!(tokenizer.error(), Some(LexError::ImplicitMultiplication));
}

#[test]
fn parenthesis_wins_over_malformed_number() {
    assert_eq!(tokenize("1.2.3(4)"), Err(LexError::ImplicitMultiplication));
    assert_eq!(Tokenizer::new("1.2.3(4)").next(), None);
}

#[test]
fn two_points_are_a_malformed_number() {
    assert_eq!(tokenize("1.2.3"), Err(LexError::MalformedNumber));
    assert_eq!(tokenize("4+1..2"), Err(LexError::MalformedNumber));
}

#[test]
fn point_cannot_start_a_number() {
    assert_eq!(tokenize(".5"), Err(LexError::UnrecognizedCharacter('.')));
}

#[test]
fn number_runs_as_far_as_it_can() {
    assert_eq!(tokenize("12.5*3"), Ok(vec![num("12.5"), Token::Multiply, num("3"), Token::EOF]));
}

#[test]
fn tokenizing_twice_gives_the_same() {
    assert_eq!(tokenize("(1+2)*3^4"), tokenize("(1+2)*3^4"));
    assert_eq!(tokenize("1 2"), tokenize("1 2"));
}

#[test]
fn every_literal_is_one_number_and_eof() {
    for text in ["0", "7", "42", "007", "3.14", "10.", "0.5", "123456789012345678901234567890"] {
        assert_eq!(tokenize(text), Ok(vec![num(text), Token::EOF]));
    }
}

#[test]
fn long_literal_keeps_every_digit() {
    let tokens = tokenize("123456789012345678901234567890").unwrap();
    assert_eq!(value(&tokens[0]), 1.2345678901234568e29);
}
