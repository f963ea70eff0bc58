use rust_system::parsemath::ast::{Expr, Operator};
use rust_system::parsemath::error::{LexError, ParseError, SyntaxError};
use rust_system::parsemath::evaluation::{schedule, Step};
use rust_system::parsemath::parser::{parse_expression, Parser};
use rust_system::parsemath::token::{Literal, Token};

fn n(text: &str) -> Expr {
    Expr::Number(Literal::new(text.chars().collect()).unwrap())
}

fn bin(op: Operator, left: Expr, right: Expr) -> Expr {
    Expr::BinaryOp(op, Box::new(left), Box::new(right))
}

fn neg(operand: Expr) -> Expr {
    Expr::UnaryMinus(Box::new(operand))
}

fn eval(tree: &Expr) -> f64 {
    let mut stack: Vec<f64> = Vec::new();
    for step in schedule(tree) {
        match step {
            Step::Push(lit) => stack.push(lit.text().iter().collect::<String>().parse().unwrap()),
            Step::Apply(op) => {
                let r = stack.pop().unwrap();
                let l = stack.pop().unwrap();
                stack.push(match op {
                    Operator::Add => l + r,
                    Operator::Subtract => l - r,
                    Operator::Multiply => l * r,
                    Operator::Divide => l / r,
                    Operator::Caret => l.powf(r),
                });
            }
            Step::Negate => {
                let v = stack.pop().unwrap();
                stack.push(-v);
            }
        }
    }
    assert_eq!(stack.len(), 1);
    stack[0]
}

fn syntax(input: &str) -> Result<Expr, ParseError> {
    parse_expression(input)
}

#[test]
fn one_plus_two_is_three() {
    let tree = parse_expression("1+2").unwrap();
    assert_eq!(tree, bin(Operator::Add, n("1"), n("2")));
    assert_eq!(eval(&tree), 3.0);
}

#[test]
fn subtraction_follows_multiplication() {
    let tree = parse_expression("2*3-4").unwrap();
    assert_eq!(tree, bin(Operator::Subtract, bin(Operator::Multiply, n("2"), n("3")), n("4")));
    assert_eq!(eval(&tree), 2.0);
}

#[test]
fn multiplication_binds_tighter_than_addition() {
    let tree = parse_expression("2+3*4").unwrap();
    assert_eq!(tree, bin(Operator::Add, n("2"), bin(Operator::Multiply, n("3"), n("4"))));
    assert_eq!(eval(&tree), 14.0);
}

#[test]
fn parentheses_group() {
    let tree = parse_expression("(2+3)*4").unwrap();
    assert_eq!(tree, bin(Operator::Multiply, bin(Operator::Add, n("2"), n("3")), n("4")));
    assert_eq!(eval(&tree), 20.0);
}

#[test]
fn unterminated_group_is_a_syntax_error() {
    assert_eq!(syntax("(2+3"), Err(ParseError::Syntax(SyntaxError::UnterminatedGroup)));
    assert_eq!(syntax("((1)"), Err(ParseError::Syntax(SyntaxError::UnterminatedGroup)));
}

#[test]
fn exponentiation_groups_to_the_right() {
    let tree = parse_expression("2^3^2").unwrap();
    assert_eq!(tree, bin(Operator::Caret, n("2"), bin(Operator::Caret, n("3"), n("2"))));
    assert_eq!(eval(&tree), 512.0);
}

#[test]
fn division_by_zero_is_infinite() {
    assert_eq!(eval(&parse_expression("1/0").unwrap()), f64::INFINITY);
    assert_eq!(eval(&parse_expression("-1/0").unwrap()), f64::NEG_INFINITY);
    assert!(eval(&parse_expression("0/0").unwrap()).is_nan());
}

#[test]
fn minus_one_over_zero_negates_first() {
    assert_eq!(parse_expression("-1/0"), Ok(bin(Operator::Divide, neg(n("1")), n("0"))));
}

#[test]
fn subtraction_and_division_group_to_the_left() {
    let tree = parse_expression("8-3-2").unwrap();
    assert_eq!(tree, bin(Operator::Subtract, bin(Operator::Subtract, n("8"), n("3")), n("2")));
    assert_eq!(eval(&tree), 3.0);
    let tree = parse_expression("8/4/2").unwrap();
    assert_eq!(tree, bin(Operator::Divide, bin(Operator::Divide, n("8"), n("4")), n("2")));
    assert_eq!(eval(&tree), 1.0);
}

#[test]
fn unary_minus_binds_tighter_than_caret() {
    let tree = parse_expression("-2^2").unwrap();
    assert_eq!(tree, bin(Operator::Caret, neg(n("2")), n("2")));
    assert_eq!(eval(&tree), 4.0);
}

#[test]
fn unary_minus_may_repeat_and_follow_an_operator() {
    assert_eq!(parse_expression("--3"), Ok(neg(neg(n("3")))));
    assert_eq!(parse_expression("2^-1"), Ok(bin(Operator::Caret, n("2"), neg(n("1")))));
    assert_eq!(eval(&parse_expression("2^-1").unwrap()), 0.5);
    assert_eq!(parse_expression("4--1"), Ok(bin(Operator::Subtract, n("4"), neg(n("1")))));
}

#[test]
fn fractional_exponent() {
    assert_eq!(eval(&parse_expression("9^0.5").unwrap()), 3.0);
}

#[test]
fn empty_input_expects_an_expression() {
    assert_eq!(syntax(""), Err(ParseError::Syntax(SyntaxError::ExpectedExpression)));
}

#[test]
fn missing_operand_expects_an_expression() {
    assert_eq!(syntax("2+"), Err(ParseError::Syntax(SyntaxError::ExpectedExpression)));
    assert_eq!(syntax("(2*"), Err(ParseError::Syntax(SyntaxError::ExpectedExpression)));
    assert_eq!(syntax("-"), Err(ParseError::Syntax(SyntaxError::ExpectedExpression)));
}

#[test]
fn trailing_tokens_are_unexpected() {
    assert_eq!(syntax("2+3)"), Err(ParseError::Syntax(SyntaxError::UnexpectedToken)));
    assert_eq!(syntax("(2)(3)"), Err(ParseError::Syntax(SyntaxError::UnexpectedToken)));
}

#[test]
fn two_numbers_without_operator_are_unexpected() {
    let lit = |s: &str| Token::Num(Literal::new(s.chars().collect()).unwrap());
    let tokens = vec![lit("1"), lit("2"), Token::EOF];
    assert_eq!(Parser::new(tokens).parse(), Err(SyntaxError::UnexpectedToken));
}

#[test]
fn operator_in_operand_place_is_unexpected() {
    assert_eq!(syntax("2+*3"), Err(ParseError::Syntax(SyntaxError::UnexpectedToken)));
    assert_eq!(syntax("()"), Err(ParseError::Syntax(SyntaxError::UnexpectedToken)));
    assert_eq!(syntax("*2"), Err(ParseError::Syntax(SyntaxError::UnexpectedToken)));
}

#[test]
fn lexical_errors_come_first() {
    assert_eq!(syntax("2+3) x"), Err(ParseError::Lex(LexError::UnrecognizedCharacter(' '))));
    assert_eq!(syntax("2(3+4)"), Err(ParseError::Lex(LexError::ImplicitMultiplication)));
    assert_eq!(syntax("(1.2.3"), Err(ParseError::Lex(LexError::MalformedNumber)));
}

#[test]
fn tokens_may_end_without_eof() {
    let lit = |s: &str| Token::Num(Literal::new(s.chars().collect()).unwrap());
    assert_eq!(Parser::new(vec![lit("5")]).parse(), Ok(n("5")));
    assert_eq!(Parser::new(vec![Token::LeftParen, lit("5")]).parse(), Err(SyntaxError::UnterminatedGroup));
    assert_eq!(Parser::new(Vec::new()).parse(), Err(SyntaxError::ExpectedExpression));
}

#[test]
fn routines_can_be_called_one_by_one() {
    let lit = |s: &str| Token::Num(Literal::new(s.chars().collect()).unwrap());
    let mut parser = Parser::new(vec![lit("2"), Token::Multiply, lit("3"), Token::Add, lit("4"), Token::EOF]);
    assert_eq!(parser.parse_primary(), Ok(n("2")));
    let mut parser = Parser::new(vec![lit("2"), Token::Multiply, lit("3"), Token::Add, lit("4"), Token::EOF]);
    assert_eq!(parser.parse_term(), Ok(bin(Operator::Multiply, n("2"), n("3"))));
    assert_eq!(parser.parse(), Err(SyntaxError::UnexpectedToken));
}

#[test]
fn parsing_twice_gives_the_same_tree() {
    let first = parse_expression("(1+2)*3^-4/5");
    let second = parse_expression("(1+2)*3^-4/5");
    assert_eq!(first, second);
    assert_eq!(eval(&first.unwrap()).to_bits(), eval(&second.unwrap()).to_bits());
}

#[test]
fn redundant_parentheses_change_nothing() {
    let plain = parse_expression("1+2*3-4/5").unwrap();
    assert_eq!(parse_expression("(1+(2*3))-(4/5)").unwrap(), plain);
    assert_eq!(parse_expression("((1+2*3)-4/5)").unwrap(), plain);
    assert_eq!(parse_expression("((1)+((2)*(3)))-((4)/(5))").unwrap(), plain);
    assert_eq!(eval(&plain), 1.0 + 2.0 * 3.0 - 4.0 / 5.0);
}

#[test]
fn clone_copies_the_tree() {
    let tree = parse_expression("-(1+2)^3").unwrap();
    assert_eq!(tree.clone(), tree);
}

#[test]
fn errors_in_words() {
    assert_eq!(SyntaxError::UnterminatedGroup.message(), "unterminated group");
    assert_eq!(SyntaxError::UnexpectedToken.message(), "unexpected token");
    assert_eq!(SyntaxError::ExpectedExpression.message(), "expected expression, found end of input");
    assert_eq!(LexError::UnrecognizedCharacter('x').message(), "unrecognized character x");
    assert_eq!(LexError::MalformedNumber.message(), "malformed number");
    assert_eq!(
        LexError::ImplicitMultiplication.message(),
        "number directly before an opening parenthesis"
    );
    assert_eq!(syntax("(2+3").unwrap_err().message(), "syntax error: unterminated group");
    assert_eq!(syntax("2 3").unwrap_err().message(), "lexical error: unrecognized character  ");
}

#[test]
fn schedule_lists_operands_before_their_operator() {
    let lit = |s: &str| Literal::new(s.chars().collect()).unwrap();
    let tree = parse_expression("1-2*-3").unwrap();
    assert_eq!(
        schedule(&tree),
        vec![
            Step::Push(lit("1")),
            Step::Push(lit("2")),
            Step::Push(lit("3")),
            Step::Negate,
            Step::Apply(Operator::Multiply),
            Step::Apply(Operator::Subtract),
        ]
    );
    assert_eq!(eval(&tree), 7.0);
    assert_eq!(schedule(&n("5")), vec![Step::Push(lit("5"))]);
}

#[test]
fn operands_keep_their_sides() {
    assert_eq!(eval(&parse_expression("8-2").unwrap()), 6.0);
    assert_eq!(eval(&parse_expression("8/2").unwrap()), 4.0);
    assert_eq!(eval(&parse_expression("2^10").unwrap()), 1024.0);
    assert_eq!(eval(&parse_expression("-(3)").unwrap()), -3.0);
}

#[test]
fn parentheses_around_a_text_change_nothing() {
    for text in ["1", "1+2", "2*3-4", "-2^2", "(1+2)*3", "8/4/2", "2^3^2", "--7.5"] {
        let plain = parse_expression(text).unwrap();
        let wrapped = parse_expression(&format!("({})", text)).unwrap();
        assert_eq!(wrapped, plain);
        assert_eq!(eval(&wrapped).to_bits(), eval(&plain).to_bits());
    }
}
