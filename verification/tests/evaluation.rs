use exprcalc::arith::{divide, factorial, power, remainder};
use exprcalc::error::{ArithmeticError, CalcError, StructuralError};
use exprcalc::eval::apply_token;
use exprcalc::evaluate;
use exprcalc::token::{Function, Operator, Token};

fn num(n: i64) -> Token {
    Token::Number(n)
}

fn op(o: Operator) -> Token {
    Token::Operator(o)
}

fn apply_binary(o: Operator, l: i64, r: i64) -> Result<i64, CalcError> {
    apply_token(vec![l, r], op(o)).map(|stack| stack[0])
}

#[test]
fn factorial_values() {
    assert_eq!(factorial(0), Ok(1));
    assert_eq!(factorial(1), Ok(1));
    assert_eq!(factorial(2), Ok(2));
    assert_eq!(factorial(3), Ok(6));
    assert_eq!(factorial(4), Ok(24));
    assert_eq!(factorial(10), Ok(3628800));
    assert_eq!(factorial(20), Ok(2432902008176640000));
}

#[test]
fn factorial_failures() {
    assert_eq!(factorial(-1), Err(ArithmeticError::NegativeFactorial));
    assert_eq!(factorial(i64::MIN), Err(ArithmeticError::NegativeFactorial));
    assert_eq!(factorial(21), Err(ArithmeticError::Overflow));
    assert_eq!(factorial(i64::MAX), Err(ArithmeticError::Overflow));
}

#[test]
fn power_values() {
    assert_eq!(power(2, 0), Ok(1));
    assert_eq!(power(2, 10), Ok(1024));
    assert_eq!(power(3, 4), Ok(81));
    assert_eq!(power(-3, 3), Ok(-27));
    assert_eq!(power(-3, 2), Ok(9));
    assert_eq!(power(2, 62), Ok(1 << 62));
    assert_eq!(power(-2, 63), Ok(i64::MIN));
    assert_eq!(power(0, 0), Ok(1));
    assert_eq!(power(0, 5), Ok(0));
    assert_eq!(power(1, i64::MAX), Ok(1));
    assert_eq!(power(-1, i64::MAX), Ok(-1));
    assert_eq!(power(-1, i64::MAX - 1), Ok(1));
    assert_eq!(power(0, i64::MAX), Ok(0));
    assert_eq!(power(7, 1), Ok(7));
}

#[test]
fn power_failures() {
    assert_eq!(power(2, -1), Err(ArithmeticError::NegativeExponent));
    assert_eq!(power(0, -3), Err(ArithmeticError::NegativeExponent));
    assert_eq!(power(2, 63), Err(ArithmeticError::Overflow));
    assert_eq!(power(-2, 64), Err(ArithmeticError::Overflow));
    assert_eq!(power(10, 19), Err(ArithmeticError::Overflow));
    assert_eq!(power(2, i64::MAX), Err(ArithmeticError::Overflow));
}

#[test]
fn division_rounds_towards_zero() {
    assert_eq!(divide(7, 2), Ok(3));
    assert_eq!(divide(-7, 2), Ok(-3));
    assert_eq!(divide(7, -2), Ok(-3));
    assert_eq!(divide(-7, -2), Ok(3));
    assert_eq!(divide(0, 5), Ok(0));
    assert_eq!(divide(i64::MIN, 1), Ok(i64::MIN));
    assert_eq!(remainder(7, 2), Ok(1));
    assert_eq!(remainder(-7, 2), Ok(-1));
    assert_eq!(remainder(7, -2), Ok(1));
    assert_eq!(remainder(-7, -2), Ok(-1));
    assert_eq!(remainder(0, 5), Ok(0));
    assert_eq!(remainder(i64::MIN, -1), Ok(0));
    assert_eq!(remainder(5, -1), Ok(0));
}

#[test]
fn division_failures() {
    assert_eq!(divide(1, 0), Err(ArithmeticError::DivisionByZero));
    assert_eq!(divide(0, 0), Err(ArithmeticError::DivisionByZero));
    assert_eq!(remainder(1, 0), Err(ArithmeticError::DivisionByZero));
    assert_eq!(remainder(i64::MIN, 0), Err(ArithmeticError::DivisionByZero));
    assert_eq!(divide(i64::MIN, -1), Err(ArithmeticError::Overflow));
}

#[test]
fn binary_operators() {
    assert_eq!(apply_binary(Operator::Plus, 5, 3), Ok(8));
    assert_eq!(apply_binary(Operator::Minus, 5, 3), Ok(2));
    assert_eq!(apply_binary(Operator::Minus, 3, 5), Ok(-2));
    assert_eq!(apply_binary(Operator::Multiply, 5, 3), Ok(15));
    assert_eq!(apply_binary(Operator::Divide, 17, 5), Ok(3));
    assert_eq!(apply_binary(Operator::Modulo, 17, 5), Ok(2));
    assert_eq!(apply_binary(Operator::Power, 5, 3), Ok(125));
}

#[test]
fn binary_operators_overflow() {
    assert_eq!(
        apply_binary(Operator::Plus, i64::MAX, 1),
        Err(CalcError::Arithmetic(ArithmeticError::Overflow))
    );
    assert_eq!(
        apply_binary(Operator::Minus, i64::MIN, 1),
        Err(CalcError::Arithmetic(ArithmeticError::Overflow))
    );
    assert_eq!(
        apply_binary(Operator::Multiply, i64::MAX, 2),
        Err(CalcError::Arithmetic(ArithmeticError::Overflow))
    );
    assert_eq!(apply_binary(Operator::Plus, i64::MAX, 0), Ok(i64::MAX));
    assert_eq!(apply_binary(Operator::Multiply, i64::MIN, 1), Ok(i64::MIN));
}

#[test]
fn calc_takes_the_right_operand_from_the_top() {
    assert_eq!(exprcalc::eval::calc(vec![num(10), num(4), op(Operator::Minus)]), Ok(6));
    assert_eq!(exprcalc::eval::calc(vec![num(10), num(4), op(Operator::Divide)]), Ok(2));
    assert_eq!(exprcalc::eval::calc(vec![num(10), num(4), op(Operator::Modulo)]), Ok(2));
    assert_eq!(exprcalc::eval::calc(vec![num(2), num(5), op(Operator::Power)]), Ok(32));
}

#[test]
fn calc_of_the_long_expression() {
    let rpn = vec![
        num(3),
        num(4),
        num(2),
        op(Operator::Multiply),
        num(1),
        num(5),
        op(Operator::Minus),
        num(2),
        num(3),
        op(Operator::Power),
        op(Operator::Power),
        op(Operator::Divide),
        op(Operator::Plus),
    ];
    assert_eq!(exprcalc::eval::calc(rpn), Ok(3));
}

#[test]
fn calc_skips_functions_and_parentheses() {
    assert_eq!(
        exprcalc::eval::calc(vec![
            num(9),
            Token::Function(Function::Sqrt),
            op(Operator::LeftParen),
            op(Operator::RightParen)
        ]),
        Ok(9)
    );
}

#[test]
fn calc_malformed_sequences() {
    let malformed = Err(CalcError::Structure(StructuralError::MalformedExpression));
    assert_eq!(exprcalc::eval::calc(vec![]), malformed);
    assert_eq!(exprcalc::eval::calc(vec![num(1), num(2)]), malformed);
    assert_eq!(exprcalc::eval::calc(vec![op(Operator::Plus)]), malformed);
    assert_eq!(exprcalc::eval::calc(vec![num(1), op(Operator::Plus)]), malformed);
    assert_eq!(exprcalc::eval::calc(vec![op(Operator::Factorial)]), malformed);
    assert_eq!(exprcalc::eval::calc(vec![Token::Function(Function::Sum)]), malformed);
}

#[test]
fn calc_arithmetic_failures() {
    assert_eq!(
        exprcalc::eval::calc(vec![num(1), num(0), op(Operator::Divide)]),
        Err(CalcError::Arithmetic(ArithmeticError::DivisionByZero))
    );
    assert_eq!(
        exprcalc::eval::calc(vec![num(1), num(0), op(Operator::Modulo)]),
        Err(CalcError::Arithmetic(ArithmeticError::DivisionByZero))
    );
    assert_eq!(
        exprcalc::eval::calc(vec![num(2), num(-1), op(Operator::Power)]),
        Err(CalcError::Arithmetic(ArithmeticError::NegativeExponent))
    );
    assert_eq!(
        exprcalc::eval::calc(vec![num(-3), op(Operator::Factorial)]),
        Err(CalcError::Arithmetic(ArithmeticError::NegativeFactorial))
    );
    assert_eq!(
        exprcalc::eval::calc(vec![num(i64::MAX), num(1), op(Operator::Plus)]),
        Err(CalcError::Arithmetic(ArithmeticError::Overflow))
    );
}

#[test]
fn calc_reports_the_first_failure() {
    assert_eq!(
        exprcalc::eval::calc(vec![
            num(1),
            num(0),
            op(Operator::Divide),
            op(Operator::Plus)
        ]),
        Err(CalcError::Arithmetic(ArithmeticError::DivisionByZero))
    );
    assert_eq!(
        exprcalc::eval::calc(vec![
            op(Operator::Plus),
            num(1),
            num(0),
            op(Operator::Divide)
        ]),
        Err(CalcError::Structure(StructuralError::MalformedExpression))
    );
}

#[test]
fn apply_token_changes_the_stack() {
    assert_eq!(apply_token(vec![1, 2], num(3)), Ok(vec![1, 2, 3]));
    assert_eq!(apply_token(vec![1, 2, 3], op(Operator::Minus)), Ok(vec![1, -1]));
    assert_eq!(apply_token(vec![1, 2, 3], op(Operator::Factorial)), Ok(vec![1, 2, 6]));
    assert_eq!(
        apply_token(vec![1, 2], Token::Function(Function::Average)),
        Ok(vec![1, 2])
    );
    assert_eq!(
        apply_token(vec![1], op(Operator::Multiply)),
        Err(CalcError::Structure(StructuralError::MalformedExpression))
    );
}

#[test]
fn failures_in_whole_expressions() {
    assert_eq!(
        evaluate("2^(1-3)"),
        Err(CalcError::Arithmetic(ArithmeticError::NegativeExponent))
    );
    assert_eq!(
        evaluate("(1-3)!"),
        Err(CalcError::Arithmetic(ArithmeticError::NegativeFactorial))
    );
    assert_eq!(
        evaluate("21!"),
        Err(CalcError::Arithmetic(ArithmeticError::Overflow))
    );
    assert_eq!(
        evaluate("9223372036854775807+1"),
        Err(CalcError::Arithmetic(ArithmeticError::Overflow))
    );
    assert_eq!(evaluate("20!"), Ok(2432902008176640000));
}

#[test]
fn well_formed_expressions_leave_one_value() {
    for text in ["1", "(1)", "1+2", "(1+2)*3", "2^3^2", "3!", "((4))!-1", "10%4*(2+1)"] {
        assert!(evaluate(text).is_ok(), "{}", text);
    }
    assert_eq!(evaluate("10%4*(2+1)"), Ok(6));
    assert_eq!(evaluate("((4))!-1"), Ok(23));
}
