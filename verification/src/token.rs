//! Tokens of an arithmetic expression, and the binding rules of operators.

use vstd::prelude::*;

verus! {

/// The symbols of the expression language.
#[derive(Clone, Copy, Debug, PartialEq, Eq, Structural)]
pub enum Operator {
    Plus,
    Minus,
    Multiply,
    Divide,
    Power,
    Modulo,
    Factorial,
    LeftParen,
    RightParen,
}

/// How operators of equal precedence group.
#[derive(Clone, Copy, Debug, PartialEq, Eq, Structural)]
pub enum Assoc {
    Left,
    Right,
    Invalid,
}

/// The function names that the tokenizer recognizes.
#[derive(Clone, Copy, Debug, PartialEq, Eq, Structural)]
pub enum Function {
    Sum,
    Average,
    Sqrt,
}

/// One lexical unit of an expression.
#[derive(Clone, Copy, Debug, PartialEq, Eq, Structural)]
pub enum Token {
    Operator(Operator),
    Number(i64),
    Function(Function),
}

/// Binding strength of an operator; higher binds tighter. The value of the
/// parentheses only ever stops the popping of the operator stack.
pub open spec fn operator_precedence(op: Operator) -> int {
    match op {
        Operator::Plus | Operator::Minus => 2,
        Operator::Multiply | Operator::Divide | Operator::Modulo => 3,
        Operator::Power => 4,
        Operator::LeftParen | Operator::RightParen => 5,
        Operator::Factorial => 6,
    }
}

/// Grouping of an operator among operators of its own precedence.
pub open spec fn operator_associativity(op: Operator) -> Assoc {
    match op {
        Operator::Plus
        | Operator::Minus
        | Operator::Multiply
        | Operator::Divide
        | Operator::Modulo => Assoc::Left,
        Operator::Power => Assoc::Right,
        Operator::Factorial | Operator::LeftParen | Operator::RightParen => Assoc::Invalid,
    }
}

/// Precedence of a token: that of its operator, and -1 for a token that is
/// no operator.
pub open spec fn precedence(t: Token) -> int {
    match t {
        Token::Operator(op) => operator_precedence(op),
        _ => -1,
    }
}

/// Associativity of a token: that of its operator, and `Invalid` for a token
/// that is no operator.
pub open spec fn associativity(t: Token) -> Assoc {
    match t {
        Token::Operator(op) => operator_associativity(op),
        _ => Assoc::Invalid,
    }
}

impl Token {
    /// Whether the token is one of the two parentheses.
    pub open spec fn is_paren(self) -> bool {
        self == Token::Operator(Operator::LeftParen) || self == Token::Operator(
            Operator::RightParen,
        )
    }
}

/// Precedence of `op`, or -1 where `op` is no operator.
pub fn get_op_precedence(op: &Token) -> (p: i32)
    ensures
        p == precedence(*op),
{
    match op {
        Token::Operator(o) => match o {
            Operator::Plus => 2,
            Operator::Minus => 2,
            Operator::Multiply => 3,
            Operator::Divide => 3,
            Operator::Power => 4,
            Operator::Modulo => 3,
            Operator::Factorial => 6,
            Operator::LeftParen => 5,
            Operator::RightParen => 5,
        },
        _ => -1,
    }
}

/// Associativity of `op`, or `Invalid` where `op` is no operator.
pub fn get_op_associativity(op: &Token) -> (a: Assoc)
    ensures
        a == associativity(*op),
{
    match op {
        Token::Operator(o) => match o {
            Operator::Plus => Assoc::Left,
            Operator::Minus => Assoc::Left,
            Operator::Multiply => Assoc::Left,
            Operator::Divide => Assoc::Left,
            Operator::Power => Assoc::Right,
            Operator::Modulo => Assoc::Left,
            Operator::Factorial => Assoc::Invalid,
            Operator::LeftParen => Assoc::Invalid,
            Operator::RightParen => Assoc::Invalid,
        },
        _ => Assoc::Invalid,
    }
}

} // verus!
