//! The failures that the stages of the evaluation report.

use vstd::prelude::*;

verus! {

/// A failure of the tokenizer.
#[derive(Clone, Copy, Debug, PartialEq, Eq, Structural)]
pub enum LexError {
    /// The input holds a character outside the expression language.
    UnrecognizedChar(char),
    /// A run of digits is no 64-bit signed integer.
    InvalidNumber,
    /// A run of letters is none of the known function names.
    UnknownWord,
    /// The scanner was asked to emit a token from a state that a scan never
    /// reaches: an empty buffer outside the idle state, or a buffer that does
    /// not belong to the state.
    BrokenScanner,
}

/// A failure in the shape of a token sequence.
#[derive(Clone, Copy, Debug, PartialEq, Eq, Structural)]
pub enum StructuralError {
    /// A parenthesis has no partner.
    UnbalancedParens,
    /// A postfix sequence asks for an operand that is not there, or leaves
    /// none or more than one value.
    MalformedExpression,
}

/// A failure of an arithmetic operation.
#[derive(Clone, Copy, Debug, PartialEq, Eq, Structural)]
pub enum ArithmeticError {
    /// Division or remainder with a zero divisor.
    DivisionByZero,
    /// A power with a negative exponent.
    NegativeExponent,
    /// The factorial of a negative number.
    NegativeFactorial,
    /// The exact result does not fit a 64-bit signed integer.
    Overflow,
}

/// Any failure of the evaluation of an expression.
#[derive(Clone, Copy, Debug, PartialEq, Eq, Structural)]
pub enum CalcError {
    Lexical(LexError),
    Structure(StructuralError),
    Arithmetic(ArithmeticError),
}

} // verus!
