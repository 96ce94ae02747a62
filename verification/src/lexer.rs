//! The tokenizer: a scanner that groups the characters of an expression into
//! tokens.

use crate::error::LexError;
use crate::token::{Function, Operator, Token};
use vstd::prelude::*;

verus! {

/// What the scanner's buffer is collecting.
#[derive(Clone, Copy, Debug, PartialEq, Eq, Structural)]
pub enum TokenState {
    Idle,
    InNumber,
    InSymbol,
    InWord,
}

/// `c` is a decimal digit.
pub open spec fn is_digit(c: char) -> bool {
    '0' <= c <= '9'
}

/// `c` is an ASCII letter.
pub open spec fn is_letter(c: char) -> bool {
    ('a' <= c <= 'z') || ('A' <= c <= 'Z')
}

/// `c` is one of the nine operator and parenthesis characters.
pub open spec fn is_symbol(c: char) -> bool {
    operator_of(c) is Some
}

/// The lower-case form of an ASCII letter; any other character is unchanged.
pub open spec fn lowercase(c: char) -> char {
    if 'A' <= c <= 'Z' {
        ((c as u8) + 32) as char
    } else {
        c
    }
}

/// The operator that a character stands for.
pub open spec fn operator_of(c: char) -> Option<Operator> {
    if c == '+' {
        Some(Operator::Plus)
    } else if c == '-' {
        Some(Operator::Minus)
    } else if c == '*' {
        Some(Operator::Multiply)
    } else if c == '/' {
        Some(Operator::Divide)
    } else if c == '^' {
        Some(Operator::Power)
    } else if c == '%' {
        Some(Operator::Modulo)
    } else if c == '!' {
        Some(Operator::Factorial)
    } else if c == '(' {
        Some(Operator::LeftParen)
    } else if c == ')' {
        Some(Operator::RightParen)
    } else {
        None
    }
}

/// The function that a lower-case word names.
pub open spec fn function_of(word: Seq<char>) -> Option<Function> {
    if word == seq!['s', 'u', 'm'] {
        Some(Function::Sum)
    } else if word == seq!['a', 'v', 'e', 'r', 'a', 'g', 'e'] {
        Some(Function::Average)
    } else if word == seq!['s', 'q', 'r', 't'] {
        Some(Function::Sqrt)
    } else {
        None
    }
}

/// Every character of `s` is a decimal digit.
pub open spec fn all_digits(s: Seq<char>) -> bool {
    forall|i: int| 0 <= i < s.len() ==> is_digit(#[trigger] s[i])
}

/// The value of a digit character.
pub open spec fn digit_value(c: char) -> nat {
    (c as int - '0' as int) as nat
}

/// The number that a string of decimal digits denotes, most significant digit
/// first. The empty string denotes zero.
pub open spec fn decimal_value(s: Seq<char>) -> nat
    decreases s.len(),
{
    if s.len() == 0 {
        0
    } else {
        10 * decimal_value(s.drop_last()) + digit_value(s.last())
    }
}

/// The integer that a buffer of the scanner denotes: the buffer is a
/// non-empty string of digits whose value fits a 64-bit signed integer.
pub open spec fn number_of(s: Seq<char>) -> Option<i64> {
    if s.len() > 0 && all_digits(s) && decimal_value(s) <= i64::MAX {
        Some(decimal_value(s) as i64)
    } else {
        None
    }
}

/// The value of a string of digits is no less than that of each of its
/// prefixes.
pub proof fn lemma_decimal_value_prefix(s: Seq<char>, n: int)
    requires
        0 <= n <= s.len(),
    ensures
        decimal_value(s.take(n)) <= decimal_value(s),
    decreases s.len(),
{
    if n == s.len() {
        assert(s.take(n) =~= s);
    } else {
        lemma_decimal_value_prefix(s.drop_last(), n);
        assert(s.drop_last().take(n) =~= s.take(n));
    }
}

/// Reads a decimal digit.
fn digit_to_i64(c: char) -> (d: i64)
    requires
        is_digit(c),
    ensures
        d == digit_value(c),
        0 <= d <= 9,
{
    let b: u8 = c as u8;
    (b - 48) as i64
}

/// Reads a non-empty string of decimal digits as a 64-bit signed integer.
pub fn parse_number(buf: &Vec<char>) -> (r: Option<i64>)
    ensures
        r == number_of(buf@),
{
    if buf.len() == 0 {
        return None;
    }
    let mut acc: i64 = 0;
    let mut i: usize = 0;
    while i < buf.len()
        invariant
            0 <= i <= buf.len(),
            all_digits(buf@.take(i as int)),
            acc == decimal_value(buf@.take(i as int)),
        decreases buf.len() - i,
    {
        let c = buf[i];
        proof {
            lemma_decimal_value_prefix(buf@, i as int + 1);
            assert(buf@.take(i as int + 1).drop_last() =~= buf@.take(i as int));
            assert(buf@.take(i as int + 1).last() == c);
        }
        if !(c >= '0' && c <= '9') {
            return None;
        }
        let d = digit_to_i64(c);
        let next = match acc.checked_mul(10) {
            Some(m) => m.checked_add(d),
            None => None,
        };
        match next {
            Some(v) => {
                acc = v;
            },
            None => {
                return None;
            },
        }
        i += 1;
        assert forall|j: int| 0 <= j < i implies is_digit(#[trigger] buf@.take(i as int)[j]) by {
            if j < i - 1 {
                assert(buf@.take(i as int)[j] == buf@.take(i as int - 1)[j]);
            }
        }
    }
    assert(buf@.take(i as int) =~= buf@);
    Some(acc)
}

/// The token that a buffer collected in `state` stands for.
///
/// A word stands for the function it names, a string of digits for its value,
/// a single symbol for its operator. Nothing else stands for a token.
pub open spec fn token_of(state: TokenState, buf: Seq<char>) -> Result<Token, LexError> {
    match state {
        TokenState::InWord => match function_of(buf) {
            Some(f) => Ok(Token::Function(f)),
            None => Err(LexError::UnknownWord),
        },
        TokenState::InNumber => match number_of(buf) {
            Some(n) => Ok(Token::Number(n)),
            None => Err(LexError::InvalidNumber),
        },
        TokenState::InSymbol => if buf.len() == 1 && operator_of(buf[0]) is Some {
            Ok(Token::Operator(operator_of(buf[0])->0))
        } else {
            Err(LexError::BrokenScanner)
        },
        TokenState::Idle => Err(LexError::BrokenScanner),
    }
}

/// Reads the operator that a character stands for.
pub fn symbol_to_operator(c: char) -> (r: Option<Operator>)
    ensures
        r == operator_of(c),
{
    if c == '+' {
        Some(Operator::Plus)
    } else if c == '-' {
        Some(Operator::Minus)
    } else if c == '*' {
        Some(Operator::Multiply)
    } else if c == '/' {
        Some(Operator::Divide)
    } else if c == '^' {
        Some(Operator::Power)
    } else if c == '%' {
        Some(Operator::Modulo)
    } else if c == '!' {
        Some(Operator::Factorial)
    } else if c == '(' {
        Some(Operator::LeftParen)
    } else if c == ')' {
        Some(Operator::RightParen)
    } else {
        None
    }
}

/// Reads the function that a lower-case word names.
pub fn word_to_function(buf: &Vec<char>) -> (r: Option<Function>)
    ensures
        r == function_of(buf@),
{
    let n = buf.len();
    if n == 3 && buf[0] == 's' && buf[1] == 'u' && buf[2] == 'm' {
        assert(buf@ =~= seq!['s', 'u', 'm']);
        Some(Function::Sum)
    } else if n == 7 && buf[0] == 'a' && buf[1] == 'v' && buf[2] == 'e' && buf[3] == 'r' && buf[4]
        == 'a' && buf[5] == 'g' && buf[6] == 'e' {
        assert(buf@ =~= seq!['a', 'v', 'e', 'r', 'a', 'g', 'e']);
        Some(Function::Average)
    } else if n == 4 && buf[0] == 's' && buf[1] == 'q' && buf[2] == 'r' && buf[3] == 't' {
        assert(buf@ =~= seq!['s', 'q', 'r', 't']);
        Some(Function::Sqrt)
    } else {
        None
    }
}

/// Turns the buffer that the scanner collected in state `cw` into a token.
pub fn to_token(cw: TokenState, s: &Vec<char>) -> (r: Result<Token, LexError>)
    ensures
        r == token_of(cw, s@),
{
    match cw {
        TokenState::InWord => match word_to_function(s) {
            Some(f) => Ok(Token::Function(f)),
            None => Err(LexError::UnknownWord),
        },
        TokenState::InNumber => match parse_number(s) {
            Some(n) => Ok(Token::Number(n)),
            None => Err(LexError::InvalidNumber),
        },
        TokenState::InSymbol => {
            if s.len() != 1 {
                return Err(LexError::BrokenScanner);
            }
            match symbol_to_operator(s[0]) {
                Some(op) => Ok(Token::Operator(op)),
                None => Err(LexError::BrokenScanner),
            }
        },
        TokenState::Idle => Err(LexError::BrokenScanner),
    }
}

} // verus!
