//! Token sequences as text.

use crate::lexer::{all_digits, decimal_value, function_of, is_digit, operator_of};
use crate::token::{Function, Operator, Token};
use vstd::prelude::*;
use vstd::string::StringExecFns;

verus! {

/// The character of the digit `d`.
pub open spec fn digit_char(d: nat) -> char
    recommends
        d < 10,
{
    (48 + d) as char
}

/// The decimal digits of `n`, most significant first, without leading zeros.
pub open spec fn decimal_digits(n: nat) -> Seq<char>
    decreases n,
{
    if n < 10 {
        seq![digit_char(n)]
    } else {
        decimal_digits(n / 10).push(digit_char(n % 10))
    }
}

/// The decimal text of the integer `n`, with a minus sign where it is
/// negative.
pub open spec fn decimal_text(n: int) -> Seq<char> {
    if n < 0 {
        seq!['-'] + decimal_digits((-n) as nat)
    } else {
        decimal_digits(n as nat)
    }
}

/// The character that stands for the operator `op`.
pub open spec fn operator_char(op: Operator) -> char {
    match op {
        Operator::Plus => '+',
        Operator::Minus => '-',
        Operator::Multiply => '*',
        Operator::Divide => '/',
        Operator::Power => '^',
        Operator::Modulo => '%',
        Operator::Factorial => '!',
        Operator::LeftParen => '(',
        Operator::RightParen => ')',
    }
}

/// The name of the function `f`.
pub open spec fn function_name(f: Function) -> Seq<char> {
    match f {
        Function::Sum => seq!['s', 'u', 'm'],
        Function::Average => seq!['a', 'v', 'e', 'r', 'a', 'g', 'e'],
        Function::Sqrt => seq!['s', 'q', 'r', 't'],
    }
}

/// The text of the token `t`.
pub open spec fn token_text(t: Token) -> Seq<char> {
    match t {
        Token::Operator(op) => seq![operator_char(op)],
        Token::Number(n) => decimal_text(n as int),
        Token::Function(f) => function_name(f),
    }
}

/// The text of a token sequence: the text of each token, in order, each
/// followed by one space.
pub open spec fn rpn_text(tokens: Seq<Token>) -> Seq<char>
    decreases tokens.len(),
{
    if tokens.len() == 0 {
        Seq::empty()
    } else {
        rpn_text(tokens.drop_last()) + token_text(tokens.last()) + seq![' ']
    }
}

/// The digits of a number are digits, and denote the number.
pub proof fn lemma_decimal_digits_denote(n: nat)
    ensures
        decimal_digits(n).len() > 0,
        all_digits(decimal_digits(n)),
        decimal_value(decimal_digits(n)) == n,
    decreases n,
{
    let text = decimal_digits(n);
    if n < 10 {
        assert(text.drop_last() =~= Seq::<char>::empty());
        assert(decimal_value(text.drop_last()) == 0);
    } else {
        lemma_decimal_digits_denote(n / 10);
        let front = decimal_digits(n / 10);
        assert(text.drop_last() =~= front);
        assert forall|i: int| 0 <= i < text.len() implies is_digit(#[trigger] text[i]) by {
            if i < front.len() {
                assert(text[i] == front[i]);
            }
        }
    }
}

/// The character of an operator stands for that operator, and the name of a
/// function names that function.
pub proof fn lemma_names_are_read_back(op: Operator, f: Function)
    ensures
        operator_of(operator_char(op)) == Some(op),
        function_of(function_name(f)) == Some(f),
{
    assert(seq!['s', 'u', 'm'].len() == 3);
    assert(seq!['a', 'v', 'e', 'r', 'a', 'g', 'e'].len() == 7);
    assert(seq!['s', 'q', 'r', 't'].len() == 4);
}

/// The digit `d` as a string.
fn digit_str(d: u64) -> (s: &'static str)
    requires
        d < 10,
    ensures
        s@ == seq![digit_char(d as nat)],
{
    proof {
        reveal_strlit("0");
        reveal_strlit("1");
        reveal_strlit("2");
        reveal_strlit("3");
        reveal_strlit("4");
        reveal_strlit("5");
        reveal_strlit("6");
        reveal_strlit("7");
        reveal_strlit("8");
        reveal_strlit("9");
    }
    let s = if d == 0 {
        "0"
    } else if d == 1 {
        "1"
    } else if d == 2 {
        "2"
    } else if d == 3 {
        "3"
    } else if d == 4 {
        "4"
    } else if d == 5 {
        "5"
    } else if d == 6 {
        "6"
    } else if d == 7 {
        "7"
    } else if d == 8 {
        "8"
    } else {
        "9"
    };
    assert(s@ =~= seq![digit_char(d as nat)]);
    s
}

/// The operator `op` as a string.
fn operator_str(op: Operator) -> (s: &'static str)
    ensures
        s@ == seq![operator_char(op)],
{
    proof {
        reveal_strlit("+");
        reveal_strlit("-");
        reveal_strlit("*");
        reveal_strlit("/");
        reveal_strlit("^");
        reveal_strlit("%");
        reveal_strlit("!");
        reveal_strlit("(");
        reveal_strlit(")");
    }
    let s = match op {
        Operator::Plus => "+",
        Operator::Minus => "-",
        Operator::Multiply => "*",
        Operator::Divide => "/",
        Operator::Power => "^",
        Operator::Modulo => "%",
        Operator::Factorial => "!",
        Operator::LeftParen => "(",
        Operator::RightParen => ")",
    };
    assert(s@ =~= seq![operator_char(op)]);
    s
}

/// The function `f` as a string.
fn function_str(f: Function) -> (s: &'static str)
    ensures
        s@ == function_name(f),
{
    proof {
        reveal_strlit("sum");
        reveal_strlit("average");
        reveal_strlit("sqrt");
    }
    let s = match f {
        Function::Sum => "sum",
        Function::Average => "average",
        Function::Sqrt => "sqrt",
    };
    assert(s@ =~= function_name(f));
    s
}

/// Appends the decimal digits of `n` to `out`.
fn push_digits(out: &mut String, n: u64)
    ensures
        final(out)@ == old(out)@ + decimal_digits(n as nat),
    decreases n,
{
    if n >= 10 {
        push_digits(out, n / 10);
    }
    out.append(digit_str(n % 10));
    assert(final(out)@ =~= old(out)@ + decimal_digits(n as nat));
}

/// Appends the decimal text of `n` to `out`.
fn push_number(out: &mut String, n: i64)
    ensures
        final(out)@ == old(out)@ + decimal_text(n as int),
{
    if n < 0 {
        proof {
            reveal_strlit("-");
        }
        out.append("-");
        let magnitude: u64 = (-(n + 1)) as u64 + 1;
        push_digits(out, magnitude);
        assert(final(out)@ =~= old(out)@ + decimal_text(n as int));
    } else {
        push_digits(out, n as u64);
    }
}

/// Writes a token sequence as text: each token followed by one space, a
/// number in decimal, an operator as its character, a function by its name.
pub fn rpn_to_string(tokens: Vec<Token>) -> (result: String)
    ensures
        result@ == rpn_text(tokens@),
{
    let mut result = String::new();
    let mut i: usize = 0;
    assert(tokens@.take(0) =~= Seq::<Token>::empty());
    while i < tokens.len()
        invariant
            0 <= i <= tokens.len(),
            result@ == rpn_text(tokens@.take(i as int)),
        decreases tokens.len() - i,
    {
        let ghost before = result@;
        proof {
            assert(tokens@.take(i as int + 1).drop_last() =~= tokens@.take(i as int));
            assert(tokens@.take(i as int + 1).last() == tokens@[i as int]);
            reveal_strlit(" ");
        }
        match tokens[i] {
            Token::Operator(op) => {
                result.append(operator_str(op));
            },
            Token::Number(n) => {
                push_number(&mut result, n);
            },
            Token::Function(f) => {
                result.append(function_str(f));
            },
        }
        result.append(" ");
        assert(result@ =~= before + token_text(tokens@[i as int]) + seq![' ']);
        i += 1;
    }
    assert(tokens@.take(i as int) =~= tokens@);
    result
}

} // verus!
