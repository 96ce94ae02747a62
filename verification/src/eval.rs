//! Evaluation of a postfix token sequence with a value stack.

use crate::arith::{
    apply_binary, binary_result, factorial, factorial_result, is_binary,
};
use crate::error::{CalcError, StructuralError};
use crate::token::{Operator, Token};
use vstd::prelude::*;

verus! {

/// The failure of a postfix sequence that lacks an operand, or whose values
/// do not reduce to one.
pub open spec fn malformed() -> CalcError {
    CalcError::Structure(StructuralError::MalformedExpression)
}

/// The value stack after the token `t`, with the top of the stack last.
///
/// A number is pushed. A binary operator replaces the two topmost values,
/// the right operand on top, by its result; the factorial replaces the
/// topmost value. Function names and parentheses change nothing.
pub open spec fn eval_step(stack: Seq<i64>, t: Token) -> Result<Seq<i64>, CalcError> {
    match t {
        Token::Number(n) => Ok(stack.push(n)),
        Token::Function(_) => Ok(stack),
        Token::Operator(op) => if is_binary(op) {
            if stack.len() < 2 {
                Err(malformed())
            } else {
                match binary_result(op, stack[stack.len() - 2], stack[stack.len() - 1]) {
                    Ok(v) => Ok(stack.take(stack.len() - 2).push(v)),
                    Err(e) => Err(CalcError::Arithmetic(e)),
                }
            }
        } else if op == Operator::Factorial {
            if stack.len() < 1 {
                Err(malformed())
            } else {
                match factorial_result(stack[stack.len() - 1]) {
                    Ok(v) => Ok(stack.take(stack.len() - 1).push(v)),
                    Err(e) => Err(CalcError::Arithmetic(e)),
                }
            }
        } else {
            Ok(stack)
        },
    }
}

/// The value stack after the tokens of `rpn`, or the first failure.
pub open spec fn eval_stack(rpn: Seq<Token>) -> Result<Seq<i64>, CalcError>
    decreases rpn.len(),
{
    if rpn.len() == 0 {
        Ok(Seq::empty())
    } else {
        match eval_stack(rpn.drop_last()) {
            Ok(stack) => eval_step(stack, rpn.last()),
            Err(e) => Err(e),
        }
    }
}

/// The value of the postfix sequence `rpn`: the one value that its
/// evaluation leaves on the stack.
pub open spec fn value_of(rpn: Seq<Token>) -> Result<i64, CalcError> {
    match eval_stack(rpn) {
        Ok(stack) => if stack.len() == 1 {
            Ok(stack[0])
        } else {
            Err(malformed())
        },
        Err(e) => Err(e),
    }
}

/// The outcome of a step, with the stack taken as a sequence.
pub open spec fn stack_outcome(r: Result<Vec<i64>, CalcError>) -> Result<Seq<i64>, CalcError> {
    match r {
        Ok(v) => Ok(v@),
        Err(e) => Err(e),
    }
}

/// Whether `op` takes two operands.
pub fn takes_two(op: Operator) -> (b: bool)
    ensures
        b == is_binary(op),
{
    match op {
        Operator::Plus
        | Operator::Minus
        | Operator::Multiply
        | Operator::Divide
        | Operator::Power
        | Operator::Modulo => true,
        _ => false,
    }
}

/// Applies the token `t` to the value stack.
pub fn apply_token(stack: Vec<i64>, t: Token) -> (r: Result<Vec<i64>, CalcError>)
    ensures
        stack_outcome(r) == eval_step(stack@, t),
{
    let mut stack = stack;
    let ghost before = stack@;
    match t {
        Token::Number(n) => {
            stack.push(n);
            Ok(stack)
        },
        Token::Function(_) => Ok(stack),
        Token::Operator(op) => {
            if takes_two(op) {
                let n = stack.len();
                if n < 2 {
                    return Err(CalcError::Structure(StructuralError::MalformedExpression));
                }
                let right = stack[n - 1];
                let left = stack[n - 2];
                match apply_binary(op, left, right) {
                    Ok(v) => {
                        stack.pop();
                        stack.pop();
                        stack.push(v);
                        assert(stack@ =~= before.take(before.len() - 2).push(v));
                        Ok(stack)
                    },
                    Err(e) => Err(CalcError::Arithmetic(e)),
                }
            } else {
                match op {
                    Operator::Factorial => {
                        let n = stack.len();
                        if n < 1 {
                            return Err(CalcError::Structure(StructuralError::MalformedExpression));
                        }
                        match factorial(stack[n - 1]) {
                            Ok(v) => {
                                stack.pop();
                                stack.push(v);
                                assert(stack@ =~= before.take(before.len() - 1).push(v));
                                Ok(stack)
                            },
                            Err(e) => Err(CalcError::Arithmetic(e)),
                        }
                    },
                    _ => Ok(stack),
                }
            }
        },
    }
}

/// A failure of the evaluation of a prefix is the failure of the evaluation
/// of the whole.
pub proof fn lemma_eval_failure_stays(rpn: Seq<Token>, n: int)
    requires
        0 <= n <= rpn.len(),
        eval_stack(rpn.take(n)) is Err,
    ensures
        eval_stack(rpn) == eval_stack(rpn.take(n)),
    decreases rpn.len(),
{
    if n == rpn.len() {
        assert(rpn.take(n) =~= rpn);
    } else {
        assert(rpn.drop_last().take(n) =~= rpn.take(n));
        lemma_eval_failure_stays(rpn.drop_last(), n);
    }
}

/// Evaluates the postfix sequence `rpn`.
///
/// The first failure of a step ends the evaluation. A sequence that leaves
/// no value, or more than one, is malformed.
pub fn calc(rpn: Vec<Token>) -> (r: Result<i64, CalcError>)
    ensures
        r == value_of(rpn@),
{
    let mut stack: Vec<i64> = Vec::new();
    let mut i: usize = 0;
    assert(rpn@.take(0) =~= Seq::<Token>::empty());
    while i < rpn.len()
        invariant
            0 <= i <= rpn.len(),
            eval_stack(rpn@.take(i as int)) == Ok::<Seq<i64>, CalcError>(stack@),
        decreases rpn.len() - i,
    {
        let t = rpn[i];
        proof {
            assert(rpn@.take(i as int + 1).drop_last() =~= rpn@.take(i as int));
            assert(rpn@.take(i as int + 1).last() == t);
        }
        match apply_token(stack, t) {
            Ok(next) => {
                stack = next;
            },
            Err(e) => {
                proof {
                    lemma_eval_failure_stays(rpn@, i as int + 1);
                }
                return Err(e);
            },
        }
        i += 1;
    }
    assert(rpn@.take(i as int) =~= rpn@);
    if stack.len() == 1 {
        Ok(stack[0])
    } else {
        Err(CalcError::Structure(StructuralError::MalformedExpression))
    }
}

} // verus!
