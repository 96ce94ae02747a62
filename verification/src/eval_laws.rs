//! What holds of every evaluation: a zero divisor is a failure, a value is
//! the one entry that the stack is left with, and the height of the stack
//! follows from the kinds of the tokens alone.

use crate::arith::is_binary;
use crate::error::{ArithmeticError, CalcError};
use crate::eval::{eval_stack, eval_step, lemma_eval_failure_stays, malformed, value_of};
use crate::token::{Operator, Token};
use vstd::prelude::*;

verus! {

/// Division and remainder by zero fail as a division by zero, whatever the
/// dividend.
pub proof fn lemma_zero_divisor_step(stack: Seq<i64>, op: Operator)
    requires
        op == Operator::Divide || op == Operator::Modulo,
        stack.len() >= 2,
        stack.last() == 0,
    ensures
        eval_step(stack, Token::Operator(op)) == Err::<Seq<i64>, CalcError>(
            CalcError::Arithmetic(ArithmeticError::DivisionByZero),
        ),
{
}

/// A postfix sequence that reaches a division or a remainder with zero on
/// top of the stack has no value: its evaluation fails as a division by zero.
pub proof fn lemma_zero_divisor(rpn: Seq<Token>, k: int)
    requires
        0 <= k < rpn.len(),
        rpn[k] == Token::Operator(Operator::Divide) || rpn[k] == Token::Operator(Operator::Modulo),
        eval_stack(rpn.take(k)) matches Ok(stack) && stack.len() >= 2 && stack.last() == 0,
    ensures
        value_of(rpn) == Err::<i64, CalcError>(
            CalcError::Arithmetic(ArithmeticError::DivisionByZero),
        ),
{
    let stack = eval_stack(rpn.take(k))->Ok_0;
    assert(rpn.take(k + 1).drop_last() =~= rpn.take(k));
    assert(rpn.take(k + 1).last() == rpn[k]);
    lemma_eval_failure_stays(rpn, k + 1);
}

/// A postfix sequence has the value `v` exactly if its evaluation leaves the
/// stack with `v` and nothing else.
pub proof fn lemma_value_is_sole_entry(rpn: Seq<Token>, v: i64)
    ensures
        value_of(rpn) == Ok::<i64, CalcError>(v) <==> eval_stack(rpn) == Ok::<Seq<i64>, CalcError>(
            seq![v],
        ),
{
    if let Ok(stack) = eval_stack(rpn) {
        if stack.len() == 1 && stack[0] == v {
            assert(stack =~= seq![v]);
        }
    }
}

/// An evaluation fails only because the sequence is malformed or because an
/// operation fails.
pub proof fn lemma_eval_failures(rpn: Seq<Token>)
    ensures
        eval_stack(rpn) matches Err(e) ==> e == malformed() || e is Arithmetic,
        value_of(rpn) matches Err(e) ==> e == malformed() || e is Arithmetic,
    decreases rpn.len(),
{
    if rpn.len() > 0 {
        lemma_eval_failures(rpn.drop_last());
    }
}

/// The height of the value stack after the token `t`, from the height
/// before it; `None` where `t` lacks an operand.
pub open spec fn height_step(height: nat, t: Token) -> Option<nat> {
    match t {
        Token::Number(_) => Some(height + 1),
        Token::Function(_) => Some(height),
        Token::Operator(op) => if is_binary(op) {
            if height < 2 {
                None
            } else {
                Some((height - 1) as nat)
            }
        } else if op == Operator::Factorial {
            if height < 1 {
                None
            } else {
                Some(height)
            }
        } else {
            Some(height)
        },
    }
}

/// The height of the value stack after the tokens of `rpn`, were every
/// operation to succeed; `None` where a token lacks an operand.
pub open spec fn stack_height(rpn: Seq<Token>) -> Option<nat>
    decreases rpn.len(),
{
    if rpn.len() == 0 {
        Some(0)
    } else {
        match stack_height(rpn.drop_last()) {
            Some(h) => height_step(h, rpn.last()),
            None => None,
        }
    }
}

/// A postfix sequence is well formed: no token lacks an operand, and one
/// value is left.
pub open spec fn well_formed_postfix(rpn: Seq<Token>) -> bool {
    stack_height(rpn) == Some(1nat)
}

/// The evaluation follows the heights: its stack is as high as the kinds of
/// the tokens say, and it reports a malformed sequence only where a token
/// lacks an operand.
pub proof fn lemma_eval_follows_height(rpn: Seq<Token>)
    ensures
        eval_stack(rpn) matches Ok(stack) ==> stack_height(rpn) == Some(stack.len()),
        eval_stack(rpn) == Err::<Seq<i64>, CalcError>(malformed()) ==> stack_height(rpn) is None,
        stack_height(rpn) is Some ==> eval_stack(rpn) is Ok || eval_stack(rpn) matches Err(
            CalcError::Arithmetic(_),
        ),
    decreases rpn.len(),
{
    if rpn.len() > 0 {
        lemma_eval_follows_height(rpn.drop_last());
    }
}

/// A well-formed postfix sequence has a value unless an operation fails; a
/// sequence that is not well formed has none.
pub proof fn lemma_well_formed_postfix_evaluates(rpn: Seq<Token>)
    ensures
        well_formed_postfix(rpn) ==> value_of(rpn) is Ok || value_of(rpn) matches Err(
            CalcError::Arithmetic(_),
        ),
        value_of(rpn) is Ok ==> well_formed_postfix(rpn),
{
    lemma_eval_follows_height(rpn);
}

} // verus!
