//! Well-formed infix sequences, and the proof that the converter turns each
//! of them into a well-formed postfix sequence.

use crate::arith::is_binary;
use crate::balance::{
    balanced, lemma_pop_to_output, lemma_rpn_balanced, lemma_shunt, lemma_yield_to, no_parens,
};
use crate::eval_laws::{height_step, stack_height, well_formed_postfix};
use crate::shunting::{left_paren, pops_before, rpn_of, shunt, ShuntModel};
use crate::token::{Operator, Token};
use vstd::prelude::*;

verus! {

/// Whether an operand is complete after the token `t`, given whether one was
/// complete before it; `None` where `t` cannot stand there.
///
/// A number, a function name and a left parenthesis stand where an operand
/// begins; a binary operator, the factorial and a right parenthesis stand
/// after a complete operand.
pub open spec fn infix_step(after_operand: bool, t: Token) -> Option<bool> {
    match t {
        Token::Number(_) => if after_operand {
            None
        } else {
            Some(true)
        },
        Token::Function(_) => if after_operand {
            None
        } else {
            Some(false)
        },
        Token::Operator(op) => if op == Operator::LeftParen {
            if after_operand {
                None
            } else {
                Some(false)
            }
        } else if !after_operand {
            None
        } else {
            Some(!is_binary(op))
        },
    }
}

/// Whether an operand is complete after the tokens of `tokens`; `None` where
/// a token stands where it cannot.
pub open spec fn infix_state(tokens: Seq<Token>) -> Option<bool>
    decreases tokens.len(),
{
    if tokens.len() == 0 {
        Some(false)
    } else {
        match infix_state(tokens.drop_last()) {
            Some(after_operand) => infix_step(after_operand, tokens.last()),
            None => None,
        }
    }
}

/// An infix sequence is well formed: operands and operators alternate as
/// they must, the sequence ends with a complete operand, and its parentheses
/// balance.
pub open spec fn well_formed_infix(tokens: Seq<Token>) -> bool {
    balanced(tokens) && infix_state(tokens) == Some(true)
}

/// The binary operators on the operator stack.
pub open spec fn pending_binary(stack: Seq<Token>) -> nat
    decreases stack.len(),
{
    if stack.len() == 0 {
        0
    } else {
        pending_binary(stack.drop_last()) + match stack.last() {
            Token::Operator(op) => if is_binary(op) {
                1nat
            } else {
                0nat
            },
            _ => 0nat,
        }
    }
}

/// The output is one value higher than the binary operators on the stack
/// will take away, where an operand is complete, and exactly as high where
/// none is.
pub open spec fn heights_agree(m: ShuntModel, after_operand: bool) -> bool {
    stack_height(m.output) == Some(
        pending_binary(m.stack) + if after_operand {
            1nat
        } else {
            0nat
        },
    )
}

/// The height after a sequence with one more token.
pub proof fn lemma_height_push(rpn: Seq<Token>, t: Token)
    ensures
        stack_height(rpn.push(t)) == match stack_height(rpn) {
            Some(h) => height_step(h, t),
            None => None,
        },
{
    assert(rpn.push(t).drop_last() =~= rpn);
}

/// The binary operators on a stack with one more entry.
pub proof fn lemma_pending_push(stack: Seq<Token>, t: Token)
    ensures
        pending_binary(stack.push(t)) == pending_binary(stack) + match t {
            Token::Operator(op) => if is_binary(op) {
                1nat
            } else {
                0nat
            },
            _ => 0nat,
        },
{
    assert(stack.push(t).drop_last() =~= stack);
}

/// After a complete operand, the top of the stack finds its operands in the
/// output.
pub proof fn lemma_pop_keeps_heights(m: ShuntModel)
    requires
        m.wf(),
        m.stack.len() > 0,
        m.stack.last() != left_paren(),
        heights_agree(m, true),
    ensures
        heights_agree(m.pop_to_output(), true),
{
    lemma_height_push(m.output, m.stack.last());
    assert(!(m.stack[m.stack.len() - 1] is Number));
}

/// A right parenthesis after a complete operand leaves a complete operand.
pub proof fn lemma_close_paren_keeps_heights(m: ShuntModel)
    requires
        m.wf(),
        heights_agree(m, true),
    ensures
        m.close_paren() matches Ok(n) ==> heights_agree(n, true),
    decreases m.stack.len(),
{
    if m.stack.len() > 0 && m.stack.last() != left_paren() {
        lemma_pop_to_output(m);
        lemma_pop_keeps_heights(m);
        lemma_close_paren_keeps_heights(m.pop_to_output());
    }
}

/// Making way for an operator after a complete operand leaves a complete
/// operand.
pub proof fn lemma_yield_keeps_heights(m: ShuntModel, op: Token)
    requires
        m.wf(),
        heights_agree(m, true),
    ensures
        heights_agree(m.yield_to(op), true),
    decreases m.stack.len(),
{
    if m.stack.len() > 0 && pops_before(m.stack.last(), op) {
        lemma_pop_to_output(m);
        lemma_pop_keeps_heights(m);
        lemma_yield_keeps_heights(m.pop_to_output(), op);
    }
}

/// At the end of the input, after a complete operand, the output is a
/// well-formed postfix sequence.
pub proof fn lemma_drain_keeps_heights(m: ShuntModel)
    requires
        m.wf(),
        heights_agree(m, true),
    ensures
        m.drain() matches Ok(out) ==> well_formed_postfix(out),
    decreases m.stack.len(),
{
    if m.stack.len() > 0 && m.stack.last() != left_paren() {
        lemma_pop_to_output(m);
        lemma_pop_keeps_heights(m);
        lemma_drain_keeps_heights(m.pop_to_output());
    }
}

/// A token that stands where it can keeps the heights in agreement.
pub proof fn lemma_step_keeps_heights(m: ShuntModel, t: Token, after_operand: bool)
    requires
        m.wf(),
        heights_agree(m, after_operand),
        infix_step(after_operand, t) is Some,
    ensures
        m.step(t) matches Ok(n) ==> heights_agree(n, infix_step(after_operand, t)->0),
{
    match t {
        Token::Number(_) => {
            lemma_height_push(m.output, t);
        },
        Token::Function(_) => {
            lemma_pending_push(m.stack, t);
        },
        Token::Operator(Operator::LeftParen) => {
            lemma_pending_push(m.stack, t);
        },
        Token::Operator(Operator::RightParen) => {
            lemma_close_paren_keeps_heights(m);
        },
        Token::Operator(_) => {
            lemma_yield_to(m, t);
            lemma_yield_keeps_heights(m, t);
            lemma_pending_push(m.yield_to(t).stack, t);
        },
    }
}

/// Along a sequence whose tokens stand where they can, the heights agree.
pub proof fn lemma_shunt_keeps_heights(tokens: Seq<Token>)
    requires
        infix_state(tokens) is Some,
    ensures
        shunt(tokens) matches Ok(m) ==> m.wf() && heights_agree(m, infix_state(tokens)->0),
    decreases tokens.len(),
{
    lemma_shunt(tokens);
    if tokens.len() > 0 {
        let front = tokens.drop_last();
        lemma_shunt_keeps_heights(front);
        lemma_shunt(front);
        if let Ok(m) = shunt(front) {
            lemma_step_keeps_heights(m, tokens.last(), infix_state(front)->0);
        }
    }
}

/// The postfix form of a well-formed infix sequence exists, is well formed,
/// and holds no parenthesis.
pub proof fn lemma_well_formed_infix_converts(tokens: Seq<Token>)
    requires
        well_formed_infix(tokens),
    ensures
        rpn_of(tokens) matches Ok(rpn) && well_formed_postfix(rpn) && no_parens(rpn),
{
    lemma_rpn_balanced(tokens);
    lemma_shunt_keeps_heights(tokens);
    lemma_drain_keeps_heights(shunt(tokens)->Ok_0);
}

} // verus!
