//! The converter only reorders: every token but the parentheses is in the
//! output as often as in the input, and the numbers keep their order.

use crate::balance::{lemma_pop_to_output, lemma_shunt, lemma_yield_to};
use crate::shunting::{left_paren, pops_before, rpn_of, shunt, ShuntModel};
use crate::token::Token;
use vstd::prelude::*;

verus! {

/// How often the token `t` occurs in `tokens`.
pub open spec fn occurrences(tokens: Seq<Token>, t: Token) -> nat
    decreases tokens.len(),
{
    if tokens.len() == 0 {
        0
    } else {
        occurrences(tokens.drop_last(), t) + if tokens.last() == t {
            1nat
        } else {
            0nat
        }
    }
}

/// The numbers of `tokens`, in their order.
pub open spec fn numbers(tokens: Seq<Token>) -> Seq<i64>
    decreases tokens.len(),
{
    if tokens.len() == 0 {
        Seq::empty()
    } else {
        match tokens.last() {
            Token::Number(n) => numbers(tokens.drop_last()).push(n),
            _ => numbers(tokens.drop_last()),
        }
    }
}

/// The occurrences in a sequence with one more token.
pub proof fn lemma_occurrences_push(tokens: Seq<Token>, x: Token, t: Token)
    ensures
        occurrences(tokens.push(x), t) == occurrences(tokens, t) + if x == t {
            1nat
        } else {
            0nat
        },
{
    assert(tokens.push(x).drop_last() =~= tokens);
}

/// The numbers of a sequence with one more token.
pub proof fn lemma_numbers_push(tokens: Seq<Token>, x: Token)
    ensures
        numbers(tokens.push(x)) == match x {
            Token::Number(n) => numbers(tokens).push(n),
            _ => numbers(tokens),
        },
{
    assert(tokens.push(x).drop_last() =~= tokens);
}

/// What the converter holds of `t`, in the output and on the stack.
pub open spec fn held(m: ShuntModel, t: Token) -> nat {
    occurrences(m.output, t) + occurrences(m.stack, t)
}

/// Moving the top of the stack to the output loses and adds nothing, and
/// moves no number.
pub proof fn lemma_pop_holds(m: ShuntModel, t: Token)
    requires
        m.wf(),
        m.stack.len() > 0,
    ensures
        held(m.pop_to_output(), t) == held(m, t),
        numbers(m.pop_to_output().output) == numbers(m.output),
{
    lemma_occurrences_push(m.output, m.stack.last(), t);
    lemma_numbers_push(m.output, m.stack.last());
    assert(!(m.stack[m.stack.len() - 1] is Number));
}

/// A right parenthesis loses only a left parenthesis.
pub proof fn lemma_close_paren_holds(m: ShuntModel, t: Token)
    requires
        m.wf(),
        !t.is_paren(),
    ensures
        m.close_paren() matches Ok(n) ==> held(n, t) == held(m, t) && numbers(n.output)
            == numbers(m.output),
    decreases m.stack.len(),
{
    if m.stack.len() > 0 && m.stack.last() != left_paren() {
        lemma_pop_to_output(m);
        lemma_pop_holds(m, t);
        lemma_close_paren_holds(m.pop_to_output(), t);
    }
}

/// Making way for an operator loses and adds nothing.
pub proof fn lemma_yield_holds(m: ShuntModel, op: Token, t: Token)
    requires
        m.wf(),
    ensures
        held(m.yield_to(op), t) == held(m, t),
        numbers(m.yield_to(op).output) == numbers(m.output),
    decreases m.stack.len(),
{
    if m.stack.len() > 0 && pops_before(m.stack.last(), op) {
        lemma_pop_to_output(m);
        lemma_pop_holds(m, t);
        lemma_yield_holds(m.pop_to_output(), op, t);
    }
}

/// At the end of the input the output holds what the converter held.
pub proof fn lemma_drain_holds(m: ShuntModel, t: Token)
    requires
        m.wf(),
    ensures
        m.drain() matches Ok(out) ==> occurrences(out, t) == held(m, t) && numbers(out)
            == numbers(m.output),
    decreases m.stack.len(),
{
    if m.stack.len() > 0 && m.stack.last() != left_paren() {
        lemma_pop_to_output(m);
        lemma_pop_holds(m, t);
        lemma_drain_holds(m.pop_to_output(), t);
    }
}

/// The converter holds each token that it has read, but for the
/// parentheses, and its output holds the numbers in the order read.
pub proof fn lemma_shunt_holds(tokens: Seq<Token>, t: Token)
    requires
        !t.is_paren(),
    ensures
        shunt(tokens) matches Ok(m) ==> held(m, t) == occurrences(tokens, t) && numbers(m.output)
            == numbers(tokens),
    decreases tokens.len(),
{
    if tokens.len() > 0 {
        let front = tokens.drop_last();
        let x = tokens.last();
        lemma_shunt_holds(front, t);
        lemma_shunt(front);
        if let Ok(m) = shunt(front) {
            match x {
                Token::Number(_) => {
                    lemma_occurrences_push(m.output, x, t);
                    lemma_numbers_push(m.output, x);
                },
                Token::Function(_) => {
                    lemma_occurrences_push(m.stack, x, t);
                },
                Token::Operator(crate::token::Operator::LeftParen) => {
                    lemma_occurrences_push(m.stack, x, t);
                },
                Token::Operator(crate::token::Operator::RightParen) => {
                    lemma_close_paren_holds(m, t);
                },
                Token::Operator(_) => {
                    lemma_yield_to(m, x);
                    lemma_yield_holds(m, x, t);
                    lemma_occurrences_push(m.yield_to(x).stack, x, t);
                },
            }
        }
    }
}

/// The postfix form holds every token of the input but the parentheses, each
/// as often as the input does, and the numbers in the order of the input.
pub proof fn lemma_rpn_reorders(tokens: Seq<Token>)
    ensures
        rpn_of(tokens) matches Ok(out) ==> numbers(out) == numbers(tokens) && forall|t: Token|
            !t.is_paren() ==> occurrences(out, t) == #[trigger] occurrences(tokens, t),
{
    lemma_shunt(tokens);
    if let Ok(m) = shunt(tokens) {
        if let Ok(out) = m.drain() {
            assert forall|t: Token| !t.is_paren() implies occurrences(out, t)
                == #[trigger] occurrences(tokens, t) by {
                lemma_shunt_holds(tokens, t);
                lemma_drain_holds(m, t);
            }
            lemma_shunt_holds(tokens, Token::Number(0));
            lemma_drain_holds(m, Token::Number(0));
        }
    }
}

} // verus!
