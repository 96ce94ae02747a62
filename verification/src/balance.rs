//! Balance of parentheses, and what the converter owes to it: it succeeds
//! exactly on balanced input, and its output is free of parentheses.

use crate::error::StructuralError;
use crate::shunting::{left_paren, right_paren, rpn_of, shunt, ShuntModel};
use crate::token::Token;
use vstd::prelude::*;

verus! {

/// What the token `t` adds to the number of open parentheses.
pub open spec fn depth_change(t: Token) -> int {
    if t == left_paren() {
        1
    } else if t == right_paren() {
        -1
    } else {
        0
    }
}

/// The left parentheses of `tokens` less its right parentheses.
pub open spec fn paren_depth(tokens: Seq<Token>) -> int
    decreases tokens.len(),
{
    if tokens.len() == 0 {
        0
    } else {
        paren_depth(tokens.drop_last()) + depth_change(tokens.last())
    }
}

/// No prefix of `tokens` closes more parentheses than it opens.
pub open spec fn never_negative(tokens: Seq<Token>) -> bool {
    forall|k: int| 0 <= k <= tokens.len() ==> paren_depth(#[trigger] tokens.take(k)) >= 0
}

/// The parentheses of `tokens` balance: each right parenthesis closes a left
/// parenthesis before it, and none stays open.
pub open spec fn balanced(tokens: Seq<Token>) -> bool {
    never_negative(tokens) && paren_depth(tokens) == 0
}

/// No token of `tokens` is a parenthesis.
pub open spec fn no_parens(tokens: Seq<Token>) -> bool {
    forall|i: int| 0 <= i < tokens.len() ==> !(#[trigger] tokens[i]).is_paren()
}

/// What the operator stack may hold: no number and no right parenthesis.
pub open spec fn stack_entries_only(stack: Seq<Token>) -> bool {
    forall|i: int|
        0 <= i < stack.len() ==> !((#[trigger] stack[i]) is Number) && stack[i] != right_paren()
}

/// The left parentheses on the operator stack.
pub open spec fn open_parens(stack: Seq<Token>) -> nat
    decreases stack.len(),
{
    if stack.len() == 0 {
        0
    } else {
        open_parens(stack.drop_last()) + if stack.last() == left_paren() {
            1nat
        } else {
            0nat
        }
    }
}

impl ShuntModel {
    /// The output is free of parentheses, and the stack holds only functions,
    /// left parentheses and other operators.
    pub open spec fn wf(self) -> bool {
        no_parens(self.output) && stack_entries_only(self.stack)
    }
}

/// Moving the top of the stack to the output, where the top is no left
/// parenthesis, keeps the converter well formed and the open parentheses.
pub proof fn lemma_pop_to_output(m: ShuntModel)
    requires
        m.wf(),
        m.stack.len() > 0,
        m.stack.last() != left_paren(),
    ensures
        m.pop_to_output().wf(),
        open_parens(m.pop_to_output().stack) == open_parens(m.stack),
{
    let n = m.pop_to_output();
    assert(!m.stack[m.stack.len() - 1].is_paren());
    assert forall|i: int| 0 <= i < n.output.len() implies !(#[trigger] n.output[i]).is_paren() by {
        if i < m.output.len() {
            assert(n.output[i] == m.output[i]);
        }
    }
    assert forall|i: int| 0 <= i < n.stack.len() implies !((#[trigger] n.stack[i]) is Number)
        && n.stack[i] != right_paren() by {
        assert(n.stack[i] == m.stack[i]);
    }
}

/// Pushing `t` on a stack adds to its open parentheses what `t` is.
pub proof fn lemma_open_parens_push(stack: Seq<Token>, t: Token)
    ensures
        open_parens(stack.push(t)) == open_parens(stack) + if t == left_paren() {
            1nat
        } else {
            0nat
        },
{
    assert(stack.push(t).drop_last() =~= stack);
}

/// A right parenthesis is accepted exactly where a left parenthesis is open,
/// and closes one.
pub proof fn lemma_close_paren(m: ShuntModel)
    requires
        m.wf(),
    ensures
        m.close_paren() is Ok <==> open_parens(m.stack) > 0,
        m.close_paren() is Err ==> m.close_paren() == Err::<ShuntModel, StructuralError>(
            StructuralError::UnbalancedParens,
        ),
        m.close_paren() matches Ok(n) ==> n.wf() && open_parens(n.stack) + 1 == open_parens(
            m.stack,
        ),
    decreases m.stack.len(),
{
    if m.stack.len() == 0 {
    } else if m.stack.last() == left_paren() {
        let n = ShuntModel { output: m.output, stack: m.stack.drop_last() };
        assert forall|i: int| 0 <= i < n.stack.len() implies !((#[trigger] n.stack[i]) is Number)
            && n.stack[i] != right_paren() by {
            assert(n.stack[i] == m.stack[i]);
        }
    } else {
        lemma_pop_to_output(m);
        lemma_close_paren(m.pop_to_output());
    }
}

/// Making way for an operator keeps the converter well formed and the open
/// parentheses.
pub proof fn lemma_yield_to(m: ShuntModel, op: Token)
    requires
        m.wf(),
    ensures
        m.yield_to(op).wf(),
        open_parens(m.yield_to(op).stack) == open_parens(m.stack),
    decreases m.stack.len(),
{
    if m.stack.len() > 0 && crate::shunting::pops_before(m.stack.last(), op) {
        lemma_pop_to_output(m);
        lemma_yield_to(m.pop_to_output(), op);
    }
}

/// A token is accepted unless it is a right parenthesis with no left
/// parenthesis open; the open parentheses then follow the token.
pub proof fn lemma_step(m: ShuntModel, t: Token)
    requires
        m.wf(),
    ensures
        m.step(t) is Ok <==> open_parens(m.stack) + depth_change(t) >= 0,
        m.step(t) is Err ==> m.step(t) == Err::<ShuntModel, StructuralError>(
            StructuralError::UnbalancedParens,
        ),
        m.step(t) matches Ok(n) ==> n.wf() && open_parens(n.stack) == open_parens(m.stack)
            + depth_change(t),
{
    if t == right_paren() {
        lemma_close_paren(m);
    } else if t is Number {
        let n = m.step(t)->Ok_0;
        assert(!t.is_paren());
        assert forall|i: int| 0 <= i < n.output.len() implies !(#[trigger] n.output[i]).is_paren() by {
            if i < m.output.len() {
                assert(n.output[i] == m.output[i]);
            }
        }
    } else {
        let before = if t is Function || t == left_paren() {
            m
        } else {
            m.yield_to(t)
        };
        lemma_yield_to(m, t);
        let n = m.step(t)->Ok_0;
        assert(n.output == before.output);
        assert(n.stack == before.stack.push(t));
        lemma_open_parens_push(before.stack, t);
        assert forall|i: int| 0 <= i < n.stack.len() implies !((#[trigger] n.stack[i]) is Number)
            && n.stack[i] != right_paren() by {
            if i < before.stack.len() {
                assert(n.stack[i] == before.stack[i]);
            }
        }
    }
}

/// The end of the input is accepted exactly where no left parenthesis is
/// open, and the output is then free of parentheses.
pub proof fn lemma_drain(m: ShuntModel)
    requires
        m.wf(),
    ensures
        m.drain() is Ok <==> open_parens(m.stack) == 0,
        m.drain() is Err ==> m.drain() == Err::<Seq<Token>, StructuralError>(
            StructuralError::UnbalancedParens,
        ),
        m.drain() matches Ok(out) ==> no_parens(out),
    decreases m.stack.len(),
{
    if m.stack.len() > 0 && m.stack.last() != left_paren() {
        lemma_pop_to_output(m);
        lemma_drain(m.pop_to_output());
    }
}

/// A sequence never closes more than it opens exactly if that holds of the
/// sequence without its last token, and of its own depth.
pub proof fn lemma_never_negative_unfold(tokens: Seq<Token>)
    requires
        tokens.len() > 0,
    ensures
        never_negative(tokens) <==> never_negative(tokens.drop_last()) && paren_depth(tokens) >= 0,
{
    let front = tokens.drop_last();
    assert(tokens.take(tokens.len() as int) =~= tokens);
    if never_negative(tokens) {
        assert forall|k: int| 0 <= k <= front.len() implies paren_depth(#[trigger] front.take(k))
            >= 0 by {
            assert(front.take(k) =~= tokens.take(k));
        }
    }
    if never_negative(front) && paren_depth(tokens) >= 0 {
        assert forall|k: int| 0 <= k <= tokens.len() implies paren_depth(
            #[trigger] tokens.take(k),
        ) >= 0 by {
            if k < tokens.len() {
                assert(front.take(k) =~= tokens.take(k));
            }
        }
    }
}

/// The converter reads a sequence to its end exactly if no prefix closes
/// more parentheses than it opens. It is then well formed, and its stack
/// holds the left parentheses that are open.
pub proof fn lemma_shunt(tokens: Seq<Token>)
    ensures
        shunt(tokens) is Ok <==> never_negative(tokens),
        shunt(tokens) is Err ==> shunt(tokens) == Err::<ShuntModel, StructuralError>(
            StructuralError::UnbalancedParens,
        ),
        shunt(tokens) matches Ok(m) ==> m.wf() && open_parens(m.stack) == paren_depth(tokens),
    decreases tokens.len(),
{
    if tokens.len() == 0 {
        assert forall|k: int| 0 <= k <= tokens.len() implies paren_depth(
            #[trigger] tokens.take(k),
        ) >= 0 by {
            assert(tokens.take(k) =~= tokens);
        }
    } else {
        lemma_shunt(tokens.drop_last());
        lemma_never_negative_unfold(tokens);
        if let Ok(m) = shunt(tokens.drop_last()) {
            lemma_step(m, tokens.last());
        }
    }
}

/// The conversion succeeds exactly on sequences whose parentheses balance;
/// its only failure is that they do not; and its output holds no
/// parenthesis.
pub proof fn lemma_rpn_balanced(tokens: Seq<Token>)
    ensures
        rpn_of(tokens) is Ok <==> balanced(tokens),
        rpn_of(tokens) is Err ==> rpn_of(tokens) == Err::<Seq<Token>, StructuralError>(
            StructuralError::UnbalancedParens,
        ),
        rpn_of(tokens) matches Ok(out) ==> no_parens(out),
{
    lemma_shunt(tokens);
    if let Ok(m) = shunt(tokens) {
        lemma_drain(m);
    }
}

} // verus!
