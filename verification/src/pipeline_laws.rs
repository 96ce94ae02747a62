//! What holds of the evaluation of a text as a whole.

use crate::balance::{lemma_rpn_balanced, no_parens};
use crate::error::{CalcError, LexError, StructuralError};
use crate::eval::eval_stack;
use crate::eval_laws::{
    lemma_eval_failures, lemma_value_is_sole_entry, lemma_well_formed_postfix_evaluates,
};
use crate::infix::{lemma_well_formed_infix_converts, well_formed_infix};
use crate::lexer::{is_digit, is_letter, is_symbol, TokenState};
use crate::scan_laws::{
    chars_balanced, lemma_balanced_text_gives_balanced_tokens, lemma_scan_wf,
    lemma_spaces_are_skipped, lemma_tokens_of_failures, without_spaces,
};
use crate::scanner::{scan, tokens_of, ScanModel};
use crate::shunting::rpn_of;
use crate::token::Token;
use crate::{calculation_of, evaluation_of};
use vstd::prelude::*;

verus! {

/// The evaluation depends on the characters of the text and on nothing
/// else: two texts with the same characters have the same value, or fail
/// alike.
pub proof fn lemma_same_text_same_result(first: &str, second: &str)
    requires
        first@ == second@,
    ensures
        evaluation_of(first@) == evaluation_of(second@),
        calculation_of(first@) == calculation_of(second@),
{
}

/// Spaces do not change the value of a text.
pub proof fn lemma_spaces_do_not_count(expr: Seq<char>)
    ensures
        evaluation_of(expr) == evaluation_of(without_spaces(expr)),
{
    lemma_spaces_are_skipped(expr);
}

/// A text without letters is never scanned as a word.
pub proof fn lemma_scan_without_letters(s: Seq<char>)
    requires
        forall|i: int| 0 <= i < s.len() ==> !is_letter(#[trigger] s[i]),
    ensures
        scan(s) matches Ok(m) ==> m.state != TokenState::InWord,
        scan(s) != Err::<ScanModel, LexError>(LexError::UnknownWord),
        tokens_of(s) != Err::<Seq<Token>, LexError>(LexError::UnknownWord),
    decreases s.len(),
{
    if s.len() > 0 {
        let front = s.drop_last();
        assert forall|i: int| 0 <= i < front.len() implies !is_letter(#[trigger] front[i]) by {
            assert(front[i] == s[i]);
        }
        lemma_scan_without_letters(front);
        lemma_scan_wf(front);
        assert(!is_letter(s[s.len() - 1]));
    }
}

/// A text of digits and symbols whose parentheses balance: its tokens, if
/// its numbers are not too large, have a postfix form without parentheses,
/// and a value of the text is the one entry that the evaluation leaves on
/// the stack. The text may still have no value: a number may be too large,
/// an operator may lack an operand, or an operation may fail.
pub proof fn lemma_balanced_expression(expr: Seq<char>)
    requires
        forall|i: int| 0 <= i < expr.len() ==> is_digit(#[trigger] expr[i]) || is_symbol(expr[i]),
        chars_balanced(expr),
    ensures
        tokens_of(expr) is Ok || tokens_of(expr) == Err::<Seq<Token>, LexError>(
            LexError::InvalidNumber,
        ),
        tokens_of(expr) matches Ok(tokens) ==> (rpn_of(tokens) matches Ok(rpn) && no_parens(rpn)
            && forall|v: i64|
            evaluation_of(expr) == Ok::<i64, CalcError>(v) ==> eval_stack(rpn) == Ok::<
                Seq<i64>,
                CalcError,
            >(seq![v])),
        evaluation_of(expr) != Err::<i64, CalcError>(
            CalcError::Structure(StructuralError::UnbalancedParens),
        ),
{
    assert forall|i: int| 0 <= i < expr.len() implies !is_letter(#[trigger] expr[i]) by {
        assert(is_digit(expr[i]) || is_symbol(expr[i]));
    }
    lemma_scan_without_letters(expr);
    lemma_tokens_of_failures(expr);
    lemma_scan_wf(expr);
    if let Err(e) = tokens_of(expr) {
        if let LexError::UnrecognizedChar(c) = e {
            let i = choose|i: int| 0 <= i < expr.len() && expr[i] == c;
            assert(is_digit(expr[i]) || is_symbol(expr[i]));
        }
    }
    lemma_balanced_text_gives_balanced_tokens(expr);
    if let Ok(tokens) = tokens_of(expr) {
        lemma_rpn_balanced(tokens);
        let rpn = rpn_of(tokens)->Ok_0;
        lemma_eval_failures(rpn);
        assert forall|v: i64| evaluation_of(expr) == Ok::<i64, CalcError>(v) implies eval_stack(
            rpn,
        ) == Ok::<Seq<i64>, CalcError>(seq![v]) by {
            lemma_value_is_sole_entry(rpn, v);
        }
    }
}

/// A text whose tokens form a well-formed infix sequence has a value unless
/// an operation fails.
pub proof fn lemma_well_formed_expression(expr: Seq<char>)
    requires
        tokens_of(expr) matches Ok(tokens) && well_formed_infix(tokens),
    ensures
        evaluation_of(expr) is Ok || evaluation_of(expr) matches Err(CalcError::Arithmetic(_)),
{
    let tokens = tokens_of(expr)->Ok_0;
    lemma_well_formed_infix_converts(tokens);
    lemma_well_formed_postfix_evaluates(rpn_of(tokens)->Ok_0);
}

} // verus!
