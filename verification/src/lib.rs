//! Integer expression evaluation: tokenizing, conversion to postfix form by
//! the shunting-yard algorithm, and evaluation of the postfix form.

use vstd::prelude::*;

pub mod arith;
pub mod balance;
pub mod error;
pub mod eval;
pub mod eval_laws;
pub mod infix;
pub mod lexer;
pub mod pipeline_laws;
pub mod render;
pub mod reorder;
pub mod scan_laws;
pub mod scanner;
pub mod shunting;
pub mod token;

use crate::error::CalcError;
use crate::eval::value_of;
use crate::scanner::{tokenizer, tokens_of};
use crate::shunting::{generate_rpn, rpn_of};

verus! {

/// The value of the expression `expr`: its tokens, converted to postfix form
/// and evaluated. The first stage that fails gives the failure.
pub open spec fn evaluation_of(expr: Seq<char>) -> Result<i64, CalcError> {
    match tokens_of(expr) {
        Err(e) => Err(CalcError::Lexical(e)),
        Ok(tokens) => match rpn_of(tokens) {
            Err(e) => Err(CalcError::Structure(e)),
            Ok(rpn) => value_of(rpn),
        },
    }
}

/// The value of the expression `expr`, with -1 in place of a failure.
pub open spec fn calculation_of(expr: Seq<char>) -> i64 {
    match evaluation_of(expr) {
        Ok(v) => v,
        Err(_) => -1i64,
    }
}

/// Evaluates the expression `expr`, or says why it has no value.
pub fn evaluate(expr: &str) -> (r: Result<i64, CalcError>)
    ensures
        r == evaluation_of(expr@),
{
    let tokens = match tokenizer(expr) {
        Ok(tokens) => tokens,
        Err(e) => {
            return Err(CalcError::Lexical(e));
        },
    };
    let rpn = match generate_rpn(tokens) {
        Ok(rpn) => rpn,
        Err(e) => {
            return Err(CalcError::Structure(e));
        },
    };
    crate::eval::calc(rpn)
}

/// Evaluates the expression `expr`. An expression without a value gives -1.
pub fn calculate(expr: &str) -> (v: i64)
    ensures
        v == calculation_of(expr@),
{
    match evaluate(expr) {
        Ok(v) => v,
        Err(_) => -1,
    }
}

} // verus!
