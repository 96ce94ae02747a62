//! Conversion of an infix token sequence to postfix form with an operator
//! stack.

use crate::balance::{balanced, lemma_rpn_balanced, lemma_step, no_parens};
use crate::error::StructuralError;
use crate::reorder::{lemma_rpn_reorders, numbers, occurrences};
use crate::token::{
    associativity, get_op_associativity, get_op_precedence, precedence, Assoc, Operator, Token,
};
use vstd::prelude::*;

verus! {

/// The left parenthesis as a token.
pub open spec fn left_paren() -> Token {
    Token::Operator(Operator::LeftParen)
}

/// The right parenthesis as a token.
pub open spec fn right_paren() -> Token {
    Token::Operator(Operator::RightParen)
}

/// Whether `top`, on top of the operator stack, leaves the stack before the
/// operator `op` is pushed: it binds tighter than `op`, or as tightly and
/// groups to the left. A left parenthesis never leaves this way.
pub open spec fn pops_before(top: Token, op: Token) -> bool {
    top != left_paren() && (precedence(top) > precedence(op) || (precedence(top) == precedence(op)
        && associativity(top) == Assoc::Left))
}

/// The converter as a mathematical value: the postfix output so far, and the
/// operator stack with its top last.
pub struct ShuntModel {
    pub output: Seq<Token>,
    pub stack: Seq<Token>,
}

impl ShuntModel {
    /// The converter before the first token.
    pub open spec fn start() -> ShuntModel {
        ShuntModel { output: Seq::empty(), stack: Seq::empty() }
    }

    /// The converter after the top of the stack has moved to the output.
    pub open spec fn pop_to_output(self) -> ShuntModel
        recommends
            self.stack.len() > 0,
    {
        ShuntModel { output: self.output.push(self.stack.last()), stack: self.stack.drop_last() }
    }

    /// The converter after a right parenthesis: the stack moves to the output
    /// down to the nearest left parenthesis, which is dropped. Without a left
    /// parenthesis on the stack the parentheses are unbalanced.
    pub open spec fn close_paren(self) -> Result<ShuntModel, StructuralError>
        decreases self.stack.len(),
    {
        if self.stack.len() == 0 {
            Err(StructuralError::UnbalancedParens)
        } else if self.stack.last() == left_paren() {
            Ok(ShuntModel { output: self.output, stack: self.stack.drop_last() })
        } else {
            self.pop_to_output().close_paren()
        }
    }

    /// The converter after every entry that leaves before `op` has moved from
    /// the top of the stack to the output.
    pub open spec fn yield_to(self, op: Token) -> ShuntModel
        decreases self.stack.len(),
    {
        if self.stack.len() > 0 && pops_before(self.stack.last(), op) {
            self.pop_to_output().yield_to(op)
        } else {
            self
        }
    }

    /// The converter after the token `t`.
    pub open spec fn step(self, t: Token) -> Result<ShuntModel, StructuralError> {
        match t {
            Token::Number(_) => Ok(ShuntModel { output: self.output.push(t), stack: self.stack }),
            Token::Function(_) => Ok(ShuntModel { output: self.output, stack: self.stack.push(t) }),
            Token::Operator(Operator::LeftParen) => Ok(
                ShuntModel { output: self.output, stack: self.stack.push(t) },
            ),
            Token::Operator(Operator::RightParen) => self.close_paren(),
            Token::Operator(_) => {
                let m = self.yield_to(t);
                Ok(ShuntModel { output: m.output, stack: m.stack.push(t) })
            },
        }
    }

    /// The output at the end of the input: the stack moves to the output, top
    /// first. A left parenthesis that is still on the stack has no partner.
    pub open spec fn drain(self) -> Result<Seq<Token>, StructuralError>
        decreases self.stack.len(),
    {
        if self.stack.len() == 0 {
            Ok(self.output)
        } else if self.stack.last() == left_paren() {
            Err(StructuralError::UnbalancedParens)
        } else {
            self.pop_to_output().drain()
        }
    }
}

/// The converter after the tokens of `tokens`, or the failure on the way.
pub open spec fn shunt(tokens: Seq<Token>) -> Result<ShuntModel, StructuralError>
    decreases tokens.len(),
{
    if tokens.len() == 0 {
        Ok(ShuntModel::start())
    } else {
        match shunt(tokens.drop_last()) {
            Ok(m) => m.step(tokens.last()),
            Err(e) => Err(e),
        }
    }
}

/// The postfix form of the infix sequence `tokens`.
pub open spec fn rpn_of(tokens: Seq<Token>) -> Result<Seq<Token>, StructuralError> {
    match shunt(tokens) {
        Ok(m) => m.drain(),
        Err(e) => Err(e),
    }
}

/// The converter: the output so far and the operator stack.
pub struct ShuntingYard {
    pub output: Vec<Token>,
    pub stack: Vec<Token>,
}

impl View for ShuntingYard {
    type V = ShuntModel;

    open spec fn view(&self) -> ShuntModel {
        ShuntModel { output: self.output@, stack: self.stack@ }
    }
}

/// The outcome of a transition, with the converter taken as a value.
pub open spec fn yard_outcome(r: Result<ShuntingYard, StructuralError>) -> Result<
    ShuntModel,
    StructuralError,
> {
    match r {
        Ok(y) => Ok(y@),
        Err(e) => Err(e),
    }
}

/// The outcome of a conversion, with the output taken as a sequence.
pub open spec fn rpn_outcome(r: Result<Vec<Token>, StructuralError>) -> Result<
    Seq<Token>,
    StructuralError,
> {
    match r {
        Ok(v) => Ok(v@),
        Err(e) => Err(e),
    }
}

/// Whether `t` is the left parenthesis.
pub fn is_left_paren(t: &Token) -> (b: bool)
    ensures
        b == (*t == left_paren()),
{
    match t {
        Token::Operator(Operator::LeftParen) => true,
        _ => false,
    }
}

/// Whether `top` leaves the operator stack before `op` is pushed.
pub fn leaves_before(top: &Token, op: &Token) -> (b: bool)
    ensures
        b == pops_before(*top, *op),
{
    if is_left_paren(top) {
        return false;
    }
    let pt = get_op_precedence(top);
    let po = get_op_precedence(op);
    pt > po || (pt == po && match get_op_associativity(top) {
        Assoc::Left => true,
        _ => false,
    })
}

impl ShuntingYard {
    /// A converter that has read nothing.
    pub fn new() -> (y: ShuntingYard)
        ensures
            y@ == ShuntModel::start(),
            y@.wf(),
    {
        ShuntingYard { output: Vec::new(), stack: Vec::new() }
    }

    /// Handles a right parenthesis.
    pub fn close_paren(self) -> (r: Result<ShuntingYard, StructuralError>)
        ensures
            yard_outcome(r) == self@.close_paren(),
    {
        let ShuntingYard { mut output, mut stack } = self;
        loop
            invariant
                (ShuntModel { output: output@, stack: stack@ }).close_paren()
                    == self@.close_paren(),
            decreases stack.len(),
        {
            match stack.pop() {
                None => {
                    return Err(StructuralError::UnbalancedParens);
                },
                Some(top) => {
                    if is_left_paren(&top) {
                        return Ok(ShuntingYard { output, stack });
                    }
                    output.push(top);
                },
            }
        }
    }

    /// Moves to the output what leaves the stack before `op`.
    pub fn yield_to(self, op: &Token) -> (y: ShuntingYard)
        ensures
            y@ == self@.yield_to(*op),
    {
        let ShuntingYard { mut output, mut stack } = self;
        while stack.len() > 0 && leaves_before(&stack[stack.len() - 1], op)
            invariant
                (ShuntModel { output: output@, stack: stack@ }).yield_to(*op) == self@.yield_to(
                    *op,
                ),
            decreases stack.len(),
        {
            let top = stack[stack.len() - 1];
            stack.pop();
            output.push(top);
        }
        ShuntingYard { output, stack }
    }

    /// Takes the token `t`. A well-formed converter stays well formed.
    pub fn step(self, t: Token) -> (r: Result<ShuntingYard, StructuralError>)
        ensures
            yard_outcome(r) == self@.step(t),
            self@.wf() ==> (r matches Ok(y) ==> y@.wf()),
    {
        proof {
            if self@.wf() {
                lemma_step(self@, t);
            }
        }
        match t {
            Token::Number(_) => {
                let ShuntingYard { mut output, stack } = self;
                output.push(t);
                Ok(ShuntingYard { output, stack })
            },
            Token::Function(_) => {
                let ShuntingYard { output, mut stack } = self;
                stack.push(t);
                Ok(ShuntingYard { output, stack })
            },
            Token::Operator(Operator::LeftParen) => {
                let ShuntingYard { output, mut stack } = self;
                stack.push(t);
                Ok(ShuntingYard { output, stack })
            },
            Token::Operator(Operator::RightParen) => self.close_paren(),
            Token::Operator(_) => {
                let ShuntingYard { output, mut stack } = self.yield_to(&t);
                stack.push(t);
                Ok(ShuntingYard { output, stack })
            },
        }
    }

    /// Ends the conversion and hands out the postfix sequence.
    pub fn drain(self) -> (r: Result<Vec<Token>, StructuralError>)
        ensures
            rpn_outcome(r) == self@.drain(),
    {
        let ShuntingYard { mut output, mut stack } = self;
        loop
            invariant
                (ShuntModel { output: output@, stack: stack@ }).drain() == self@.drain(),
            decreases stack.len(),
        {
            match stack.pop() {
                None => {
                    return Ok(output);
                },
                Some(top) => {
                    if is_left_paren(&top) {
                        return Err(StructuralError::UnbalancedParens);
                    }
                    output.push(top);
                },
            }
        }
    }
}

/// A failure of the conversion of a prefix is the failure of the conversion
/// of the whole.
pub proof fn lemma_shunt_failure_stays(tokens: Seq<Token>, n: int)
    requires
        0 <= n <= tokens.len(),
        shunt(tokens.take(n)) is Err,
    ensures
        shunt(tokens) == shunt(tokens.take(n)),
    decreases tokens.len(),
{
    if n == tokens.len() {
        assert(tokens.take(n) =~= tokens);
    } else {
        assert(tokens.drop_last().take(n) =~= tokens.take(n));
        lemma_shunt_failure_stays(tokens.drop_last(), n);
    }
}

/// Converts the infix sequence `tokens` to postfix form.
///
/// The conversion succeeds exactly if the parentheses of `tokens` balance.
/// The postfix sequence holds no parenthesis; it holds every other token of
/// `tokens` as often as `tokens` does, and the numbers in their order.
pub fn generate_rpn(tokens: Vec<Token>) -> (r: Result<Vec<Token>, StructuralError>)
    ensures
        rpn_outcome(r) == rpn_of(tokens@),
        r is Ok <==> balanced(tokens@),
        r matches Err(e) ==> e == StructuralError::UnbalancedParens,
        r matches Ok(rpn) ==> no_parens(rpn@) && numbers(rpn@) == numbers(tokens@),
        r matches Ok(rpn) ==> forall|t: Token|
            !t.is_paren() ==> occurrences(rpn@, t) == #[trigger] occurrences(tokens@, t),
{
    let mut yard = ShuntingYard::new();
    let mut i: usize = 0;
    assert(tokens@.take(0) =~= Seq::<Token>::empty());
    while i < tokens.len()
        invariant
            0 <= i <= tokens.len(),
            shunt(tokens@.take(i as int)) == Ok::<ShuntModel, StructuralError>(yard@),
        decreases tokens.len() - i,
    {
        let t = tokens[i];
        proof {
            assert(tokens@.take(i as int + 1).drop_last() =~= tokens@.take(i as int));
            assert(tokens@.take(i as int + 1).last() == t);
        }
        match yard.step(t) {
            Ok(next) => {
                yard = next;
            },
            Err(e) => {
                proof {
                    lemma_shunt_failure_stays(tokens@, i as int + 1);
                    lemma_rpn_balanced(tokens@);
                }
                return Err(e);
            },
        }
        i += 1;
    }
    proof {
        assert(tokens@.take(i as int) =~= tokens@);
        lemma_rpn_balanced(tokens@);
        lemma_rpn_reorders(tokens@);
    }
    yard.drain()
}

} // verus!
