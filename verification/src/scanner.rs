//! The scanner's state machine, and the tokenizer that drives it over a
//! string.

use crate::error::LexError;
use crate::lexer::{
    all_digits, is_digit, is_letter, is_symbol, lowercase, to_token, token_of, TokenState,
};
use crate::scan_laws::{is_recognized, lemma_step_wf, lemma_tokens_of_failures};
use crate::token::Token;
use vstd::prelude::*;

verus! {

/// The scanner as a mathematical value: the tokens emitted so far, the
/// characters collected for the next token, and what they are collected as.
pub struct ScanModel {
    pub tokens: Seq<Token>,
    pub buf: Seq<char>,
    pub state: TokenState,
}

impl ScanModel {
    /// The scanner before the first character.
    pub open spec fn start() -> ScanModel {
        ScanModel { tokens: Seq::empty(), buf: Seq::empty(), state: TokenState::Idle }
    }

    /// The buffer holds what its state promises: nothing when idle, digits
    /// in a number, one symbol in a symbol, lower-case letters in a word.
    pub open spec fn wf(self) -> bool {
        match self.state {
            TokenState::Idle => self.buf.len() == 0,
            TokenState::InNumber => self.buf.len() > 0 && all_digits(self.buf),
            TokenState::InSymbol => self.buf.len() == 1 && is_symbol(self.buf[0]),
            TokenState::InWord => self.buf.len() > 0 && forall|i: int|
                0 <= i < self.buf.len() ==> 'a' <= #[trigger] self.buf[i] <= 'z',
        }
    }

    /// The emitted tokens followed by the token of the buffer.
    pub open spec fn emit(self) -> Result<Seq<Token>, LexError> {
        match token_of(self.state, self.buf) {
            Ok(t) => Ok(self.tokens.push(t)),
            Err(e) => Err(e),
        }
    }

    /// The scanner after a character `c` that belongs to a run collected as
    /// `target`: the run goes on, or the buffer is emitted and a new run
    /// starts with `c`.
    pub open spec fn extend_run(self, c: char, target: TokenState) -> Result<ScanModel, LexError> {
        if self.state == target {
            Ok(ScanModel { tokens: self.tokens, buf: self.buf.push(c), state: target })
        } else if self.state == TokenState::Idle {
            Ok(ScanModel { tokens: self.tokens, buf: seq![c], state: target })
        } else if self.buf.len() > 0 {
            match self.emit() {
                Ok(ts) => Ok(ScanModel { tokens: ts, buf: seq![c], state: target }),
                Err(e) => Err(e),
            }
        } else {
            Err(LexError::BrokenScanner)
        }
    }

    /// The scanner after the digit `c`.
    pub open spec fn on_digit(self, c: char) -> Result<ScanModel, LexError> {
        self.extend_run(c, TokenState::InNumber)
    }

    /// The scanner after the letter `c`, which is collected in lower case.
    pub open spec fn on_letter(self, c: char) -> Result<ScanModel, LexError> {
        self.extend_run(lowercase(c), TokenState::InWord)
    }

    /// The scanner after the symbol `c`: a symbol always ends the buffer
    /// before it and starts one of its own.
    pub open spec fn on_symbol(self, c: char) -> Result<ScanModel, LexError> {
        if self.buf.len() > 0 {
            match self.emit() {
                Ok(ts) => Ok(ScanModel { tokens: ts, buf: seq![c], state: TokenState::InSymbol }),
                Err(e) => Err(e),
            }
        } else {
            Ok(ScanModel { tokens: self.tokens, buf: seq![c], state: TokenState::InSymbol })
        }
    }

    /// The scanner after any character: a space changes nothing, and a
    /// character outside the language is reported.
    pub open spec fn step(self, c: char) -> Result<ScanModel, LexError> {
        if is_digit(c) {
            self.on_digit(c)
        } else if is_symbol(c) {
            self.on_symbol(c)
        } else if is_letter(c) {
            self.on_letter(c)
        } else if c == ' ' {
            Ok(self)
        } else {
            Err(LexError::UnrecognizedChar(c))
        }
    }

    /// The tokens at the end of the input: what was emitted, and the token of
    /// a buffer that is not empty.
    pub open spec fn finish(self) -> Result<Seq<Token>, LexError> {
        if self.buf.len() > 0 {
            self.emit()
        } else {
            Ok(self.tokens)
        }
    }
}

/// The scanner after the characters of `s`, or the first failure on the way.
pub open spec fn scan(s: Seq<char>) -> Result<ScanModel, LexError>
    decreases s.len(),
{
    if s.len() == 0 {
        Ok(ScanModel::start())
    } else {
        match scan(s.drop_last()) {
            Ok(m) => m.step(s.last()),
            Err(e) => Err(e),
        }
    }
}

/// The tokens of the expression `s`, or the first lexical failure.
pub open spec fn tokens_of(s: Seq<char>) -> Result<Seq<Token>, LexError> {
    match scan(s) {
        Ok(m) => m.finish(),
        Err(e) => Err(e),
    }
}

/// The scanner: the tokens emitted so far, the buffer, and its state.
pub struct Scanner {
    pub tokens: Vec<Token>,
    pub buf: Vec<char>,
    pub state: TokenState,
}

impl View for Scanner {
    type V = ScanModel;

    open spec fn view(&self) -> ScanModel {
        ScanModel { tokens: self.tokens@, buf: self.buf@, state: self.state }
    }
}

/// The outcome of a transition, with the scanner taken as a value.
pub open spec fn outcome(r: Result<Scanner, LexError>) -> Result<ScanModel, LexError> {
    match r {
        Ok(s) => Ok(s@),
        Err(e) => Err(e),
    }
}

/// The outcome of a scan, with the tokens taken as a sequence.
pub open spec fn token_outcome(r: Result<Vec<Token>, LexError>) -> Result<Seq<Token>, LexError> {
    match r {
        Ok(v) => Ok(v@),
        Err(e) => Err(e),
    }
}

impl Scanner {
    /// A scanner that has read nothing.
    pub fn new() -> (s: Scanner)
        ensures
            s@ == ScanModel::start(),
            s@.wf(),
    {
        Scanner { tokens: Vec::new(), buf: Vec::new(), state: TokenState::Idle }
    }

    /// Emits the token of the buffer and starts a buffer with `c`.
    fn emit_and_start(self, c: char, target: TokenState) -> (r: Result<Scanner, LexError>)
        ensures
            outcome(r) == match self@.emit() {
                Ok(ts) => Ok(ScanModel { tokens: ts, buf: seq![c], state: target }),
                Err(e) => Err(e),
            },
    {
        let Scanner { mut tokens, mut buf, state } = self;
        match to_token(state, &buf) {
            Ok(t) => {
                tokens.push(t);
                buf.clear();
                buf.push(c);
                assert(buf@ =~= seq![c]);
                Ok(Scanner { tokens, buf, state: target })
            },
            Err(e) => Err(e),
        }
    }

    /// Starts a buffer with `c`, dropping what the buffer held.
    fn start_with(self, c: char, target: TokenState) -> (s: Scanner)
        ensures
            s@ == (ScanModel { tokens: self@.tokens, buf: seq![c], state: target }),
    {
        let Scanner { tokens, mut buf, state: _ } = self;
        buf.clear();
        buf.push(c);
        assert(buf@ =~= seq![c]);
        Scanner { tokens, buf, state: target }
    }

    /// Takes a character of a run that is collected as `target`.
    fn extend_run(self, c: char, target: TokenState) -> (r: Result<Scanner, LexError>)
        ensures
            outcome(r) == self@.extend_run(c, target),
    {
        if self.state == target {
            let Scanner { tokens, mut buf, state } = self;
            buf.push(c);
            Ok(Scanner { tokens, buf, state })
        } else if self.state == TokenState::Idle {
            Ok(self.start_with(c, target))
        } else if self.buf.len() > 0 {
            self.emit_and_start(c, target)
        } else {
            Err(LexError::BrokenScanner)
        }
    }

    /// Takes the digit `c`.
    pub fn on_digit(self, c: char) -> (r: Result<Scanner, LexError>)
        ensures
            outcome(r) == self@.on_digit(c),
    {
        self.extend_run(c, TokenState::InNumber)
    }

    /// Takes the letter `c`.
    pub fn on_letter(self, c: char) -> (r: Result<Scanner, LexError>)
        ensures
            outcome(r) == self@.on_letter(c),
    {
        self.extend_run(to_lowercase(c), TokenState::InWord)
    }

    /// Takes the symbol `c`.
    pub fn on_symbol(self, c: char) -> (r: Result<Scanner, LexError>)
        ensures
            outcome(r) == self@.on_symbol(c),
    {
        if self.buf.len() > 0 {
            self.emit_and_start(c, TokenState::InSymbol)
        } else {
            Ok(self.start_with(c, TokenState::InSymbol))
        }
    }

    /// Takes any character. A well-formed scanner stays well formed and is
    /// never found broken.
    pub fn step(self, c: char) -> (r: Result<Scanner, LexError>)
        ensures
            outcome(r) == self@.step(c),
            self@.wf() ==> (r matches Ok(s) ==> s@.wf()),
            self@.wf() ==> r != Err::<Scanner, LexError>(LexError::BrokenScanner),
    {
        proof {
            if self@.wf() {
                lemma_step_wf(self@, c);
            }
        }
        if c >= '0' && c <= '9' {
            self.on_digit(c)
        } else if symbol_char(c) {
            self.on_symbol(c)
        } else if (c >= 'a' && c <= 'z') || (c >= 'A' && c <= 'Z') {
            self.on_letter(c)
        } else if c == ' ' {
            Ok(self)
        } else {
            Err(LexError::UnrecognizedChar(c))
        }
    }

    /// Ends the scan and hands out the tokens.
    pub fn finish(self) -> (r: Result<Vec<Token>, LexError>)
        ensures
            token_outcome(r) == self@.finish(),
    {
        let Scanner { mut tokens, buf, state } = self;
        if buf.len() > 0 {
            match to_token(state, &buf) {
                Ok(t) => {
                    tokens.push(t);
                    Ok(tokens)
                },
                Err(e) => Err(e),
            }
        } else {
            Ok(tokens)
        }
    }
}

/// The lower-case form of an ASCII letter.
pub fn to_lowercase(c: char) -> (r: char)
    ensures
        r == lowercase(c),
{
    if c >= 'A' && c <= 'Z' {
        let b: u8 = c as u8;
        (b + 32) as char
    } else {
        c
    }
}

/// Whether `c` is one of the nine operator and parenthesis characters.
pub fn symbol_char(c: char) -> (b: bool)
    ensures
        b == is_symbol(c),
{
    c == '+' || c == '-' || c == '*' || c == '/' || c == '^' || c == '%' || c == '!' || c == '('
        || c == ')'
}

/// A failure of the scan of a prefix is the failure of the scan of the whole.
pub proof fn lemma_scan_failure_stays(s: Seq<char>, n: int)
    requires
        0 <= n <= s.len(),
        scan(s.take(n)) is Err,
    ensures
        scan(s) == scan(s.take(n)),
    decreases s.len(),
{
    if n == s.len() {
        assert(s.take(n) =~= s);
    } else {
        assert(s.drop_last().take(n) =~= s.take(n));
        lemma_scan_failure_stays(s.drop_last(), n);
    }
}

/// Splits the expression `s` into its tokens.
///
/// Digits form numbers, letters form function names in lower case, each
/// symbol is an operator of its own, and spaces are skipped without ending a
/// number or a word. The scan stops at the first failure, which is a
/// character outside the language, a word that names no function, or a
/// number that is too large.
pub fn tokenizer(s: &str) -> (r: Result<Vec<Token>, LexError>)
    ensures
        token_outcome(r) == tokens_of(s@),
        r != Err::<Vec<Token>, LexError>(LexError::BrokenScanner),
        r is Ok ==> forall|i: int| 0 <= i < s@.len() ==> is_recognized(#[trigger] s@[i]),
        forall|c: char|
            r == Err::<Vec<Token>, LexError>(LexError::UnrecognizedChar(c)) ==> !is_recognized(c)
                && s@.contains(c),
{
    let mut scanner = Scanner::new();
    assert(s@.take(0) =~= Seq::<char>::empty());
    for c in it: s.chars()
        invariant
            it.seq() == s@,
            scan(s@.take(it.index() as int)) == Ok::<ScanModel, LexError>(scanner@),
    {
        let ghost n = it.index() as int;
        proof {
            assert(s@.take(n + 1).drop_last() =~= s@.take(n));
            assert(s@.take(n + 1).last() == c);
        }
        match scanner.step(c) {
            Ok(next) => {
                scanner = next;
            },
            Err(e) => {
                proof {
                    lemma_scan_failure_stays(s@, n + 1);
                    lemma_tokens_of_failures(s@);
                }
                return Err(e);
            },
        }
    }
    proof {
        assert(s@.take(s@.len() as int) =~= s@);
        lemma_tokens_of_failures(s@);
    }
    scanner.finish()
}

} // verus!
