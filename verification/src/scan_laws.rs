//! What holds of every scan: the scanner stays well formed, spaces change
//! nothing, failures name a character of the input, and the parentheses of
//! the tokens are those of the text.

use crate::balance::{depth_change, lemma_never_negative_unfold, never_negative, paren_depth};
use crate::error::LexError;
use crate::lexer::{is_digit, is_letter, is_symbol, token_of, TokenState};
use crate::scanner::{scan, tokens_of, ScanModel};
use crate::token::Token;
use vstd::prelude::*;

verus! {

/// `c` belongs to the expression language.
pub open spec fn is_recognized(c: char) -> bool {
    is_digit(c) || is_symbol(c) || is_letter(c) || c == ' '
}

/// From a well-formed scanner the buffer always stands for a token, unless
/// it is a word that names no function or a number that is too large.
pub proof fn lemma_emit_wf(m: ScanModel)
    requires
        m.wf(),
        m.buf.len() > 0,
    ensures
        m.emit() != Err::<Seq<Token>, LexError>(LexError::BrokenScanner),
        m.emit() matches Err(e) ==> e == LexError::UnknownWord || e == LexError::InvalidNumber,
{
}

/// A transition keeps the scanner well formed, and never finds it broken.
pub proof fn lemma_step_wf(m: ScanModel, c: char)
    requires
        m.wf(),
    ensures
        m.step(c) matches Ok(n) ==> n.wf(),
        m.step(c) matches Err(e) ==> e == LexError::UnknownWord || e == LexError::InvalidNumber
            || (e == LexError::UnrecognizedChar(c) && !is_recognized(c)),
        is_recognized(c) && m.buf.len() == 0 ==> m.step(c) is Ok,
{
    if m.buf.len() > 0 {
        lemma_emit_wf(m);
    }
    if let Ok(n) = m.step(c) {
        if is_digit(c) {
            if m.state == TokenState::InNumber {
                assert forall|i: int| 0 <= i < n.buf.len() implies is_digit(#[trigger] n.buf[i]) by {
                    if i < m.buf.len() {
                        assert(n.buf[i] == m.buf[i]);
                    }
                }
            }
        } else if is_symbol(c) {
        } else if is_letter(c) {
            if m.state == TokenState::InWord {
                assert forall|i: int| 0 <= i < n.buf.len() implies 'a' <= #[trigger] n.buf[i]
                    <= 'z' by {
                    if i < m.buf.len() {
                        assert(n.buf[i] == m.buf[i]);
                    }
                }
            }
        }
    }
}

/// Every scan leaves a well-formed scanner; a scan that fails met an unknown
/// word, a number that is too large, or a character of the input that does
/// not belong to the language.
pub proof fn lemma_scan_wf(s: Seq<char>)
    ensures
        scan(s) matches Ok(m) ==> m.wf(),
        scan(s) matches Err(e) ==> e == LexError::UnknownWord || e == LexError::InvalidNumber
            || exists|i: int|
            0 <= i < s.len() && e == LexError::UnrecognizedChar(#[trigger] s[i]) && !is_recognized(
                s[i],
            ),
        scan(s) is Ok ==> forall|i: int| 0 <= i < s.len() ==> is_recognized(#[trigger] s[i]),
    decreases s.len(),
{
    if s.len() > 0 {
        let front = s.drop_last();
        lemma_scan_wf(front);
        match scan(front) {
            Ok(m) => {
                lemma_step_wf(m, s.last());
                if let Err(e) = m.step(s.last()) {
                    if e == LexError::UnrecognizedChar(s.last()) && !is_recognized(s.last()) {
                        assert(s[s.len() - 1] == s.last());
                    }
                } else {
                    assert forall|i: int| 0 <= i < s.len() implies is_recognized(#[trigger] s[i]) by {
                        if i < front.len() {
                            assert(s[i] == front[i]);
                        }
                    }
                }
            },
            Err(e) => {
                if e != LexError::UnknownWord && e != LexError::InvalidNumber {
                    let i = choose|i: int|
                        0 <= i < front.len() && e == LexError::UnrecognizedChar(#[trigger] front[i])
                            && !is_recognized(front[i]);
                    assert(s[i] == front[i]);
                }
            },
        }
    }
}

/// The tokenizer never reports a broken scanner. Where it succeeds, every
/// character of the input belongs to the language; where it reports a
/// character, that character is in the input and does not.
pub proof fn lemma_tokens_of_failures(s: Seq<char>)
    ensures
        tokens_of(s) != Err::<Seq<Token>, LexError>(LexError::BrokenScanner),
        tokens_of(s) is Ok ==> forall|i: int| 0 <= i < s.len() ==> is_recognized(#[trigger] s[i]),
        forall|c: char|
            tokens_of(s) == Err::<Seq<Token>, LexError>(LexError::UnrecognizedChar(c))
                ==> !is_recognized(c) && s.contains(c),
{
    lemma_scan_wf(s);
    if let Ok(m) = scan(s) {
        if m.buf.len() > 0 {
            lemma_emit_wf(m);
        }
    }
}

/// The text without its spaces.
pub open spec fn without_spaces(s: Seq<char>) -> Seq<char>
    decreases s.len(),
{
    if s.len() == 0 {
        s
    } else if s.last() == ' ' {
        without_spaces(s.drop_last())
    } else {
        without_spaces(s.drop_last()).push(s.last())
    }
}

/// Spaces change nothing: a text and the same text without its spaces give
/// the same tokens, or the same failure.
pub proof fn lemma_spaces_are_skipped(s: Seq<char>)
    ensures
        scan(s) == scan(without_spaces(s)),
        tokens_of(s) == tokens_of(without_spaces(s)),
    decreases s.len(),
{
    if s.len() > 0 {
        lemma_spaces_are_skipped(s.drop_last());
        if s.last() != ' ' {
            let t = without_spaces(s.drop_last()).push(s.last());
            assert(t.drop_last() =~= without_spaces(s.drop_last()));
        }
    }
}

/// What the character `c` adds to the number of open parentheses.
pub open spec fn char_depth_change(c: char) -> int {
    if c == '(' {
        1
    } else if c == ')' {
        -1
    } else {
        0
    }
}

/// The left parentheses of the text `s` less its right parentheses.
pub open spec fn char_depth(s: Seq<char>) -> int
    decreases s.len(),
{
    if s.len() == 0 {
        0
    } else {
        char_depth(s.drop_last()) + char_depth_change(s.last())
    }
}

/// No prefix of the text `s` closes more parentheses than it opens.
pub open spec fn chars_never_negative(s: Seq<char>) -> bool {
    forall|k: int| 0 <= k <= s.len() ==> char_depth(#[trigger] s.take(k)) >= 0
}

/// The parentheses of the text `s` balance.
pub open spec fn chars_balanced(s: Seq<char>) -> bool {
    chars_never_negative(s) && char_depth(s) == 0
}

/// What the buffer of the scanner will add to the depth of the tokens.
pub open spec fn pending_depth(m: ScanModel) -> int {
    if m.state == TokenState::InSymbol && m.buf.len() > 0 {
        char_depth_change(m.buf[0])
    } else {
        0
    }
}

/// The tokens that a well-formed scanner has emitted, with its buffer, are
/// as deep in parentheses as `depth`, and the tokens alone never negative.
pub open spec fn tracks_depth(m: ScanModel, depth: int) -> bool {
    m.wf() && never_negative(m.tokens) && paren_depth(m.tokens) + pending_depth(m) == depth
}

/// Emitting the buffer moves its pending depth into the tokens.
pub proof fn lemma_emit_depth(m: ScanModel, depth: int)
    requires
        tracks_depth(m, depth),
        depth >= 0,
        m.buf.len() > 0,
    ensures
        m.emit() matches Ok(ts) ==> never_negative(ts) && paren_depth(ts) == depth,
{
    if let Ok(ts) = m.emit() {
        let t = token_of(m.state, m.buf)->Ok_0;
        assert(ts.drop_last() =~= m.tokens);
        assert(depth_change(t) == pending_depth(m));
        lemma_never_negative_unfold(ts);
    }
}

/// A transition on `c` keeps track of the depth of the text.
pub proof fn lemma_step_depth(m: ScanModel, c: char, depth: int)
    requires
        tracks_depth(m, depth),
        depth >= 0,
    ensures
        m.step(c) matches Ok(n) ==> tracks_depth(n, depth + char_depth_change(c)),
{
    lemma_step_wf(m, c);
    if m.buf.len() > 0 {
        lemma_emit_depth(m, depth);
    }
}

/// Along a text that never closes more than it opens, the scanner keeps
/// track of the depth of the text.
pub proof fn lemma_scan_depth(s: Seq<char>)
    requires
        chars_never_negative(s),
    ensures
        scan(s) matches Ok(m) ==> tracks_depth(m, char_depth(s)),
        char_depth(s) >= 0,
    decreases s.len(),
{
    assert(s.take(s.len() as int) =~= s);
    if s.len() == 0 {
        let m = ScanModel::start();
        assert forall|k: int| 0 <= k <= m.tokens.len() implies paren_depth(
            #[trigger] m.tokens.take(k),
        ) >= 0 by {
            assert(m.tokens.take(k) =~= m.tokens);
        }
    } else {
        let front = s.drop_last();
        assert forall|k: int| 0 <= k <= front.len() implies char_depth(#[trigger] front.take(k))
            >= 0 by {
            assert(front.take(k) =~= s.take(k));
        }
        lemma_scan_depth(front);
        if let Ok(m) = scan(front) {
            lemma_step_depth(m, s.last(), char_depth(front));
        }
    }
}

/// The tokens of a text whose parentheses balance are balanced.
pub proof fn lemma_balanced_text_gives_balanced_tokens(s: Seq<char>)
    requires
        chars_balanced(s),
    ensures
        tokens_of(s) matches Ok(ts) ==> crate::balance::balanced(ts),
{
    lemma_scan_depth(s);
    if let Ok(m) = scan(s) {
        if m.buf.len() > 0 {
            lemma_emit_depth(m, char_depth(s));
        }
    }
}

} // verus!
