//! The lexical grammar, stated as spec functions over the input character
//! sequence.
//!
//! A pull first skips plain spaces and comments (`token_start`), then
//! classifies the characters at the resulting position by the first rule
//! that matches, in this order: end-of-line, integer literal, string
//! literal, symbol, identifier. A position where no rule matches costs
//! exactly one character and fails. `pull` packages one such step:
//! the outcome, the cursor position after it, and the line count after it.

use vstd::prelude::*;

use crate::tokens::ErrorModel;
use crate::tokens::KindModel;

verus! {

/// The only character skipped between tokens.
pub open spec fn is_space(c: char) -> bool {
    c == ' '
}

/// A line terminator: carriage return or line feed.
pub open spec fn is_line_break(c: char) -> bool {
    c == '\r' || c == '\n'
}

/// A decimal digit.
pub open spec fn is_digit(c: char) -> bool {
    '0' as u32 <= c as u32 && c as u32 <= '9' as u32
}

/// A character that may open an identifier: underscore or ASCII letter.
pub open spec fn is_ident_start(c: char) -> bool {
    c == '_' || ('a' as u32 <= c as u32 && c as u32 <= 'z' as u32) || ('A' as u32 <= c as u32
        && c as u32 <= 'Z' as u32)
}

/// A character that may continue an identifier.
pub open spec fn is_ident_char(c: char) -> bool {
    is_ident_start(c) || is_digit(c)
}

/// The numeric value of a digit character.
pub open spec fn digit_value(c: char) -> int {
    c as u32 - '0' as u32
}

/// The value of a digit run, most significant digit first.
pub open spec fn digits_value(s: Seq<char>) -> int
    decreases s.len(),
{
    if s.len() == 0 {
        0
    } else {
        digits_value(s.drop_last()) * 10 + digit_value(s.last())
    }
}

/// The position where the next token begins: spaces are skipped, and a
/// `//` comment is skipped up to (not including) the next line feed, or to
/// the end of the input. `in_comment` records whether the scan stands
/// inside a comment.
pub open spec fn skip_to_token(s: Seq<char>, pos: nat, in_comment: bool) -> nat
    decreases s.len() - pos,
{
    if pos >= s.len() {
        pos
    } else if in_comment {
        if s[pos as int] == '\n' {
            pos
        } else {
            skip_to_token(s, pos + 1, true)
        }
    } else if is_space(s[pos as int]) {
        skip_to_token(s, pos + 1, false)
    } else if s[pos as int] == '/' && pos + 1 < s.len() && s[pos as int + 1] == '/' {
        skip_to_token(s, pos + 2, true)
    } else {
        pos
    }
}

/// Where the next token begins, starting outside any comment.
pub open spec fn token_start(s: Seq<char>, pos: nat) -> nat {
    skip_to_token(s, pos, false)
}

/// The end of the digit run that starts at `pos`.
pub open spec fn digits_end(s: Seq<char>, pos: nat) -> nat
    decreases s.len() - pos,
{
    if pos < s.len() && is_digit(s[pos as int]) {
        digits_end(s, pos + 1)
    } else {
        pos
    }
}

/// The end of the identifier-character run that starts at `pos`.
pub open spec fn ident_end(s: Seq<char>, pos: nat) -> nat
    decreases s.len() - pos,
{
    if pos < s.len() && is_ident_char(s[pos as int]) {
        ident_end(s, pos + 1)
    } else {
        pos
    }
}

/// The position of the first double quote at or after `pos`, or the length
/// of the input if there is none.
pub open spec fn quote_end(s: Seq<char>, pos: nat) -> nat
    decreases s.len() - pos,
{
    if pos >= s.len() {
        pos
    } else if s[pos as int] == '"' {
        pos
    } else {
        quote_end(s, pos + 1)
    }
}

/// What one pull yields.
pub ghost enum PullOutcome {
    /// The input is exhausted; the sequence of tokens ends here.
    End,
    /// One classified token.
    Token(KindModel),
    /// A failure; the characters of the offending span are consumed.
    Fail(ErrorModel),
}

/// One pull, in full: its outcome, the cursor position after it, and the
/// line count after it. A token produced by this pull carries `line`.
pub ghost struct PullStep {
    pub outcome: PullOutcome,
    pub pos: nat,
    pub line: nat,
}

/// Classifies the characters at position `q` (already past spaces and
/// comments) by the first matching rule.
pub open spec fn classify_at(s: Seq<char>, q: nat, line: nat) -> PullStep {
    if q >= s.len() {
        PullStep { outcome: PullOutcome::End, pos: q, line }
    } else {
        let c = s[q as int];
        if is_line_break(c) {
            PullStep { outcome: PullOutcome::Token(KindModel::EndLine), pos: q + 1, line: line + 1 }
        } else if is_digit(c) {
            let e = digits_end(s, q);
            let text = s.subrange(q as int, e as int);
            if digits_value(text) <= i32::MAX {
                PullStep {
                    outcome: PullOutcome::Token(KindModel::Integer(digits_value(text) as i32)),
                    pos: e,
                    line,
                }
            } else {
                PullStep {
                    outcome: PullOutcome::Fail(ErrorModel::InvalidInteger(text)),
                    pos: e,
                    line,
                }
            }
        } else if c == '"' {
            let e = quote_end(s, q + 1);
            if e < s.len() {
                PullStep {
                    outcome: PullOutcome::Token(
                        KindModel::Str(s.subrange(q as int + 1, e as int)),
                    ),
                    pos: e + 1,
                    line,
                }
            } else {
                PullStep {
                    outcome: PullOutcome::Fail(ErrorModel::UnexpectedToken('"')),
                    pos: q + 1,
                    line,
                }
            }
        } else if c == '<' && q + 1 < s.len() && s[q as int + 1] == '-' {
            PullStep {
                outcome: PullOutcome::Token(KindModel::Symbol(s.subrange(q as int, q as int + 2))),
                pos: q + 2,
                line,
            }
        } else if c == '=' {
            PullStep {
                outcome: PullOutcome::Token(KindModel::Symbol(s.subrange(q as int, q as int + 1))),
                pos: q + 1,
                line,
            }
        } else if is_ident_start(c) {
            let e = ident_end(s, q + 1);
            PullStep {
                outcome: PullOutcome::Token(KindModel::Identifier(s.subrange(q as int, e as int))),
                pos: e,
                line,
            }
        } else {
            PullStep { outcome: PullOutcome::Fail(ErrorModel::UnexpectedToken(c)), pos: q + 1, line }
        }
    }
}

/// One pull of the tokenizer, from cursor position `pos` with line count
/// `line`: skip spaces and comments, then classify.
pub open spec fn pull(s: Seq<char>, pos: nat, line: nat) -> PullStep {
    classify_at(s, token_start(s, pos), line)
}

/// When only spaces remain, skipping them reaches the end of the input.
pub proof fn lemma_skip_spaces_to_end(s: Seq<char>, pos: nat)
    requires
        pos <= s.len(),
        forall|i: int| pos <= i < s.len() ==> is_space(s[i]),
    ensures
        skip_to_token(s, pos, false) == s.len(),
    decreases s.len() - pos,
{
    if pos < s.len() {
        lemma_skip_spaces_to_end(s, pos + 1);
    }
}

/// A comment with no line feed left runs to the end of the input.
pub proof fn lemma_skip_comment_to_end(s: Seq<char>, pos: nat)
    requires
        pos <= s.len(),
        forall|i: int| pos <= i < s.len() ==> s[i] != '\n',
    ensures
        skip_to_token(s, pos, true) == s.len(),
    decreases s.len() - pos,
{
    if pos < s.len() {
        lemma_skip_comment_to_end(s, pos + 1);
    }
}

/// A comment stops right at the first line feed, which it does not consume.
pub proof fn lemma_skip_comment_to_line_feed(s: Seq<char>, pos: nat, k: nat)
    requires
        pos <= k < s.len(),
        s[k as int] == '\n',
        forall|i: int| pos <= i < k ==> s[i] != '\n',
    ensures
        skip_to_token(s, pos, true) == k,
    decreases k - pos,
{
    if pos < k {
        lemma_skip_comment_to_line_feed(s, pos + 1, k);
    }
}

/// The digit run from `pos` ends exactly at the first non-digit (or at the
/// end of the input).
pub proof fn lemma_digits_end_at(s: Seq<char>, pos: nat, e: nat)
    requires
        pos <= e <= s.len(),
        forall|i: int| pos <= i < e ==> is_digit(s[i]),
        e == s.len() || !is_digit(s[e as int]),
    ensures
        digits_end(s, pos) == e,
    decreases e - pos,
{
    if pos < e {
        lemma_digits_end_at(s, pos + 1, e);
    }
}

/// The identifier-character run from `pos` ends exactly at the first
/// character that cannot continue an identifier (or at the end).
pub proof fn lemma_ident_end_at(s: Seq<char>, pos: nat, e: nat)
    requires
        pos <= e <= s.len(),
        forall|i: int| pos <= i < e ==> is_ident_char(s[i]),
        e == s.len() || !is_ident_char(s[e as int]),
    ensures
        ident_end(s, pos) == e,
    decreases e - pos,
{
    if pos < e {
        lemma_ident_end_at(s, pos + 1, e);
    }
}

/// The first double quote at or after `pos` is found exactly where it
/// stands (or the search ends at the end of the input).
pub proof fn lemma_quote_end_at(s: Seq<char>, pos: nat, e: nat)
    requires
        pos <= e <= s.len(),
        forall|i: int| pos <= i < e ==> s[i] != '"',
        e == s.len() || s[e as int] == '"',
    ensures
        quote_end(s, pos) == e,
    decreases e - pos,
{
    if pos < e {
        lemma_quote_end_at(s, pos + 1, e);
    }
}

/// Skipping spaces and comments never moves backwards nor past the end.
pub proof fn lemma_skip_to_token_bounds(s: Seq<char>, pos: nat, in_comment: bool)
    requires
        pos <= s.len(),
    ensures
        pos <= skip_to_token(s, pos, in_comment) <= s.len(),
    decreases s.len() - pos,
{
    if pos >= s.len() {
    } else if in_comment {
        if s[pos as int] != '\n' {
            lemma_skip_to_token_bounds(s, pos + 1, true);
        }
    } else if is_space(s[pos as int]) {
        lemma_skip_to_token_bounds(s, pos + 1, false);
    } else if s[pos as int] == '/' && pos + 1 < s.len() && s[pos as int + 1] == '/' {
        lemma_skip_to_token_bounds(s, pos + 2, true);
    }
}

/// A digit run never reaches backwards nor past the end.
pub proof fn lemma_digits_end_bounds(s: Seq<char>, pos: nat)
    requires
        pos <= s.len(),
    ensures
        pos <= digits_end(s, pos) <= s.len(),
    decreases s.len() - pos,
{
    if pos < s.len() && is_digit(s[pos as int]) {
        lemma_digits_end_bounds(s, pos + 1);
    }
}

/// An identifier-character run never reaches backwards nor past the end.
pub proof fn lemma_ident_end_bounds(s: Seq<char>, pos: nat)
    requires
        pos <= s.len(),
    ensures
        pos <= ident_end(s, pos) <= s.len(),
    decreases s.len() - pos,
{
    if pos < s.len() && is_ident_char(s[pos as int]) {
        lemma_ident_end_bounds(s, pos + 1);
    }
}

/// The search for a closing quote never reaches backwards nor past the
/// end.
pub proof fn lemma_quote_end_bounds(s: Seq<char>, pos: nat)
    requires
        pos <= s.len(),
    ensures
        pos <= quote_end(s, pos) <= s.len(),
    decreases s.len() - pos,
{
    if pos < s.len() && s[pos as int] != '"' {
        lemma_quote_end_bounds(s, pos + 1);
    }
}

/// The value of a digit run is never negative.
pub proof fn lemma_digits_value_nonneg(s: Seq<char>)
    requires
        forall|i: int| 0 <= i < s.len() ==> is_digit(s[i]),
    ensures
        digits_value(s) >= 0,
    decreases s.len(),
{
    if s.len() > 0 {
        lemma_digits_value_nonneg(s.drop_last());
    }
}

} // verus!
