//! The executable tokenizer, proved to follow the lexical grammar of
//! `crate::model` pull by pull.

use vstd::prelude::*;

use crate::model::digit_value;
use crate::model::digits_end;
use crate::model::digits_value;
use crate::model::ident_end;
use crate::model::is_digit;
use crate::model::is_ident_char;
use crate::model::is_ident_start;
use crate::model::pull;
use crate::model::quote_end;
use crate::model::skip_to_token;
use crate::model::token_start;
use crate::model::PullOutcome;
use crate::model::PullStep;
use crate::tokens::LexError;
use crate::tokens::Literal;
use crate::tokens::Token;
use crate::tokens::TokenKind;

verus! {

/// How an executable pull result corresponds to one step of the grammar:
/// the end of the input maps to `None`, a token to `Ok` with the step's
/// line count, a failure to `Err`.
pub open spec fn pull_result_matches(r: Option<Result<Token, LexError>>, step: PullStep) -> bool {
    match step.outcome {
        PullOutcome::End => r is None,
        PullOutcome::Token(k) => r matches Some(Ok(t)) && t.kind@ == k && t.line as nat
            == step.line,
        PullOutcome::Fail(e) => r matches Some(Err(err)) && err@ == e,
    }
}

/// Executable test for `is_digit`.
fn digit_char(c: char) -> (r: bool)
    ensures
        r == is_digit(c),
{
    let u = c as u32;
    ('0' as u32) <= u && u <= ('9' as u32)
}

/// Executable test for `is_ident_start`.
fn ident_start_char(c: char) -> (r: bool)
    ensures
        r == is_ident_start(c),
{
    let u = c as u32;
    c == '_' || (('a' as u32) <= u && u <= ('z' as u32)) || (('A' as u32) <= u && u <= ('Z'
        as u32))
}

/// Executable test for `is_ident_char`.
fn ident_char(c: char) -> (r: bool)
    ensures
        r == is_ident_char(c),
{
    ident_start_char(c) || digit_char(c)
}

/// The state of a `Lexer`, as contracts see it: the input characters, the
/// cursor position, and the line count.
pub ghost struct LexerView {
    pub input: Seq<char>,
    pub pos: nat,
    pub line: nat,
}

/// A tokenizer over an in-memory copy of the input text. It owns a cursor
/// and a line counter; each call of [`Lexer::next`] consumes one token's
/// worth of characters and yields the token, the end-of-input signal, or a
/// failure.
pub struct Lexer {
    /// The input text, kept to slice token payloads out of.
    text: String,
    /// The same input, one character per slot, for position-wise scanning.
    chars: Vec<char>,
    /// How many characters have been consumed.
    pos: usize,
    /// One more than the number of `EndLine` tokens produced so far.
    line_count: u128,
}

impl View for Lexer {
    type V = LexerView;

    closed spec fn view(&self) -> LexerView {
        LexerView { input: self.chars@, pos: self.pos as nat, line: self.line_count as nat }
    }
}

impl Lexer {
    /// The tokenizer's internal invariant: the two copies of the input
    /// agree, the cursor is inside the input, and the line count (which
    /// starts at 1 and grows by 1 per consumed line break) cannot have
    /// outgrown the consumed prefix.
    pub closed spec fn wf(&self) -> bool {
        &&& self.text@ == self.chars@
        &&& self.pos <= self.chars@.len()
        &&& 1 <= self.line_count
        &&& self.line_count <= self.pos + 1
    }

    /// Builds a tokenizer over the given text. Always succeeds; the cursor
    /// starts at the first character and the line count at 1.
    pub fn from_text(text: &str) -> (lexer: Lexer)
        ensures
            lexer.wf(),
            lexer@.input == text@,
            lexer@.pos == 0,
            lexer@.line == 1,
    {
        let n = text.unicode_len();
        let mut chars: Vec<char> = Vec::new();
        let mut i: usize = 0;
        while i < n
            invariant
                i <= n,
                n == text@.len(),
                chars@ =~= text@.subrange(0, i as int),
            decreases n - i,
        {
            chars.push(text.get_char(i));
            i = i + 1;
        }
        assert(chars@ =~= text@);
        Lexer { text: text.to_owned(), chars, pos: 0, line_count: 1 }
    }

    /// A fresh copy of the input characters `from..to`, for token payloads.
    fn token_text(&self, from: usize, to: usize) -> (t: String)
        requires
            self.wf(),
            from <= to,
            to <= self@.input.len(),
        ensures
            t@ == self@.input.subrange(from as int, to as int),
    {
        String::from_str(self.text.as_str().substring_char(from, to))
    }

    /// Pulls the next token: skips spaces and comments, classifies the
    /// upcoming characters by the first matching rule, consumes exactly the
    /// matched span, and returns the token (or the end-of-input signal, or
    /// a failure), precisely as one step of the grammar prescribes.
    #[verifier::loop_isolation(false)]
    pub fn next(&mut self) -> (r: Option<Result<Token, LexError>>)
        requires
            old(self).wf(),
        ensures
            final(self).wf(),
            final(self)@.input == old(self)@.input,
            ({
                let step = pull(old(self)@.input, old(self)@.pos, old(self)@.line);
                &&& final(self)@.pos == step.pos
                &&& final(self)@.line == step.line
                &&& pull_result_matches(r, step)
            }),
    {
        let ghost s = self@.input;
        let ghost p0 = self@.pos;
        let ghost l0 = self@.line;
        let n = self.chars.len();
        assert(n as nat == s.len());

        // Skip the run of plain spaces before the token.
        while self.pos < n && self.chars[self.pos] == ' '
            invariant
                self.wf(),
                self@.input == s,
                self@.line == l0,
                self@.pos <= n,
                skip_to_token(s, p0, false) == skip_to_token(s, self@.pos, false),
            decreases n - self.pos,
        {
            self.pos = self.pos + 1;
        }
        // Skip a comment: `//` up to the next line feed or the end of the
        // input. Whatever follows it is this pull's token, so the skipped
        // span never reaches back before another space or comment.
        if self.pos < n && self.chars[self.pos] == '/' && self.pos + 1 < n && self.chars[self.pos
            + 1] == '/' {
            self.pos = self.pos + 2;
            while self.pos < n && self.chars[self.pos] != '\n'
                invariant
                    self.wf(),
                    self@.input == s,
                    self@.line == l0,
                    self@.pos <= n,
                    skip_to_token(s, p0, false) == skip_to_token(s, self@.pos, true),
                decreases n - self.pos,
            {
                self.pos = self.pos + 1;
            }
        }
        let ghost q = token_start(s, p0);
        assert(self@.pos == q);

        if self.pos >= n {
            return None;
        }
        let c = self.chars[self.pos];

        // End of line.
        if c == '\r' || c == '\n' {
            self.pos = self.pos + 1;
            self.line_count = self.line_count + 1;
            return Some(Ok(Token { kind: TokenKind::EndLine, line: self.line_count }));
        }
        let line = self.line_count;

        // Integer literal: the whole digit run is consumed even when its
        // value does not fit, because the failure names that run.
        if digit_char(c) {
            let start = self.pos;
            let mut value: u64 = 0;
            let mut overflowed = false;
            while self.pos < n && digit_char(self.chars[self.pos])
                invariant
                    self.wf(),
                    self@.input == s,
                    self@.line == l0,
                    start <= self.pos <= n,
                    digits_end(s, start as nat) == digits_end(s, self@.pos),
                    !overflowed ==> value == digits_value(
                        s.subrange(start as int, self.pos as int),
                    ) && value <= i32::MAX,
                    overflowed ==> digits_value(s.subrange(start as int, self.pos as int))
                        > i32::MAX,
                decreases n - self.pos,
            {
                let d = (self.chars[self.pos] as u32 - '0' as u32) as u64;
                proof {
                    let pre = s.subrange(start as int, self.pos as int);
                    let post = s.subrange(start as int, self.pos as int + 1);
                    assert(post.drop_last() =~= pre);
                    assert(post.last() == s[self.pos as int]);
                    assert(digits_value(post) == digits_value(pre) * 10 + digit_value(
                        s[self.pos as int],
                    ));
                }
                if !overflowed {
                    let next_value = value * 10 + d;
                    if next_value <= 2147483647 {
                        value = next_value;
                    } else {
                        overflowed = true;
                    }
                }
                self.pos = self.pos + 1;
            }
            if overflowed {
                let text = self.token_text(start, self.pos);
                return Some(Err(LexError::InvalidInteger(text)));
            } else {
                return Some(
                    Ok(Token { kind: TokenKind::Literal(Literal::Integer(value as i32)), line }),
                );
            }
        }
        // String literal: an opening quote, any run of non-quote
        // characters, and a closing quote. Without the closing quote no
        // rule matches, and only the opening quote is consumed.
        if c == '"' {
            let start = self.pos;
            let mut j = self.pos + 1;
            while j < n && self.chars[j] != '"'
                invariant
                    start + 1 <= j <= n,
                    quote_end(s, start as nat + 1) == quote_end(s, j as nat),
                decreases n - j,
            {
                j = j + 1;
            }
            if j < n {
                let payload = self.token_text(start + 1, j);
                self.pos = j + 1;
                return Some(Ok(Token { kind: TokenKind::Literal(Literal::Str(payload)), line }));
            } else {
                self.pos = self.pos + 1;
                return Some(Err(LexError::UnexpectedToken('"')));
            }
        }
        // Symbols.
        if c == '<' && self.pos + 1 < n && self.chars[self.pos + 1] == '-' {
            let sym = self.token_text(self.pos, self.pos + 2);
            self.pos = self.pos + 2;
            return Some(Ok(Token { kind: TokenKind::Symbol(sym), line }));
        }
        if c == '=' {
            let sym = self.token_text(self.pos, self.pos + 1);
            self.pos = self.pos + 1;
            return Some(Ok(Token { kind: TokenKind::Symbol(sym), line }));
        }
        // Identifier.
        if ident_start_char(c) {
            let start = self.pos;
            self.pos = self.pos + 1;
            while self.pos < n && ident_char(self.chars[self.pos])
                invariant
                    self.wf(),
                    self@.input == s,
                    self@.line == l0,
                    start < self.pos <= n,
                    ident_end(s, start as nat + 1) == ident_end(s, self@.pos),
                decreases n - self.pos,
            {
                self.pos = self.pos + 1;
            }
            let name = self.token_text(start, self.pos);
            return Some(Ok(Token { kind: TokenKind::Identifier(name), line }));
        }
        // No rule matches: consume exactly one character and fail.
        self.pos = self.pos + 1;
        Some(Err(LexError::UnexpectedToken(c)))
    }
}

} // verus!
