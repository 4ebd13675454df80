//! General facts about the lexical grammar, proved once and for all
//! inputs. Each is stated over [`crate::model::pull`], the same step the
//! tokenizer's contract is stated over, so each holds of what
//! [`crate::tokenizer::Lexer::next`] returns.

use vstd::prelude::*;

use crate::model::digits_value;
use crate::model::is_digit;
use crate::model::is_ident_char;
use crate::model::is_ident_start;
use crate::model::is_space;
use crate::model::lemma_digits_end_at;
use crate::model::lemma_digits_end_bounds;
use crate::model::lemma_digits_value_nonneg;
use crate::model::lemma_ident_end_at;
use crate::model::lemma_ident_end_bounds;
use crate::model::lemma_quote_end_at;
use crate::model::lemma_quote_end_bounds;
use crate::model::lemma_skip_comment_to_end;
use crate::model::lemma_skip_comment_to_line_feed;
use crate::model::lemma_skip_spaces_to_end;
use crate::model::lemma_skip_to_token_bounds;
use crate::model::token_start;
use crate::model::pull;
use crate::model::PullOutcome;
use crate::model::PullStep;
use crate::tokens::ErrorModel;
use crate::tokens::KindModel;

verus! {

/// An input consisting solely of spaces yields no token: the very first
/// pull ends the sequence, at the end of the input, with the line count
/// unchanged.
pub proof fn spaces_only_lexes_to_nothing(s: Seq<char>, line: nat)
    requires
        forall|i: int| 0 <= i < s.len() ==> is_space(s[i]),
    ensures
        pull(s, 0, line) == (PullStep { outcome: PullOutcome::End, pos: s.len(), line }),
        lex_from(s, 0, line) == Seq::<PullStep>::empty(),
{
    lemma_skip_spaces_to_end(s, 0);
}

/// A digit run whose value fits in a signed 32-bit integer lexes, alone,
/// to exactly one token: an integer literal carrying its decimal value.
/// The first pull consumes the whole run and the second ends the sequence.
pub proof fn digit_run_lexes_to_integer(s: Seq<char>, line: nat)
    requires
        s.len() > 0,
        forall|i: int| 0 <= i < s.len() ==> is_digit(s[i]),
        digits_value(s) <= i32::MAX,
    ensures
        0 <= digits_value(s),
        pull(s, 0, line) == (PullStep {
            outcome: PullOutcome::Token(KindModel::Integer(digits_value(s) as i32)),
            pos: s.len(),
            line,
        }),
        pull(s, s.len(), line) == (PullStep { outcome: PullOutcome::End, pos: s.len(), line }),
        lex_from(s, 0, line) == seq![pull(s, 0, line)],
{
    lemma_digits_value_nonneg(s);
    lemma_digits_end_at(s, 0, s.len());
    assert(s.subrange(0, s.len() as int) =~= s);
    assert(lex_from(s, s.len(), line) =~= Seq::<PullStep>::empty());
    assert(lex_from(s, 0, line) =~= seq![pull(s, 0, line)]);
}

/// A digit run whose value exceeds the signed 32-bit range fails with
/// `InvalidInteger`, naming the whole run, which is consumed.
pub proof fn oversized_digit_run_fails(s: Seq<char>, line: nat)
    requires
        s.len() > 0,
        forall|i: int| 0 <= i < s.len() ==> is_digit(s[i]),
        digits_value(s) > i32::MAX,
    ensures
        pull(s, 0, line) == (PullStep {
            outcome: PullOutcome::Fail(ErrorModel::InvalidInteger(s)),
            pos: s.len(),
            line,
        }),
        lex_from(s, 0, line) == seq![pull(s, 0, line)],
{
    lemma_digits_end_at(s, 0, s.len());
    assert(s.subrange(0, s.len() as int) =~= s);
}

/// A string without embedded double quotes, wrapped in double quotes,
/// lexes to exactly one token: a string literal whose payload is the
/// contents verbatim, with no unescaping.
pub proof fn quoted_run_lexes_to_string(s: Seq<char>, line: nat)
    requires
        forall|i: int| 0 <= i < s.len() ==> s[i] != '"',
    ensures
        ({
            let q = seq!['"'] + s + seq!['"'];
            &&& pull(q, 0, line) == (PullStep {
                outcome: PullOutcome::Token(KindModel::Str(s)),
                pos: q.len(),
                line,
            })
            &&& pull(q, q.len(), line) == (PullStep {
                outcome: PullOutcome::End,
                pos: q.len(),
                line,
            })
            &&& lex_from(q, 0, line) == seq![pull(q, 0, line)]
        }),
{
    let q = seq!['"'] + s + seq!['"'];
    assert(q[0] == '"');
    assert(q[q.len() - 1] == '"');
    assert(forall|i: int| 1 <= i < q.len() - 1 ==> q[i] == s[i - 1]);
    lemma_quote_end_at(q, 1, (q.len() - 1) as nat);
    assert(q.subrange(1, q.len() - 1) =~= s);
    assert(lex_from(q, q.len(), line) =~= Seq::<PullStep>::empty());
    assert(lex_from(q, 0, line) =~= seq![pull(q, 0, line)]);
}

/// Each pull tracks the line count exactly: producing an `EndLine` token
/// raises it by one, and every other outcome leaves it unchanged. So the
/// count is non-decreasing, and after the N-th end-of-line marker of the
/// input it reads N + 1, whatever non-line-break content stands in
/// between; a token produced by a pull carries that pull's resulting
/// count.
pub proof fn pull_tracks_line_count(s: Seq<char>, pos: nat, line: nat)
    ensures
        ({
            let step = pull(s, pos, line);
            &&& step.outcome == PullOutcome::Token(KindModel::EndLine) ==> step.line == line + 1
            &&& step.outcome != PullOutcome::Token(KindModel::EndLine) ==> step.line == line
            &&& step.line >= line
        }),
{
}

/// A comment running to the end of the input yields nothing: the pull
/// consumes it entirely and ends the sequence cleanly, with the line
/// count unchanged.
pub proof fn comment_to_end_lexes_to_nothing(s: Seq<char>, line: nat)
    requires
        s.len() >= 2,
        s[0] == '/',
        s[1] == '/',
        forall|i: int| 2 <= i < s.len() ==> s[i] != '\n',
    ensures
        pull(s, 0, line) == (PullStep { outcome: PullOutcome::End, pos: s.len(), line }),
        lex_from(s, 0, line) == Seq::<PullStep>::empty(),
{
    lemma_skip_comment_to_end(s, 2);
}

/// A comment followed by a line feed yields exactly one `EndLine` token:
/// the comment itself produces nothing, and the pull consumes through the
/// line feed and raises the line count. (A carriage return inside the
/// comment's span would be swallowed by the comment; the rule stops only
/// at a line feed or at the end of the input.)
pub proof fn comment_then_line_feed_lexes_to_end_line(s: Seq<char>, k: nat, line: nat)
    requires
        2 <= k < s.len(),
        s[0] == '/',
        s[1] == '/',
        s[k as int] == '\n',
        forall|i: int| 2 <= i < k ==> s[i] != '\n',
    ensures
        pull(s, 0, line) == (PullStep {
            outcome: PullOutcome::Token(KindModel::EndLine),
            pos: k + 1,
            line: line + 1,
        }),
        lex_from(s, 0, line) == seq![pull(s, 0, line)] + lex_from(s, k + 1, line + 1),
{
    lemma_skip_comment_to_line_feed(s, 2, k);
}

/// A pull never moves the cursor backwards nor past the end of the input,
/// and a pull that yields a token or a failure consumes at least one
/// character. So the sequence of pulls is finite, bounded by the length
/// of the input.
pub proof fn pull_advances_within_bounds(s: Seq<char>, pos: nat, line: nat)
    requires
        pos <= s.len(),
    ensures
        ({
            let step = pull(s, pos, line);
            &&& pos <= step.pos <= s.len()
            &&& !(step.outcome is End) ==> step.pos > pos
        }),
{
    lemma_skip_to_token_bounds(s, pos, false);
    let q = token_start(s, pos);
    if q < s.len() {
        let c = s[q as int];
        if is_digit(c) {
            lemma_digits_end_bounds(s, q + 1);
        } else if c == '"' {
            lemma_quote_end_bounds(s, q + 1);
        } else if is_ident_start(c) {
            lemma_ident_end_bounds(s, q + 1);
        }
    }
}

/// Once a pull reports the end of the input, every later pull does too:
/// the terminal signal is stable, and neither the cursor nor the line
/// count moves again.
pub proof fn end_is_stable(s: Seq<char>, pos: nat, line: nat)
    requires
        pull(s, pos, line).outcome is End,
    ensures
        pull(s, pull(s, pos, line).pos, pull(s, pos, line).line) == pull(s, pos, line),
{
}

/// The whole run of pulls from a given state, in order: it reaches to the
/// end of the input, or through the first failure, after which the
/// tokenizer is not meant to be pulled again. Each step records its
/// outcome and the cursor position and line count after it.
pub open spec fn lex_from(s: Seq<char>, pos: nat, line: nat) -> Seq<PullStep>
    decreases s.len() - pos
        when pos <= s.len()
        via lex_from_decreases
{
    let step = pull(s, pos, line);
    match step.outcome {
        PullOutcome::End => Seq::<PullStep>::empty(),
        PullOutcome::Fail(_) => seq![step],
        PullOutcome::Token(_) => seq![step] + lex_from(s, step.pos, step.line),
    }
}

#[via_fn]
proof fn lex_from_decreases(s: Seq<char>, pos: nat, line: nat) {
    pull_advances_within_bounds(s, pos, line);
}

/// How many `EndLine` tokens a run of steps holds.
pub open spec fn end_line_count(steps: Seq<PullStep>) -> int
    decreases steps.len(),
{
    if steps.len() == 0 {
        0
    } else {
        end_line_count(steps.drop_last()) + if steps.last().outcome == PullOutcome::Token(
            KindModel::EndLine,
        ) {
            1int
        } else {
            0int
        }
    }
}

proof fn lemma_end_line_count_single(x: PullStep)
    ensures
        end_line_count(seq![x]) == if x.outcome == PullOutcome::Token(KindModel::EndLine) {
            1int
        } else {
            0int
        },
{
    assert(end_line_count(Seq::<PullStep>::empty()) == 0);
    assert(seq![x].drop_last() =~= Seq::<PullStep>::empty());
    assert(seq![x].last() == x);
}

proof fn lemma_end_line_count_cons(x: PullStep, t: Seq<PullStep>)
    ensures
        end_line_count(seq![x] + t) == end_line_count(seq![x]) + end_line_count(t),
    decreases t.len(),
{
    if t.len() == 0 {
        assert(seq![x] + t =~= seq![x]);
    } else {
        let u = seq![x] + t;
        assert(u.drop_last() =~= seq![x] + t.drop_last());
        lemma_end_line_count_cons(x, t.drop_last());
        assert(u.last() == t.last());
    }
}

/// Round-trip line counting, over the whole run of pulls: every step's
/// line count reads the starting count plus the number of `EndLine`
/// tokens produced up to and including that step. In particular, with
/// the starting count 1 and whatever non-line-break content stands in
/// between, the first token after the N-th end-of-line marker carries
/// line N + 1.
pub proof fn lex_run_counts_lines(s: Seq<char>, pos: nat, line: nat, i: int)
    requires
        pos <= s.len(),
        0 <= i < lex_from(s, pos, line).len(),
    ensures
        lex_from(s, pos, line)[i].line == line + end_line_count(
            lex_from(s, pos, line).take(i + 1),
        ),
    decreases i,
{
    let steps = lex_from(s, pos, line);
    let step = pull(s, pos, line);
    pull_advances_within_bounds(s, pos, line);
    pull_tracks_line_count(s, pos, line);
    lemma_end_line_count_single(step);
    if i == 0 {
        assert(steps.take(1) =~= seq![step]);
    } else {
        let rest = lex_from(s, step.pos, step.line);
        assert(steps =~= seq![step] + rest);
        lex_run_counts_lines(s, step.pos, step.line, i - 1);
        assert(steps.take(i + 1) =~= seq![step] + rest.take(i));
        lemma_end_line_count_cons(step, rest.take(i));
    }
}

/// Rule priority: a digit run directly followed by identifier characters
/// lexes as an integer literal and then an identifier. The digits are not
/// absorbed into the identifier, because the integer rule is tried first
/// at that position.
pub proof fn digits_bind_before_identifier(d: Seq<char>, a: Seq<char>, line: nat)
    requires
        d.len() > 0,
        forall|i: int| 0 <= i < d.len() ==> is_digit(d[i]),
        digits_value(d) <= i32::MAX,
        a.len() > 0,
        is_ident_start(a[0]),
        forall|i: int| 0 <= i < a.len() ==> is_ident_char(a[i]),
    ensures
        ({
            let s = d + a;
            &&& pull(s, 0, line) == (PullStep {
                outcome: PullOutcome::Token(KindModel::Integer(digits_value(d) as i32)),
                pos: d.len(),
                line,
            })
            &&& pull(s, d.len(), line) == (PullStep {
                outcome: PullOutcome::Token(KindModel::Identifier(a)),
                pos: s.len(),
                line,
            })
        }),
{
    let s = d + a;
    assert(forall|i: int| 0 <= i < d.len() ==> s[i] == d[i]);
    assert(forall|i: int| d.len() <= i < s.len() ==> s[i] == a[i - d.len()]);
    lemma_digits_end_at(s, 0, d.len());
    assert(s.subrange(0, d.len() as int) =~= d);
    lemma_ident_end_at(s, d.len() + 1, s.len());
    assert(s.subrange(d.len() as int, s.len() as int) =~= a);
}

} // verus!

