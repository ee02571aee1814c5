//! The mathematical model of the calculator: what the lexer yields at each
//! position of the text, and what the whole evaluation returns.

use vstd::prelude::*;

verus! {

/// Characters the lexer treats as whitespace: the ASCII whitespace set.
pub open spec fn is_space(c: char) -> bool {
    c == ' ' || c == '\t' || c == '\n' || c == '\r' || c == '\u{000C}'
}

/// Decimal digit characters.
pub open spec fn is_digit(c: char) -> bool {
    48 <= c as u32 && c as u32 <= 57
}

/// Numeric value of a decimal digit character.
pub open spec fn digit_val(c: char) -> int {
    c as u32 - 48
}

/// Holds when every character of `s` is a decimal digit.
pub open spec fn all_digits(s: Seq<char>) -> bool {
    forall|i: int| 0 <= i < s.len() ==> is_digit(#[trigger] s[i])
}

/// Value of a decimal literal, most significant digit first.
pub open spec fn lit_val(s: Seq<char>) -> int
    decreases s.len(),
{
    if s.len() == 0 {
        0
    } else {
        lit_val(s.drop_last()) * 10 + digit_val(s.last())
    }
}

/// First position at or after `p` whose character is not whitespace.
pub open spec fn skip_ws(s: Seq<char>, p: int) -> int
    decreases s.len() - p,
    when 0 <= p <= s.len()
{
    if p < s.len() && is_space(s[p]) {
        skip_ws(s, p + 1)
    } else {
        p
    }
}

/// End of the run of digit characters that starts at `p`.
pub open spec fn digits_end(s: Seq<char>, p: int) -> int
    decreases s.len() - p,
    when 0 <= p <= s.len()
{
    if p < s.len() && is_digit(s[p]) {
        digits_end(s, p + 1)
    } else {
        p
    }
}

pub proof fn lemma_skip_ws_bounds(s: Seq<char>, p: int)
    requires
        0 <= p <= s.len(),
    ensures
        p <= skip_ws(s, p) <= s.len(),
        skip_ws(s, p) < s.len() ==> !is_space(s[skip_ws(s, p)]),
        forall|i: int| p <= i < skip_ws(s, p) ==> is_space(#[trigger] s[i]),
    decreases s.len() - p,
{
    if p < s.len() && is_space(s[p]) {
        lemma_skip_ws_bounds(s, p + 1);
    }
}

pub proof fn lemma_digits_end_bounds(s: Seq<char>, p: int)
    requires
        0 <= p <= s.len(),
    ensures
        p <= digits_end(s, p) <= s.len(),
        digits_end(s, p) < s.len() ==> !is_digit(s[digits_end(s, p)]),
        forall|i: int| p <= i < digits_end(s, p) ==> is_digit(#[trigger] s[i]),
    decreases s.len() - p,
{
    if p < s.len() && is_digit(s[p]) {
        lemma_digits_end_bounds(s, p + 1);
    }
}

/// A whitespace run followed by a non-whitespace position is skipped exactly.
pub proof fn lemma_skip_ws_run(s: Seq<char>, p: int, q: int)
    requires
        0 <= p <= q <= s.len(),
        forall|i: int| p <= i < q ==> is_space(#[trigger] s[i]),
        q < s.len() ==> !is_space(s[q]),
    ensures
        skip_ws(s, p) == q,
    decreases q - p,
{
    if p < q {
        lemma_skip_ws_run(s, p + 1, q);
    }
}

/// A digit run followed by a non-digit position ends exactly at `q`.
pub proof fn lemma_digits_end_run(s: Seq<char>, p: int, q: int)
    requires
        0 <= p <= q <= s.len(),
        forall|i: int| p <= i < q ==> is_digit(#[trigger] s[i]),
        q < s.len() ==> !is_digit(s[q]),
    ensures
        digits_end(s, p) == q,
    decreases q - p,
{
    if p < q {
        lemma_digits_end_run(s, p + 1, q);
    }
}

pub proof fn lemma_lit_val_nonneg(s: Seq<char>)
    requires
        all_digits(s),
    ensures
        lit_val(s) >= 0,
    decreases s.len(),
{
    if s.len() > 0 {
        assert forall|i: int| 0 <= i < s.drop_last().len() implies is_digit(
            #[trigger] s.drop_last()[i],
        ) by {
            assert(s.drop_last()[i] == s[i]);
        }
        lemma_lit_val_nonneg(s.drop_last());
    }
}

/// Extending a literal by one digit multiplies its value by ten and adds
/// that digit.
pub proof fn lemma_lit_val_step(s: Seq<char>, j: int)
    requires
        0 <= j < s.len(),
    ensures
        lit_val(s.subrange(0, j + 1)) == lit_val(s.subrange(0, j)) * 10 + digit_val(s[j]),
{
    let t = s.subrange(0, j + 1);
    assert(t.drop_last() =~= s.subrange(0, j));
    assert(t.last() == s[j]);
}

/// A literal is at least as large as any of its prefixes.
pub proof fn lemma_lit_val_prefix(s: Seq<char>, j: int)
    requires
        all_digits(s),
        0 <= j <= s.len(),
    ensures
        lit_val(s.subrange(0, j)) <= lit_val(s),
    decreases s.len() - j,
{
    if j == s.len() {
        assert(s.subrange(0, j) =~= s);
    } else {
        lemma_lit_val_step(s, j);
        assert forall|i: int| 0 <= i < s.subrange(0, j).len() implies is_digit(
            #[trigger] s.subrange(0, j)[i],
        ) by {
            assert(s.subrange(0, j)[i] == s[i]);
        }
        lemma_lit_val_nonneg(s.subrange(0, j));
        lemma_lit_val_prefix(s, j + 1);
    }
}

/// The token found at a position of the text.
pub enum SpecToken {
    /// A decimal literal; `0` holds its digit characters.
    Integer(Seq<char>),
    Plus,
    Minus,
    /// The end of the text.
    End,
    /// A character that no token may start with.
    Invalid,
}

/// The token that starts at or after position `p` (whitespace skipped) and
/// the position just past it.  An `Invalid` token consumes nothing.
pub open spec fn token_at(s: Seq<char>, p: int) -> (SpecToken, int) {
    let q = skip_ws(s, p);
    if q >= s.len() {
        (SpecToken::End, q)
    } else if is_digit(s[q]) {
        (SpecToken::Integer(s.subrange(q, digits_end(s, q))), digits_end(s, q))
    } else if s[q] == '+' {
        (SpecToken::Plus, q + 1)
    } else if s[q] == '-' {
        (SpecToken::Minus, q + 1)
    } else {
        (SpecToken::Invalid, q)
    }
}

pub proof fn lemma_token_at_props(s: Seq<char>, p: int)
    requires
        0 <= p <= s.len(),
    ensures
        ({
            let (t, q) = token_at(s, p);
            &&& p <= q <= s.len()
            &&& (!(t is End) && !(t is Invalid) ==> q > p)
            &&& (t is End ==> q == s.len())
            &&& (t matches SpecToken::Integer(ds) ==> ds.len() >= 1 && all_digits(ds) && ds
                == s.subrange(q - ds.len(), q))
        }),
{
    lemma_skip_ws_bounds(s, p);
    let q0: int = skip_ws(s, p);
    if q0 < s.len() && is_digit(s[q0]) {
        lemma_digits_end_bounds(s, q0);
    }
}

/// At a whitespace run followed by a digit run, the lexer finds an integer
/// token holding exactly that digit run.
pub proof fn lemma_token_at_space_digits(s: Seq<char>, p: int, q: int, e: int)
    requires
        0 <= p <= q < e <= s.len(),
        forall|i: int| p <= i < q ==> is_space(#[trigger] s[i]),
        forall|i: int| q <= i < e ==> is_digit(#[trigger] s[i]),
        e < s.len() ==> !is_digit(s[e]),
    ensures
        token_at(s, p) == (SpecToken::Integer(s.subrange(q, e)), e),
{
    lemma_skip_ws_run(s, p, q);
    lemma_digits_end_run(s, q, e);
}

/// At a whitespace run followed by an operator character, the lexer finds
/// the operator token.
pub proof fn lemma_token_at_space_op(s: Seq<char>, p: int, q: int)
    requires
        0 <= p <= q < s.len(),
        forall|i: int| p <= i < q ==> is_space(#[trigger] s[i]),
        s[q] == '+' || s[q] == '-',
    ensures
        s[q] == '+' ==> token_at(s, p) == (SpecToken::Plus, q + 1),
        s[q] == '-' ==> token_at(s, p) == (SpecToken::Minus, q + 1),
{
    lemma_skip_ws_run(s, p, q);
}

/// At a whitespace run that reaches the end of the text, the lexer finds
/// the end-of-input token.
pub proof fn lemma_token_at_space_end(s: Seq<char>, p: int)
    requires
        0 <= p <= s.len(),
        forall|i: int| p <= i < s.len() ==> is_space(#[trigger] s[i]),
    ensures
        token_at(s, p) == (SpecToken::End, s.len() as int),
{
    lemma_skip_ws_run(s, p, s.len() as int);
}

/// What an evaluation returns: the value of the expression, or the error
/// that ends it.
pub enum Outcome {
    Value(int),
    LexError,
    ParseError,
    Overflow,
}

#[via_fn]
proof fn eval_from_decreases(s: Seq<char>, p: int, acc: int) {
    lemma_token_at_props(s, p);
    let (t, q) = token_at(s, p);
    if t is Plus || t is Minus {
        lemma_token_at_props(s, q);
    }
}

/// Evaluation of the rest of the text, with `acc` the value of what came
/// before and the token at `p` the current lookahead.  The grammar expects
/// an operator here: the end of the text, or a trailing literal, ends the
/// expression with value `acc`; after an operator a literal is consumed and
/// folded into `acc` from the left.  The lookahead is refreshed right after
/// a literal is consumed, so an unlexable character just past the literal is
/// reported before the literal's value is inspected.
pub open spec fn eval_from(s: Seq<char>, p: int, acc: int) -> Outcome
    decreases s.len() - p,
    when 0 <= p <= s.len()
    via eval_from_decreases
{
    let (t, q) = token_at(s, p);
    match t {
        SpecToken::End => Outcome::Value(acc),
        SpecToken::Integer(_) => Outcome::Value(acc),
        SpecToken::Invalid => Outcome::LexError,
        _ => {
            let (t2, r) = token_at(s, q);
            match t2 {
                SpecToken::Integer(ds) => {
                    let (t3, _r3) = token_at(s, r);
                    if t3 is Invalid {
                        Outcome::LexError
                    } else if lit_val(ds) > i32::MAX as int {
                        Outcome::Overflow
                    } else {
                        let a2 = if t is Plus {
                            acc + lit_val(ds)
                        } else {
                            acc - lit_val(ds)
                        };
                        if a2 < i32::MIN as int || a2 > i32::MAX as int {
                            Outcome::Overflow
                        } else {
                            eval_from(s, r, a2)
                        }
                    }
                },
                SpecToken::Invalid => Outcome::LexError,
                _ => Outcome::ParseError,
            }
        },
    }
}

/// The value or error of evaluating the whole text: the first token must be
/// a decimal literal, and the rest is folded by [`eval_from`].
pub open spec fn spec_evaluate(s: Seq<char>) -> Outcome {
    let (t, p) = token_at(s, 0);
    match t {
        SpecToken::Integer(ds) => {
            let (t1, _q) = token_at(s, p);
            if t1 is Invalid {
                Outcome::LexError
            } else if lit_val(ds) > i32::MAX as int {
                Outcome::Overflow
            } else {
                eval_from(s, p, lit_val(ds))
            }
        },
        SpecToken::Invalid => Outcome::LexError,
        _ => Outcome::ParseError,
    }
}

} // verus!
