//! Laws of the evaluator, proved from the model in [`crate::semantics`].

use crate::semantics::Outcome;
use crate::semantics::all_digits;
use crate::semantics::eval_from;
use crate::semantics::is_digit;
use crate::semantics::is_space;
use crate::semantics::lemma_lit_val_nonneg;
use crate::semantics::lemma_token_at_space_digits;
use crate::semantics::lemma_token_at_space_end;
use crate::semantics::lemma_token_at_space_op;
use crate::semantics::lemma_skip_ws_bounds;
use crate::semantics::lit_val;
use crate::semantics::skip_ws;
use crate::semantics::spec_evaluate;
use vstd::prelude::*;

verus! {

/// A sequence made of whitespace only.
pub open spec fn all_spaces(s: Seq<char>) -> bool {
    forall|i: int| 0 <= i < s.len() ==> is_space(#[trigger] s[i])
}

/// Evaluation keeps no state across calls: the outcome of an evaluation is a
/// function of the text alone, so two evaluations of the same text — on one
/// interpreter or on freshly constructed ones — always yield the same
/// result.  [`Interpreter::expr`](crate::Interpreter::expr) requires nothing
/// of the state it starts from and promises the outcome stated here.
pub proof fn lemma_evaluate_deterministic(s1: Seq<char>, s2: Seq<char>)
    requires
        s1 == s2,
    ensures
        spec_evaluate(s1) == spec_evaluate(s2),
{
}

/// A text that does not start with a decimal literal never yields a value:
/// an empty or all-whitespace text, or one whose first token is an operator,
/// is a parse error, and one whose first non-whitespace character can start
/// no token at all is a lexing error.
pub proof fn lemma_eval_no_leading_literal(s: Seq<char>)
    ensures
        skip_ws(s, 0) == s.len() ==> spec_evaluate(s) == Outcome::ParseError,
        skip_ws(s, 0) < s.len() && (s[skip_ws(s, 0)] == '+' || s[skip_ws(s, 0)] == '-')
            ==> spec_evaluate(s) == Outcome::ParseError,
        ({
            let q = skip_ws(s, 0);
            q < s.len() && !is_digit(s[q]) && s[q] != '+' && s[q] != '-' ==> spec_evaluate(s)
                == Outcome::LexError
        }),
{
    lemma_skip_ws_bounds(s, 0);
}

/// A single decimal literal, with or without surrounding whitespace, is a
/// valid expression and evaluates to its own value.
pub proof fn lemma_eval_single_literal(ws0: Seq<char>, da: Seq<char>, ws1: Seq<char>)
    requires
        all_spaces(ws0),
        all_spaces(ws1),
        da.len() >= 1,
        all_digits(da),
        lit_val(da) <= i32::MAX,
    ensures
        spec_evaluate(ws0 + da + ws1) == Outcome::Value(lit_val(da)),
{
    let s = ws0 + da + ws1;
    let a0: int = ws0.len() as int;
    let a1: int = a0 + da.len();
    assert(s.len() == a1 + ws1.len());
    assert forall|i: int| 0 <= i < a0 implies is_space(#[trigger] s[i]) by {
        assert(s[i] == ws0[i]);
    }
    assert forall|i: int| a0 <= i < a1 implies is_digit(#[trigger] s[i]) by {
        assert(s[i] == da[i - a0]);
    }
    assert forall|i: int| a1 <= i < s.len() implies is_space(#[trigger] s[i]) by {
        assert(s[i] == ws1[i - a1]);
    }
    lemma_token_at_space_digits(s, 0, a0, a1);
    assert(s.subrange(a0, a1) =~= da);
    lemma_token_at_space_end(s, a1);
    lemma_lit_val_nonneg(da);
    assert(eval_from(s, a1, lit_val(da)) == Outcome::Value(lit_val(da)));
}

/// Evaluating two decimal literals joined by `+` or `-` yields exactly their
/// sum or difference, whatever whitespace stands around the tokens —
/// including none.  The whitespace paddings `ws0` through `ws3` may each be
/// empty or hold any whitespace characters.
pub proof fn lemma_eval_binary(
    ws0: Seq<char>,
    da: Seq<char>,
    ws1: Seq<char>,
    op: char,
    ws2: Seq<char>,
    db: Seq<char>,
    ws3: Seq<char>,
)
    requires
        all_spaces(ws0),
        all_spaces(ws1),
        all_spaces(ws2),
        all_spaces(ws3),
        da.len() >= 1,
        all_digits(da),
        db.len() >= 1,
        all_digits(db),
        op == '+' || op == '-',
        lit_val(da) <= i32::MAX,
        lit_val(db) <= i32::MAX,
        op == '+' ==> lit_val(da) + lit_val(db) <= i32::MAX,
    ensures
        spec_evaluate(ws0 + da + ws1 + seq![op] + ws2 + db + ws3) == Outcome::Value(
            if op == '+' {
                lit_val(da) + lit_val(db)
            } else {
                lit_val(da) - lit_val(db)
            },
        ),
{
    let s = ws0 + da + ws1 + seq![op] + ws2 + db + ws3;
    let a0: int = ws0.len() as int;
    let a1: int = a0 + da.len();
    let b0: int = a1 + ws1.len();
    let b1: int = b0 + 1;
    let c0: int = b1 + ws2.len();
    let c1: int = c0 + db.len();
    assert(s.len() == c1 + ws3.len());
    assert forall|i: int| 0 <= i < a0 implies is_space(#[trigger] s[i]) by {
        assert(s[i] == ws0[i]);
    }
    assert forall|i: int| a0 <= i < a1 implies is_digit(#[trigger] s[i]) by {
        assert(s[i] == da[i - a0]);
    }
    assert forall|i: int| a1 <= i < b0 implies is_space(#[trigger] s[i]) by {
        assert(s[i] == ws1[i - a1]);
    }
    assert(s[b0] == op);
    assert forall|i: int| b1 <= i < c0 implies is_space(#[trigger] s[i]) by {
        assert(s[i] == ws2[i - b1]);
    }
    assert forall|i: int| c0 <= i < c1 implies is_digit(#[trigger] s[i]) by {
        assert(s[i] == db[i - c0]);
    }
    assert forall|i: int| c1 <= i < s.len() implies is_space(#[trigger] s[i]) by {
        assert(s[i] == ws3[i - c1]);
    }
    lemma_token_at_space_digits(s, 0, a0, a1);
    assert(s.subrange(a0, a1) =~= da);
    lemma_token_at_space_op(s, a1, b0);
    lemma_token_at_space_digits(s, b1, c0, c1);
    assert(s.subrange(c0, c1) =~= db);
    lemma_token_at_space_end(s, c1);
    lemma_lit_val_nonneg(da);
    lemma_lit_val_nonneg(db);
    let va: int = lit_val(da);
    let vb: int = lit_val(db);
    let a2: int = if op == '+' {
        va + vb
    } else {
        va - vb
    };
    assert(eval_from(s, c1, a2) == Outcome::Value(a2));
    assert(eval_from(s, a1, va) == eval_from(s, c1, a2));
}

/// Left-associativity: a chain of two operators is folded left to right, so
/// the second operator applies to the result of the first, never to the last
/// two literals alone.  Single spaces separate the tokens.
pub proof fn lemma_eval_left_assoc(
    da: Seq<char>,
    op1: char,
    db: Seq<char>,
    op2: char,
    dc: Seq<char>,
)
    requires
        da.len() >= 1,
        all_digits(da),
        db.len() >= 1,
        all_digits(db),
        dc.len() >= 1,
        all_digits(dc),
        op1 == '+' || op1 == '-',
        op2 == '+' || op2 == '-',
        lit_val(da) <= i32::MAX,
        lit_val(db) <= i32::MAX,
        lit_val(dc) <= i32::MAX,
        i32::MIN <= (if op1 == '+' {
            lit_val(da) + lit_val(db)
        } else {
            lit_val(da) - lit_val(db)
        }) <= i32::MAX,
        i32::MIN <= (if op2 == '+' {
            (if op1 == '+' {
                lit_val(da) + lit_val(db)
            } else {
                lit_val(da) - lit_val(db)
            }) + lit_val(dc)
        } else {
            (if op1 == '+' {
                lit_val(da) + lit_val(db)
            } else {
                lit_val(da) - lit_val(db)
            }) - lit_val(dc)
        }) <= i32::MAX,
    ensures
        spec_evaluate(da + seq![' '] + seq![op1] + seq![' '] + db + seq![' '] + seq![op2] + seq![
            ' ',
        ] + dc) == Outcome::Value(
            ({
                let acc1: int = if op1 == '+' {
                    lit_val(da) + lit_val(db)
                } else {
                    lit_val(da) - lit_val(db)
                };
                if op2 == '+' {
                    acc1 + lit_val(dc)
                } else {
                    acc1 - lit_val(dc)
                }
            }),
        ),
{
    let s = da + seq![' '] + seq![op1] + seq![' '] + db + seq![' '] + seq![op2] + seq![' '] + dc;
    let a1: int = da.len() as int;
    let b0: int = a1 + 1;
    let b1: int = b0 + 1;
    let c0: int = b1 + 1;
    let c1: int = c0 + db.len();
    let d0: int = c1 + 1;
    let d1: int = d0 + 1;
    let e0: int = d1 + 1;
    let e1: int = e0 + dc.len();
    assert(s.len() == e1);
    assert forall|i: int| 0 <= i < a1 implies is_digit(#[trigger] s[i]) by {
        assert(s[i] == da[i]);
    }
    assert(s[a1] == ' ');
    assert(s[b0] == op1);
    assert(s[b1] == ' ');
    assert forall|i: int| c0 <= i < c1 implies is_digit(#[trigger] s[i]) by {
        assert(s[i] == db[i - c0]);
    }
    assert(s[c1] == ' ');
    assert(s[d0] == op2);
    assert(s[d1] == ' ');
    assert forall|i: int| e0 <= i < e1 implies is_digit(#[trigger] s[i]) by {
        assert(s[i] == dc[i - e0]);
    }
    lemma_token_at_space_digits(s, 0, 0, a1);
    assert(s.subrange(0, a1) =~= da);
    lemma_token_at_space_op(s, a1, b0);
    lemma_token_at_space_digits(s, b1, c0, c1);
    assert(s.subrange(c0, c1) =~= db);
    lemma_token_at_space_op(s, c1, d0);
    lemma_token_at_space_digits(s, d1, e0, e1);
    assert(s.subrange(e0, e1) =~= dc);
    lemma_token_at_space_end(s, e1);
    lemma_lit_val_nonneg(da);
    lemma_lit_val_nonneg(db);
    lemma_lit_val_nonneg(dc);
    let va: int = lit_val(da);
    let vb: int = lit_val(db);
    let vc: int = lit_val(dc);
    let acc1: int = if op1 == '+' {
        va + vb
    } else {
        va - vb
    };
    let acc2: int = if op2 == '+' {
        acc1 + vc
    } else {
        acc1 - vc
    };
    assert(eval_from(s, e1, acc2) == Outcome::Value(acc2));
    assert(eval_from(s, c1, acc1) == eval_from(s, e1, acc2));
    assert(eval_from(s, a1, va) == eval_from(s, c1, acc1));
}

} // verus!

