//! The lexer and parser/evaluator, verified against the model in
//! [`crate::semantics`].

use crate::semantics::all_digits;
use crate::semantics::digits_end;
use crate::semantics::is_digit;
use crate::semantics::is_space;
use crate::semantics::lemma_lit_val_prefix;
use crate::semantics::lemma_lit_val_step;
use crate::semantics::Outcome;
use crate::semantics::eval_from;
use crate::semantics::lemma_digits_end_bounds;
use crate::semantics::lemma_token_at_props;
use crate::semantics::lit_val;
use crate::semantics::skip_ws;
use crate::semantics::spec_evaluate;
use crate::semantics::token_at;
use crate::token::Token;
use crate::token::token_matches;
use crate::token::TokenType;
use crate::token::token_wf;
use vstd::prelude::*;
use vstd::string::StrSliceExecFns;

verus! {

/// The errors that end an evaluation, one per kind of failure.
#[derive(Debug, Clone, Copy, PartialEq, Eq, Structural)]
pub enum CalcError {
    /// A character that is not whitespace, a digit, `+` or `-`.
    LexError,
    /// A token stream that does not match the grammar.
    ParseError,
    /// A literal or a running result that does not fit in an `i32`.
    OverflowError,
}

impl CalcError {
    /// A short readable description of the error.
    pub fn message(&self) -> (m: &'static str)
        ensures
            *self == CalcError::LexError ==> m@ == "Unexpected character"@,
            *self == CalcError::ParseError ==> m@ == "Unexpected token"@,
            *self == CalcError::OverflowError ==> m@ == "Integer overflow"@,
    {
        match self {
            CalcError::LexError => "Unexpected character",
            CalcError::ParseError => "Unexpected token",
            CalcError::OverflowError => "Integer overflow",
        }
    }
}

/// Returns whether `c` is whitespace to the lexer.
fn char_is_space(c: char) -> (r: bool)
    ensures
        r == is_space(c),
{
    c == ' ' || c == '\t' || c == '\n' || c == '\r' || c == '\u{000C}'
}

/// Returns whether `c` is a decimal digit.
fn char_is_digit(c: char) -> (r: bool)
    ensures
        r == is_digit(c),
{
    let u: u32 = c as u32;
    48 <= u && u <= 57
}

/// Converts a decimal literal to an `i32`, reporting a value beyond
/// `i32::MAX` as an overflow error instead of wrapping.
pub fn parse_decimal(s: &str) -> (r: Result<i32, CalcError>)
    requires
        all_digits(s@),
    ensures
        match r {
            Ok(v) => lit_val(s@) <= i32::MAX && v == lit_val(s@),
            Err(e) => lit_val(s@) > i32::MAX && e == CalcError::OverflowError,
        },
{
    let len: usize = s.unicode_len();
    let mut acc: i32 = 0;
    let mut i: usize = 0;
    while i < len
        invariant
            i <= len,
            len == s@.len(),
            all_digits(s@),
            0 <= acc,
            acc == lit_val(s@.subrange(0, i as int)),
        decreases len - i,
    {
        proof {
            assert(is_digit(s@[i as int]));
        }
        let c = s.get_char(i);
        let d: u32 = (c as u32) - 48;
        let di: i32 = d as i32;
        proof {
            lemma_lit_val_step(s@, i as int);
        }
        let m: i32 = match acc.checked_mul(10) {
            Some(m) => m,
            None => {
                proof {
                    lemma_lit_val_prefix(s@, i as int + 1);
                }
                return Err(CalcError::OverflowError);
            },
        };
        let a: i32 = match m.checked_add(di) {
            Some(a) => a,
            None => {
                proof {
                    lemma_lit_val_prefix(s@, i as int + 1);
                }
                return Err(CalcError::OverflowError);
            },
        };
        acc = a;
        i = i + 1;
    }
    proof {
        assert(s@.subrange(0, len as int) =~= s@);
    }
    Ok(acc)
}

/// The lexer/evaluator state for one line of input: the text, the scan
/// position, the cached character at that position, and the lookahead token
/// not yet consumed by the grammar.
#[derive(Debug)]
pub struct Interpreter {
    text: String,
    pos: usize,
    current_token: Option<Token>,
    current_char: Option<char>,
}

impl Interpreter {
    /// The text being scanned, as a sequence of characters.
    pub closed spec fn spec_text(self) -> Seq<char> {
        self.text@
    }

    /// The current scan position, a character offset into the text.
    pub closed spec fn spec_pos(self) -> int {
        self.pos as int
    }

    /// The lookahead token: the most recently produced, not yet consumed
    /// token, if any.
    pub closed spec fn lookahead(self) -> Option<Token> {
        self.current_token
    }

    /// Well-formedness: the scan position stays within the text, the cached
    /// character is exactly the one at the scan position, and the lookahead
    /// token satisfies the token invariant.
    pub closed spec fn wf(self) -> bool {
        &&& self.pos <= self.text@.len()
        &&& (self.pos < self.text@.len() ==> self.current_char == Some(
            self.text@[self.pos as int],
        ))
        &&& (self.pos == self.text@.len() ==> self.current_char is None)
        &&& match self.current_token {
            Some(t) => token_wf(t),
            None => true,
        }
    }

    /// A fresh state: empty text, position zero, no lookahead.
    pub fn new() -> (r: Interpreter)
        ensures
            r.wf(),
            r.spec_text() == Seq::<char>::empty(),
            r.spec_pos() == 0,
            r.lookahead() is None,
    {
        Interpreter { text: String::new(), pos: 0, current_token: None, current_char: None }
    }

    /// A readable report for a failed evaluation, built from a short
    /// description of what went wrong.
    pub fn error(&self, message: &str) -> (r: String)
        ensures
            r@ == "Error parsing input: "@ + message@,
    {
        let mut r = String::from_str("Error parsing input: ");
        r.append(message);
        r
    }

    /// Moves the scan position one character forward and refreshes the
    /// cached character.
    pub fn advance(&mut self)
        requires
            old(self).wf(),
            old(self).spec_pos() < old(self).spec_text().len(),
        ensures
            final(self).wf(),
            final(self).spec_text() == old(self).spec_text(),
            final(self).lookahead() == old(self).lookahead(),
            final(self).spec_pos() == old(self).spec_pos() + 1,
    {
        let len: usize = self.text.as_str().unicode_len();
        self.pos = self.pos + 1;
        if self.pos < len {
            let c = self.text.as_str().get_char(self.pos);
            self.current_char = Some(c);
        } else {
            self.current_char = None;
        }
    }

    /// Consumes the run of digit characters at the scan position and returns
    /// it as a literal string.
    pub fn integer(&mut self) -> (r: String)
        requires
            old(self).wf(),
        ensures
            final(self).wf(),
            final(self).spec_text() == old(self).spec_text(),
            final(self).lookahead() == old(self).lookahead(),
            final(self).spec_pos() == digits_end(old(self).spec_text(), old(self).spec_pos()),
            r@ == old(self).spec_text().subrange(
                old(self).spec_pos(),
                digits_end(old(self).spec_text(), old(self).spec_pos()),
            ),
    {
        let start: usize = self.pos;
        loop
            invariant
                self.wf(),
                self.text@ == old(self).text@,
                self.current_token == old(self).current_token,
                start <= self.pos <= self.text@.len(),
                digits_end(self.text@, start as int) == digits_end(self.text@, self.pos as int),
            ensures
                self.wf(),
                self.text@ == old(self).text@,
                self.current_token == old(self).current_token,
                start <= self.pos <= self.text@.len(),
                self.pos as int == digits_end(self.text@, start as int),
            decreases self.text@.len() - self.pos,
        {
            let cont = match self.current_char {
                Some(c) => char_is_digit(c),
                None => false,
            };
            if !cont {
                break ;
            }
            self.advance();
        }
        let sub = self.text.as_str().substring_char(start, self.pos);
        sub.to_owned()
    }

    /// Produces the next token of the text: skips whitespace, then matches a
    /// decimal literal, `+`, `-`, or the end of the text.  Any other
    /// character is a lexing error and consumes nothing.
    pub fn get_next_token(&mut self) -> (r: Result<Token, CalcError>)
        requires
            old(self).wf(),
        ensures
            final(self).wf(),
            final(self).spec_text() == old(self).spec_text(),
            final(self).lookahead() == old(self).lookahead(),
            ({
                let (t, q) = token_at(old(self).spec_text(), old(self).spec_pos());
                &&& final(self).spec_pos() == q
                &&& match r {
                    Ok(tok) => !(t is Invalid) && token_matches(tok, t) && token_wf(tok),
                    Err(e) => t is Invalid && e == CalcError::LexError,
                }
            }),
    {
        loop
            invariant
                self.wf(),
                self.text@ == old(self).text@,
                self.current_token == old(self).current_token,
                old(self).pos <= self.pos <= self.text@.len(),
                skip_ws(self.text@, old(self).pos as int) == skip_ws(self.text@, self.pos as int),
            ensures
                self.wf(),
                self.text@ == old(self).text@,
                self.current_token == old(self).current_token,
                self.pos as int == skip_ws(self.text@, old(self).pos as int),
            decreases self.text@.len() - self.pos,
        {
            let cont = match self.current_char {
                Some(c) => char_is_space(c),
                None => false,
            };
            if !cont {
                break ;
            }
            self.advance();
        }
        let len: usize = self.text.as_str().unicode_len();
        if self.pos >= len {
            return Ok(Token::new(TokenType::Eof, None));
        }
        let c = self.current_char.unwrap();
        if char_is_digit(c) {
            let ghost s = self.text@;
            let ghost q: int = self.pos as int;
            let ds = self.integer();
            proof {
                lemma_digits_end_bounds(s, q);
                assert(digits_end(s, q) > q);
                assert forall|i: int| 0 <= i < ds@.len() implies is_digit(#[trigger] ds@[i]) by {
                    assert(ds@[i] == s[q + i]);
                }
            }
            return Ok(Token::new(TokenType::Integer, Some(ds)));
        }
        if c == '+' {
            self.advance();
            proof {
                reveal_strlit("+");
                assert("+"@ =~= seq!['+']);
            }
            return Ok(Token::new(TokenType::Plus, Some("+".to_owned())));
        }
        if c == '-' {
            self.advance();
            proof {
                reveal_strlit("-");
                assert("-"@ =~= seq!['-']);
            }
            return Ok(Token::new(TokenType::Minus, Some("-".to_owned())));
        }
        Err(CalcError::LexError)
    }

    /// Consumes the lookahead token if its kind is `token_type`, pulling the
    /// next token from the lexer in its place.  A missing or mismatched
    /// lookahead is a parse error and leaves the state unchanged; a failure
    /// to lex the next token is a lexing error and clears the lookahead.
    pub fn eat(&mut self, token_type: TokenType) -> (r: Result<(), CalcError>)
        requires
            old(self).wf(),
        ensures
            final(self).wf(),
            final(self).spec_text() == old(self).spec_text(),
            match old(self).lookahead() {
                None => r == Err::<(), CalcError>(CalcError::ParseError)
                    && *final(self) == *old(self),
                Some(tok) => {
                    if tok.token_type != token_type {
                        r == Err::<(), CalcError>(CalcError::ParseError)
                            && *final(self) == *old(self)
                    } else {
                        let (t, q) = token_at(old(self).spec_text(), old(self).spec_pos());
                        &&& final(self).spec_pos() == q
                        &&& if t is Invalid {
                            r == Err::<(), CalcError>(CalcError::LexError)
                                && final(self).lookahead() is None
                        } else {
                            r == Ok::<(), CalcError>(())
                                && (final(self).lookahead() matches Some(tok2)
                                && token_matches(tok2, t))
                        }
                    }
                },
            },
    {
        let kind_matches = match &self.current_token {
            Some(tok) => tok.token_type == token_type,
            None => false,
        };
        if !kind_matches {
            return Err(CalcError::ParseError);
        }
        match self.get_next_token() {
            Ok(tok) => {
                self.current_token = Some(tok);
                Ok(())
            },
            Err(e) => {
                self.current_token = None;
                Err(e)
            },
        }
    }

    /// Consumes the lookahead, which must be an integer token, refreshes the
    /// lookahead from the lexer, and converts the consumed literal to an
    /// `i32`.
    pub fn term(&mut self) -> (r: Result<i32, CalcError>)
        requires
            old(self).wf(),
        ensures
            final(self).wf(),
            final(self).spec_text() == old(self).spec_text(),
            match old(self).lookahead() {
                Some(tok) => {
                    if tok.token_type == TokenType::Integer {
                        let ds = tok.value.unwrap()@;
                        let (t, q) = token_at(old(self).spec_text(), old(self).spec_pos());
                        &&& final(self).spec_pos() == q
                        &&& if t is Invalid {
                            r == Err::<i32, CalcError>(CalcError::LexError)
                                && final(self).lookahead() is None
                        } else if lit_val(ds) > i32::MAX {
                            r == Err::<i32, CalcError>(CalcError::OverflowError)
                                && (final(self).lookahead() matches Some(tok2)
                                && token_matches(tok2, t))
                        } else {
                            (r matches Ok(v) && v == lit_val(ds))
                                && (final(self).lookahead() matches Some(tok2)
                                && token_matches(tok2, t))
                        }
                    } else {
                        r == Err::<i32, CalcError>(CalcError::ParseError)
                            && *final(self) == *old(self)
                    }
                },
                None => r == Err::<i32, CalcError>(CalcError::ParseError)
                    && *final(self) == *old(self),
            },
    {
        let lit_opt: Option<String> = match &self.current_token {
            Some(tok) => {
                if tok.token_type == TokenType::Integer {
                    match &tok.value {
                        Some(v) => Some(v.clone()),
                        None => None,
                    }
                } else {
                    None
                }
            },
            None => None,
        };
        let lit = match lit_opt {
            Some(l) => l,
            None => {
                return Err(CalcError::ParseError);
            },
        };
        match self.eat(TokenType::Integer) {
            Ok(()) => {},
            Err(e) => {
                return Err(e);
            },
        }
        parse_decimal(lit.as_str())
    }

    /// Evaluates `text` as `integer (('+' | '-') integer)*`, folding the
    /// operators left to right, and returns the accumulated value or the
    /// error that ended the evaluation, exactly as
    /// [`spec_evaluate`](crate::semantics::spec_evaluate) says.  The previous
    /// state is discarded, so the result depends on `text` alone.
    pub fn expr(&mut self, text: String) -> (r: Result<i32, CalcError>)
        ensures
            final(self).wf(),
            final(self).spec_text() == text@,
            match spec_evaluate(text@) {
                Outcome::Value(v) => r matches Ok(x) && x == v,
                Outcome::LexError => r == Err::<i32, CalcError>(CalcError::LexError),
                Outcome::ParseError => r == Err::<i32, CalcError>(CalcError::ParseError),
                Outcome::Overflow => r == Err::<i32, CalcError>(CalcError::OverflowError),
            },
    {
        self.text = text;
        self.pos = 0;
        let len: usize = self.text.as_str().unicode_len();
        if len > 0 {
            let c = self.text.as_str().get_char(0);
            self.current_char = Some(c);
        } else {
            self.current_char = None;
        }
        self.current_token = None;
        let ghost s = self.text@;
        proof {
            lemma_token_at_props(s, 0);
        }
        let first = match self.get_next_token() {
            Ok(tok) => tok,
            Err(e) => {
                return Err(e);
            },
        };
        self.current_token = Some(first);
        let ghost p: int = token_at(s, 0).1;
        proof {
            lemma_token_at_props(s, p);
        }
        let mut result: i32 = match self.term() {
            Ok(v) => v,
            Err(e) => {
                return Err(e);
            },
        };
        let ghost mut anchor: int = p;
        loop
            invariant
                self.wf(),
                self.text@ == s,
                s == text@,
                0 <= anchor <= s.len(),
                self.lookahead() matches Some(tok) && token_matches(tok, token_at(s, anchor).0),
                !(token_at(s, anchor).0 is Invalid),
                self.spec_pos() == token_at(s, anchor).1,
                spec_evaluate(s) == eval_from(s, anchor, result as int),
            ensures
                self.wf(),
                self.text@ == s,
                spec_evaluate(text@) == Outcome::Value(result as int),
            decreases s.len() - anchor,
        {
            let kind = match &self.current_token {
                Some(tok) => tok.token_type,
                None => TokenType::Eof,
            };
            if kind == TokenType::Plus || kind == TokenType::Minus {
                let is_plus = kind == TokenType::Plus;
                proof {
                    lemma_token_at_props(s, anchor);
                }
                let ghost q: int = token_at(s, anchor).1;
                match self.eat(kind) {
                    Ok(()) => {},
                    Err(e) => {
                        return Err(e);
                    },
                }
                proof {
                    lemma_token_at_props(s, q);
                }
                let ghost r_pos: int = token_at(s, q).1;
                let v: i32 = match self.term() {
                    Ok(v) => v,
                    Err(e) => {
                        return Err(e);
                    },
                };
                let newr: i32 = if is_plus {
                    match result.checked_add(v) {
                        Some(x) => x,
                        None => {
                            return Err(CalcError::OverflowError);
                        },
                    }
                } else {
                    match result.checked_sub(v) {
                        Some(x) => x,
                        None => {
                            return Err(CalcError::OverflowError);
                        },
                    }
                };
                proof {
                    anchor = r_pos;
                }
                result = newr;
            } else {
                break ;
            }
        }
        Ok(result)
    }
}

/// Evaluates one line of text on a freshly constructed interpreter state.
/// Two evaluations of the same text always return the same result: the
/// contract pins the result as a function of the text alone.
pub fn evaluate(text: &str) -> (r: Result<i32, CalcError>)
    ensures
        match spec_evaluate(text@) {
            Outcome::Value(v) => r matches Ok(x) && x == v,
            Outcome::LexError => r == Err::<i32, CalcError>(CalcError::LexError),
            Outcome::ParseError => r == Err::<i32, CalcError>(CalcError::ParseError),
            Outcome::Overflow => r == Err::<i32, CalcError>(CalcError::OverflowError),
        },
{
    let mut interpreter = Interpreter::new();
    interpreter.expr(text.to_owned())
}

} // verus!
