//! The recursive-descent parser: character stream to `Value` tree.
//!
//! The grammar: an input is either all whitespace, or one expression
//! `( term* )` where a term is a nested expression or an atom, an atom being a
//! maximal run of non-whitespace, non-parenthesis characters. An atom that is
//! an integer literal becomes `Value::Int`; any other atom becomes
//! `Value::Identifier`.
//!
//! The spec parser (`parse_spec`, built on `parse_rest`) defines the result
//! for every input; the executable functions are proved to return exactly it.

use vstd::prelude::*;

use crate::bignum::big_from_decimal;
use crate::bignum::int_literal_val;
use crate::bignum::is_int_literal;
use crate::value::view_val;
use crate::value::view_vals;
use crate::value::SpecVal;
use crate::value::Value;

verus! {

/// The ways a line can fail to parse.
#[derive(Debug, PartialEq, Eq, Copy, Clone, Structural)]
pub enum ParseError {
    /// Non-whitespace content that does not start with `(`.
    ExpectedOpenParen,
    /// The input ended while an expression was still open.
    UnclosedParen,
    /// Non-whitespace content after the outermost expression closed.
    ExpectedEOF,
}

/// Whether a character has the Unicode `White_Space` property; the meaning of
/// `char::is_whitespace`, named here because it is a table, not a formula.
pub uninterp spec fn is_ws(c: char) -> bool;

/// Relies on `char::is_whitespace` (std): true exactly of the characters with
/// the Unicode `White_Space` property, a function of the character alone.
#[verifier::external_body]
pub(crate) fn char_is_ws(c: char) -> (r: bool)
    ensures
        r == is_ws(c),
{
    c.is_whitespace()
}

/// Relies on `String::push` (std): appends exactly the given character.
#[verifier::external_body]
pub(crate) fn push_char(s: &mut String, c: char)
    ensures
        final(s)@ == old(s)@.push(c),
{
    s.push(c)
}

/// The first position at or after `i` whose character is not whitespace, or
/// the end of the input.
pub open spec fn skip_ws(s: Seq<char>, i: nat) -> nat
    decreases s.len() - i when i <= s.len()
{
    if i < s.len() && is_ws(s[i as int]) {
        skip_ws(s, i + 1)
    } else {
        i
    }
}

pub proof fn lemma_skip_ws(s: Seq<char>, i: nat)
    requires
        i <= s.len(),
    ensures
        i <= skip_ws(s, i) <= s.len(),
        skip_ws(s, i) < s.len() ==> !is_ws(s[skip_ws(s, i) as int]),
    decreases s.len() - i,
{
    if i < s.len() && is_ws(s[i as int]) {
        lemma_skip_ws(s, i + 1);
    }
}

/// The `Value` model that an atom's text denotes: an integer literal becomes
/// an integer, any other text an identifier holding the text verbatim.
pub open spec fn atom_val(tok: Seq<char>) -> SpecVal {
    if is_int_literal(tok) {
        SpecVal::Int(int_literal_val(tok))
    } else {
        SpecVal::Ident(tok)
    }
}

/// One open expression's remaining parse, from position `i`, with the
/// children already parsed and the pending atom text. Returns the children of
/// the expression and the position just past its closing `)`, or the error.
///
/// `fuel` only forces termination; every call with `fuel > s.len() - i` gives
/// the same, fuel-free answer (`lemma_parse_rest_fuel`), and `parse_spec`
/// passes such a fuel, so `None` never reaches a contract.
pub open spec fn parse_rest(
    s: Seq<char>,
    i: nat,
    children: Seq<SpecVal>,
    token: Seq<char>,
    fuel: nat,
) -> Option<Result<(Seq<SpecVal>, nat), ParseError>>
    decreases fuel,
{
    if fuel == 0 {
        None
    } else {
        let j = skip_ws(s, i);
        if j >= s.len() {
            Some(Err(ParseError::UnclosedParen))
        } else {
            let c = s[j as int];
            let delim = j > i || c == '(' || c == ')';
            let flushed = if delim && token.len() > 0 {
                children.push(atom_val(token))
            } else {
                children
            };
            let pending = if delim && token.len() > 0 {
                Seq::<char>::empty()
            } else {
                token
            };
            if c == '(' {
                match parse_rest(s, j + 1, Seq::empty(), Seq::empty(), (fuel - 1) as nat) {
                    None => None,
                    Some(Err(e)) => Some(Err(e)),
                    Some(Ok((inner, k))) => parse_rest(
                        s,
                        k,
                        flushed.push(SpecVal::Expr(inner)),
                        Seq::empty(),
                        (fuel - 1) as nat,
                    ),
                }
            } else if c == ')' {
                Some(Ok((flushed, j + 1)))
            } else {
                parse_rest(s, j + 1, flushed, pending.push(c), (fuel - 1) as nat)
            }
        }
    }
}

/// Any two fuels above `s.len() - i` give `parse_rest` the same answer, that
/// answer is never `None`, and on success the returned position lies past `i`
/// and within the input.
pub proof fn lemma_parse_rest_fuel(
    s: Seq<char>,
    i: nat,
    children: Seq<SpecVal>,
    token: Seq<char>,
    fuel1: nat,
    fuel2: nat,
)
    requires
        i <= s.len(),
        fuel1 > s.len() - i,
        fuel2 > s.len() - i,
    ensures
        parse_rest(s, i, children, token, fuel1) == parse_rest(s, i, children, token, fuel2),
        parse_rest(s, i, children, token, fuel1) is Some,
        parse_rest(s, i, children, token, fuel1) matches Some(Ok((inner, k))) ==> i < k <= s.len(),
    decreases fuel1,
{
    lemma_skip_ws(s, i);
    let j = skip_ws(s, i);
    if j < s.len() {
        let c = s[j as int];
        let delim = j > i || c == '(' || c == ')';
        let flushed = if delim && token.len() > 0 {
            children.push(atom_val(token))
        } else {
            children
        };
        let pending = if delim && token.len() > 0 {
            Seq::<char>::empty()
        } else {
            token
        };
        if c == '(' {
            lemma_parse_rest_fuel(
                s,
                j + 1,
                Seq::empty(),
                Seq::empty(),
                (fuel1 - 1) as nat,
                (fuel2 - 1) as nat,
            );
            match parse_rest(s, j + 1, Seq::empty(), Seq::empty(), (fuel1 - 1) as nat) {
                Some(Ok((inner, k))) => {
                    lemma_parse_rest_fuel(
                        s,
                        k,
                        flushed.push(SpecVal::Expr(inner)),
                        Seq::empty(),
                        (fuel1 - 1) as nat,
                        (fuel2 - 1) as nat,
                    );
                },
                _ => {},
            }
        } else if c == ')' {
        } else {
            lemma_parse_rest_fuel(
                s,
                j + 1,
                flushed,
                pending.push(c),
                (fuel1 - 1) as nat,
                (fuel2 - 1) as nat,
            );
        }
    }
}

/// The result of parsing one whole line: the single top-level expression, the
/// empty expression on all-whitespace input, or the error the line deserves.
pub open spec fn parse_spec(s: Seq<char>) -> Result<SpecVal, ParseError> {
    let j = skip_ws(s, 0);
    if j >= s.len() {
        Ok(SpecVal::Expr(Seq::empty()))
    } else if s[j as int] != '(' {
        Err(ParseError::ExpectedOpenParen)
    } else {
        match parse_rest(s, j + 1, Seq::empty(), Seq::empty(), s.len() + 1) {
            None => Err(ParseError::UnclosedParen),
            Some(Err(e)) => Err(e),
            Some(Ok((inner, k))) => {
                if skip_ws(s, k) >= s.len() {
                    Ok(SpecVal::Expr(inner))
                } else {
                    Err(ParseError::ExpectedEOF)
                }
            },
        }
    }
}

/// A successful parse always yields exactly one top-level expression node,
/// possibly nested — never a bare integer or identifier.
pub proof fn lemma_parse_yields_expression(s: Seq<char>)
    ensures
        parse_spec(s) matches Ok(v) ==> v is Expr,
{
}

/// The model of a parse result: the tree's model on success, the error
/// unchanged on failure.
pub open spec fn parse_result_view(r: Result<Value, ParseError>) -> Result<SpecVal, ParseError> {
    match r {
        Ok(v) => Ok(view_val(v)),
        Err(e) => Err(e),
    }
}

/// The fuel that `parse_internal` hands the spec parser for a parse that
/// starts at `i`: strictly more than the characters that remain.
pub open spec fn rest_fuel(s: Seq<char>, i: nat) -> nat {
    (s.len() - i + 1) as nat
}

/// Skips the whitespace run at position `i` and takes the next character.
/// Returns that character (or `None` at the end of the input), whether the
/// current token ends here (whitespace was skipped, or the character is a
/// parenthesis), and the position after the returned character.
#[verifier::loop_isolation(false)]
pub fn next_skip_whitespace(s: &str, i: usize) -> (r: (Option<char>, bool, usize))
    requires
        i <= s@.len(),
        s@.len() <= usize::MAX,
    ensures
        ({
            let j = skip_ws(s@, i as nat);
            &&& (j < s@.len() ==> {
                &&& r.0 == Some(s@[j as int])
                &&& r.1 == (j > i || s@[j as int] == '(' || s@[j as int] == ')')
                &&& r.2 == j + 1
            })
            &&& (j >= s@.len() ==> r.0 is None && r.2 == j)
        }),
{
    let n = s.unicode_len();
    let mut j = i;
    while j < n && char_is_ws(s.get_char(j))
        invariant
            i <= j <= n,
            skip_ws(s@, j as nat) == skip_ws(s@, i as nat),
        decreases n - j,
    {
        j = j + 1;
    }
    if j < n {
        let c = s.get_char(j);
        let delim = j > i || c == '(' || c == ')';
        (Some(c), delim, j + 1)
    } else {
        (None, j > i, j)
    }
}

/// Whether a text is an integer literal: an optional leading `-`, then one or
/// more decimal digits, and nothing else.
#[verifier::loop_isolation(false)]
fn is_int_literal_exec(x: &String) -> (b: bool)
    ensures
        b == is_int_literal(x@),
{
    let st = x.as_str();
    let n = st.unicode_len();
    if n == 0 {
        return false;
    }
    let c0 = st.get_char(0);
    let start: usize = if c0 == '-' {
        1
    } else {
        0
    };
    if n == start {
        return false;
    }
    for i in start..n
        invariant
            forall|k: int| start <= k < i ==> crate::bignum::is_digit(x@[k]),
        decreases n - i,
    {
        let c = st.get_char(i);
        let u = c as u32;
        if u < 48 || u > 57 {
            assert(!crate::bignum::is_digit(x@[i as int]));
            assert(!is_int_literal(x@)) by {
                if start == 1 {
                    assert(x@.skip(1)[i - 1] == x@[i as int]);
                }
            }
            return false;
        }
    }
    assert(is_int_literal(x@)) by {
        if start == 1 {
            assert(forall|k: int|
                0 <= k < x@.skip(1).len() ==> x@.skip(1)[k] == x@[k + 1]
                    && crate::bignum::is_digit(#[trigger] x@.skip(1)[k]));
        }
    }
    true
}

/// Converts one atom's text: an integer literal becomes `Value::Int`, any
/// other text `Value::Identifier` holding the text verbatim.
fn string_to_value(x: String) -> (v: Value)
    ensures
        v@ == atom_val(x@),
{
    if is_int_literal_exec(&x) {
        Value::Int(big_from_decimal(&x))
    } else {
        Value::Identifier(x)
    }
}

/// Parses the terms of one open expression, starting just after its `(`, up
/// to and including its matching `)`. Returns the children and the position
/// just past the `)`.
#[verifier::loop_isolation(false)]
fn parse_internal(s: &str, i: usize) -> (r: (Result<Vec<Value>, ParseError>, usize))
    requires
        i <= s@.len(),
        s@.len() <= usize::MAX,
    ensures
        ({
            let m = parse_rest(s@, i as nat, Seq::empty(), Seq::empty(), rest_fuel(s@, i as nat));
            match r.0 {
                Ok(children) => m == Some(Ok::<_, ParseError>((view_vals(children@), r.1 as nat)))
                    && i < r.1 <= s@.len(),
                Err(e) => m == Some(Err::<(Seq<SpecVal>, nat), _>(e)),
            }
        }),
    decreases s@.len() - i,
{
    let mut children: Vec<Value> = Vec::new();
    let mut token = String::from_str("");
    proof {
        reveal_strlit("");
        assert(token@ =~= Seq::<char>::empty());
        assert(view_vals(children@) =~= Seq::<SpecVal>::empty());
    }
    let mut pos = i;
    loop
        invariant
            i <= pos <= s@.len(),
            parse_rest(s@, pos as nat, view_vals(children@), token@, rest_fuel(s@, pos as nat))
                == parse_rest(s@, i as nat, Seq::empty(), Seq::empty(), rest_fuel(s@, i as nat)),
        decreases s@.len() - pos,
    {
        let ghost j = skip_ws(s@, pos as nat);
        proof {
            lemma_skip_ws(s@, pos as nat);
        }
        let (oc, delim, next) = next_skip_whitespace(s, pos);
        match oc {
            None => {
                return (Err(ParseError::UnclosedParen), next);
            },
            Some(c) => {
                let token_started = token.as_str().unicode_len() > 0;
                if delim && token_started {
                    let atom = string_to_value(token);
                    proof {
                        crate::value::lemma_view_vals_push(children@, atom);
                    }
                    children.push(atom);
                    token = String::from_str("");
                    proof {
                        reveal_strlit("");
                        assert(token@ =~= Seq::<char>::empty());
                    }
                }
                if c == '(' {
                    proof {
                        assert(token@ =~= Seq::<char>::empty());
                    }
                    let (res, k) = parse_internal(s, next);
                    proof {
                        lemma_parse_rest_fuel(
                            s@,
                            (j + 1) as nat,
                            Seq::empty(),
                            Seq::empty(),
                            rest_fuel(s@, (j + 1) as nat),
                            (rest_fuel(s@, pos as nat) - 1) as nat,
                        );
                    }
                    match res {
                        Err(e) => {
                            return (Err(e), k);
                        },
                        Ok(inner) => {
                            let node = Value::Expr(inner);
                            proof {
                                crate::value::lemma_view_vals_push(children@, node);
                                lemma_parse_rest_fuel(
                                    s@,
                                    k as nat,
                                    view_vals(children@).push(view_val(node)),
                                    Seq::empty(),
                                    rest_fuel(s@, k as nat),
                                    (rest_fuel(s@, pos as nat) - 1) as nat,
                                );
                            }
                            children.push(node);
                            pos = k;
                        },
                    }
                } else if c == ')' {
                    return (Ok(children), next);
                } else {
                    proof {
                        lemma_parse_rest_fuel(
                            s@,
                            (j + 1) as nat,
                            view_vals(children@),
                            token@.push(c),
                            rest_fuel(s@, (j + 1) as nat),
                            (rest_fuel(s@, pos as nat) - 1) as nat,
                        );
                    }
                    push_char(&mut token, c);
                    pos = next;
                }
            },
        }
    }
}

/// Parses one line. All-whitespace input gives the empty expression; any
/// other input must be exactly one parenthesized expression, else the fitting
/// `ParseError` comes back. The result is exactly `parse_spec` of the input.
pub fn parse(s: &str) -> (r: Result<Value, ParseError>)
    ensures
        parse_result_view(r) == parse_spec(s@),
{
    let len = s.unicode_len();
    proof {
        assert(s@.len() == len);
        lemma_skip_ws(s@, 0);
    }
    let (oc, _, next) = next_skip_whitespace(s, 0);
    match oc {
        None => Ok(Value::Expr(Vec::new())),
        Some(c) => {
            if c != '(' {
                Err(ParseError::ExpectedOpenParen)
            } else {
                proof {
                    lemma_parse_rest_fuel(
                        s@,
                        next as nat,
                        Seq::empty(),
                        Seq::empty(),
                        rest_fuel(s@, next as nat),
                        s@.len() + 1,
                    );
                }
                let (res, k) = parse_internal(s, next);
                match res {
                    Err(e) => Err(e),
                    Ok(children) => {
                        proof {
                            lemma_skip_ws(s@, k as nat);
                        }
                        let (tail, _, _) = next_skip_whitespace(s, k);
                        match tail {
                            None => Ok(Value::Expr(children)),
                            Some(_) => Err(ParseError::ExpectedEOF),
                        }
                    },
                }
            }
        },
    }
}

} // verus!
