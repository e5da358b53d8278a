//! The universal tree node type shared by parser output and evaluator
//! input and output, together with its mathematical model.

use vstd::prelude::*;

use crate::bignum::big_eq;
use crate::bignum::big_of;
use num_bigint::BigInt;

verus! {

/// Character-by-character equality of two strings.
pub fn str_eq(a: &str, b: &str) -> (r: bool)
    ensures
        r == (a@ == b@),
{
    let na = a.unicode_len();
    let nb = b.unicode_len();
    if na != nb {
        return false;
    }
    for i in 0..na
        invariant
            na == a@.len(),
            na == b@.len(),
            forall|j: int| 0 <= j < i ==> a@[j] == b@[j],
        decreases na - i,
    {
        let ca = a.get_char(i);
        let cb = b.get_char(i);
        if ca != cb {
            assert(a@[i as int] != b@[i as int]);
            return false;
        }
    }
    proof {
        assert(a@ =~= b@);
    }
    true
}

/// One node of an S-expression tree: an arbitrary-precision integer, a bare
/// symbol, or an ordered sequence of child nodes.
#[derive(Debug)]
pub enum Value {
    Int(BigInt),
    Identifier(String),
    Expr(Vec<Value>),
}

/// The mathematical model of a `Value`: integers as `int`, identifiers as
/// their character sequences, expressions as sequences of models.
pub enum SpecVal {
    Int(int),
    Ident(Seq<char>),
    Expr(Seq<SpecVal>),
}

/// The model of one `Value` node.
pub open spec fn view_val(v: Value) -> SpecVal
    decreases v,
{
    match v {
        Value::Int(b) => SpecVal::Int(big_of(b)),
        Value::Identifier(s) => SpecVal::Ident(s@),
        Value::Expr(children) => SpecVal::Expr(view_vals(children@)),
    }
}

/// The models of a sequence of `Value` nodes, in order.
pub open spec fn view_vals(s: Seq<Value>) -> Seq<SpecVal>
    decreases s,
{
    if s.len() == 0 {
        Seq::empty()
    } else {
        seq![view_val(s[0])] + view_vals(s.drop_first())
    }
}

impl View for Value {
    type V = SpecVal;

    open spec fn view(&self) -> SpecVal {
        view_val(*self)
    }
}

/// `view_vals` maps the model over the sequence element by element.
pub proof fn lemma_view_vals(s: Seq<Value>)
    ensures
        view_vals(s).len() == s.len(),
        forall|i: int| 0 <= i < s.len() ==> view_vals(s)[i] == view_val(s[i]),
    decreases s,
{
    if s.len() > 0 {
        lemma_view_vals(s.drop_first());
    }
}

/// Appending one node appends its model.
pub proof fn lemma_view_vals_push(s: Seq<Value>, v: Value)
    ensures
        view_vals(s.push(v)) == view_vals(s).push(view_val(v)),
{
    lemma_view_vals(s.push(v));
    lemma_view_vals(s);
    assert(view_vals(s.push(v)) =~= view_vals(s).push(view_val(v)));
}

impl Value {
    /// Structural equality: same variant and, for expressions, same-length
    /// children pairwise equal in order.
    #[verifier::loop_isolation(false)]
    pub fn deep_eq(&self, other: &Value) -> (r: bool)
        ensures
            r == (self@ == other@),
        decreases self,
    {
        match self {
            Value::Int(a) => match other {
                Value::Int(b) => big_eq(a, b),
                _ => false,
            },
            Value::Identifier(a) => match other {
                Value::Identifier(b) => str_eq(a.as_str(), b.as_str()),
                _ => false,
            },
            Value::Expr(a) => {
                let b = match other {
                    Value::Expr(b) => b,
                    _ => {
                        return false;
                    },
                };
                proof {
                    lemma_view_vals(a@);
                    lemma_view_vals(b@);
                }
                if a.len() != b.len() {
                    assert(view_vals(a@).len() != view_vals(b@).len());
                    return false;
                }
                let n = a.len();
                for i in 0..n
                    invariant
                        n == a.len() == b.len(),
                        forall|j: int| 0 <= j < i ==> view_val(a@[j]) == view_val(b@[j]),
                    decreases n - i,
                {
                    let same = a[i].deep_eq(&b[i]);
                    if !same {
                        proof {
                            lemma_view_vals(a@);
                            lemma_view_vals(b@);
                            assert(view_vals(a@)[i as int] != view_vals(b@)[i as int]);
                        }
                        return false;
                    }
                }
                proof {
                    lemma_view_vals(a@);
                    lemma_view_vals(b@);
                    assert(view_vals(a@) =~= view_vals(b@));
                }
                true
            },
        }
    }
}

impl PartialEq for Value {
    /// Structural equality through `deep_eq`.
    fn eq(&self, other: &Value) -> (r: bool) {
        self.deep_eq(other)
    }
}

impl vstd::std_specs::cmp::PartialEqSpecImpl for Value {
    open spec fn obeys_eq_spec() -> bool {
        true
    }

    open spec fn eq_spec(&self, other: &Value) -> bool {
        self@ == other@
    }
}

} // verus!
