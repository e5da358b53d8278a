//! The tree-walking evaluator: `Value` tree to reduced `Value` tree.
//!
//! Evaluation is a pure recursive reduction: leaves evaluate to themselves,
//! an expression first evaluates its children in order, then collapses a
//! single-term expression to its term, applies a recognized leading operator
//! identifier to integer arguments, and leaves every other form inert.
//!
//! The spec functions `eval_val` and `eval_seq` define the result for every
//! tree; the executable functions are proved to return exactly it.

use vstd::prelude::*;

use crate::bignum::big_add;
use crate::bignum::big_clone;
use crate::bignum::big_div;
use crate::bignum::big_is_zero;
use crate::bignum::big_mul;
use crate::bignum::big_of;
use crate::bignum::big_sub;
use crate::bignum::trunc_div;
use crate::value::lemma_view_vals;
use crate::value::view_val;
use crate::value::view_vals;
use crate::value::SpecVal;
use crate::value::Value;

verus! {

/// The ways a reduction can fail.
#[derive(Debug, PartialEq, Eq, Copy, Clone, Structural)]
pub enum EvalError {
    /// A recognized operator was applied to a non-integer argument; the field
    /// is the 0-based position of that argument among the arguments, not
    /// counting the operator itself.
    BadArgument(usize),
    /// A division met a zero divisor.
    DivisionByZero,
}

/// The four recognized arithmetic operators.
#[derive(Debug, PartialEq, Eq, Copy, Clone, Structural)]
pub enum Op {
    Add,
    Sub,
    Mul,
    Div,
}

/// The operator that an identifier names, if any: exactly the four one-character
/// symbols `+`, `-`, `*`, `/`.
pub open spec fn op_of(name: Seq<char>) -> Option<Op> {
    if name.len() == 1 && name[0] == '+' {
        Some(Op::Add)
    } else if name.len() == 1 && name[0] == '-' {
        Some(Op::Sub)
    } else if name.len() == 1 && name[0] == '*' {
        Some(Op::Mul)
    } else if name.len() == 1 && name[0] == '/' {
        Some(Op::Div)
    } else {
        None
    }
}

/// One operator step on two integers; division truncates toward zero.
pub open spec fn apply2(op: Op, x: int, y: int) -> int {
    match op {
        Op::Add => x + y,
        Op::Sub => x - y,
        Op::Mul => x * y,
        Op::Div => trunc_div(x, y),
    }
}

/// The left-to-right fold of `op` over the arguments after the first, with
/// `acc` the value so far and `pos` the 0-based position of `args[0]` among
/// all the arguments. A non-integer argument gives `BadArgument` at its
/// position; a zero divisor gives `DivisionByZero`; whichever comes first,
/// left to right, wins.
pub open spec fn fold_args(op: Op, acc: int, args: Seq<SpecVal>, pos: int) -> Result<
    int,
    EvalError,
>
    decreases args.len(),
{
    if args.len() == 0 {
        Ok(acc)
    } else {
        match args[0] {
            SpecVal::Int(n) => {
                if op is Div && n == 0 {
                    Err(EvalError::DivisionByZero)
                } else {
                    fold_args(op, apply2(op, acc, n), args.drop_first(), pos + 1)
                }
            },
            _ => Err(EvalError::BadArgument(pos as usize)),
        }
    }
}

/// Applying an operator to its evaluated arguments: the first argument is the
/// initial accumulator, the rest are folded in from the left.
pub open spec fn apply_op(op: Op, args: Seq<SpecVal>) -> Result<SpecVal, EvalError> {
    if args.len() == 0 {
        Err(EvalError::BadArgument(0))
    } else {
        match args[0] {
            SpecVal::Int(n) => match fold_args(op, n, args.drop_first(), 1) {
                Ok(m) => Ok(SpecVal::Int(m)),
                Err(e) => Err(e),
            },
            _ => Err(EvalError::BadArgument(0)),
        }
    }
}

/// The value that one tree reduces to, or the first error met. Leaves are
/// self-evaluating; an expression evaluates its children in order, collapses
/// a single term, applies a recognized leading operator identifier, and is
/// otherwise inert.
pub open spec fn eval_val(v: SpecVal) -> Result<SpecVal, EvalError>
    decreases v,
{
    match v {
        SpecVal::Int(_) => Ok(v),
        SpecVal::Ident(_) => Ok(v),
        SpecVal::Expr(cs) => match eval_seq(cs) {
            Err(e) => Err(e),
            Ok(ev) => {
                if ev.len() == 0 {
                    Ok(SpecVal::Expr(ev))
                } else if ev.len() == 1 {
                    Ok(ev[0])
                } else {
                    match ev[0] {
                        SpecVal::Ident(name) => match op_of(name) {
                            Some(op) => apply_op(op, ev.drop_first()),
                            None => Ok(SpecVal::Expr(ev)),
                        },
                        _ => Ok(SpecVal::Expr(ev)),
                    }
                }
            },
        },
    }
}

/// The values that a sequence of trees reduce to, in order, or the error of
/// the leftmost tree that fails.
pub open spec fn eval_seq(cs: Seq<SpecVal>) -> Result<Seq<SpecVal>, EvalError>
    decreases cs,
{
    if cs.len() == 0 {
        Ok(Seq::empty())
    } else {
        match eval_val(cs[0]) {
            Err(e) => Err(e),
            Ok(v0) => match eval_seq(cs.drop_first()) {
                Err(e) => Err(e),
                Ok(rest) => Ok(seq![v0] + rest),
            },
        }
    }
}

/// A successful `eval_seq` holds exactly the children's own results.
pub proof fn lemma_eval_seq_ok(cs: Seq<SpecVal>, ev: Seq<SpecVal>)
    requires
        eval_seq(cs) == Ok::<_, EvalError>(ev),
    ensures
        ev.len() == cs.len(),
        forall|i: int| 0 <= i < cs.len() ==> eval_val(cs[i]) == Ok::<_, EvalError>(ev[i]),
    decreases cs,
{
    if cs.len() > 0 {
        let rest = eval_seq(cs.drop_first())->Ok_0;
        lemma_eval_seq_ok(cs.drop_first(), rest);
        assert(forall|i: int| 1 <= i < cs.len() ==> cs.drop_first()[i - 1] == cs[i]);
    }
}

/// When every child succeeds with the given results, `eval_seq` succeeds with
/// exactly them.
pub proof fn lemma_eval_seq_all_ok(cs: Seq<SpecVal>, ev: Seq<SpecVal>)
    requires
        ev.len() == cs.len(),
        forall|i: int| 0 <= i < cs.len() ==> eval_val(cs[i]) == Ok::<_, EvalError>(ev[i]),
    ensures
        eval_seq(cs) == Ok::<_, EvalError>(ev),
    decreases cs,
{
    if cs.len() == 0 {
        assert(ev =~= Seq::<SpecVal>::empty());
    } else {
        assert(forall|i: int| 1 <= i < cs.len() ==> cs.drop_first()[i - 1] == cs[i]);
        lemma_eval_seq_all_ok(cs.drop_first(), ev.drop_first());
        assert(seq![ev[0]] + ev.drop_first() =~= ev);
    }
}

/// When the children before `j` succeed and the child at `j` fails with `e`,
/// `eval_seq` fails with `e`.
pub proof fn lemma_eval_seq_err(cs: Seq<SpecVal>, j: int, e: EvalError)
    requires
        0 <= j < cs.len(),
        forall|i: int| 0 <= i < j ==> eval_val(cs[i]) is Ok,
        eval_val(cs[j]) == Err::<SpecVal, _>(e),
    ensures
        eval_seq(cs) == Err::<Seq<SpecVal>, _>(e),
    decreases cs,
{
    if j > 0 {
        assert(forall|i: int| 0 <= i < cs.drop_first().len() ==> cs.drop_first()[i] == cs[i + 1]);
        lemma_eval_seq_err(cs.drop_first(), j - 1, e);
    }
}

/// The model of an evaluation result: the tree's model on success, the error
/// unchanged on failure.
pub open spec fn eval_result_view(r: Result<Value, EvalError>) -> Result<SpecVal, EvalError> {
    match r {
        Ok(v) => Ok(view_val(v)),
        Err(e) => Err(e),
    }
}

/// A fold's outcome as an evaluation result.
pub open spec fn lift_fold(r: Result<int, EvalError>) -> Result<SpecVal, EvalError> {
    match r {
        Ok(m) => Ok(SpecVal::Int(m)),
        Err(e) => Err(e),
    }
}

/// The operator that an identifier names, if any.
fn op_lookup(name: &String) -> (r: Option<Op>)
    ensures
        r == op_of(name@),
{
    let st = name.as_str();
    if st.unicode_len() != 1 {
        return None;
    }
    let c = st.get_char(0);
    if c == '+' {
        Some(Op::Add)
    } else if c == '-' {
        Some(Op::Sub)
    } else if c == '*' {
        Some(Op::Mul)
    } else if c == '/' {
        Some(Op::Div)
    } else {
        None
    }
}

/// Folds `op` over already-evaluated arguments, the first argument being the
/// initial accumulator. Every argument must be an integer, and a division
/// must not meet a zero divisor; the first offense, left to right, is the
/// error.
#[verifier::loop_isolation(false)]
pub fn num_oper(op: Op, args: &Vec<Value>) -> (r: Result<Value, EvalError>)
    requires
        args@.len() >= 1,
    ensures
        eval_result_view(r) == apply_op(op, view_vals(args@)),
{
    proof {
        lemma_view_vals(args@);
    }
    let mut acc = match &args[0] {
        Value::Int(b) => big_clone(b),
        _ => {
            return Err(EvalError::BadArgument(0));
        },
    };
    let ghost whole = view_vals(args@);
    proof {
        assert(whole.drop_first() =~= whole.skip(1));
    }
    let n = args.len();
    for i in 1..n
        invariant
            1 <= i <= n,
            lift_fold(fold_args(op, big_of(acc), whole.skip(i as int), i as int)) == apply_op(
                op,
                whole,
            ),
        decreases n - i,
    {
        let ghost tail = whole.skip(i as int);
        proof {
            assert(tail[0] == whole[i as int]);
            assert(tail.drop_first() =~= whole.skip(i + 1));
        }
        match &args[i] {
            Value::Int(b) => {
                if op == Op::Div && big_is_zero(b) {
                    return Err(EvalError::DivisionByZero);
                }
                acc = match op {
                    Op::Add => big_add(&acc, b),
                    Op::Sub => big_sub(&acc, b),
                    Op::Mul => big_mul(&acc, b),
                    Op::Div => big_div(&acc, b),
                };
            },
            _ => {
                return Err(EvalError::BadArgument(i));
            },
        }
    }
    proof {
        assert(whole.skip(n as int) =~= Seq::<SpecVal>::empty());
    }
    Ok(Value::Int(acc))
}

/// Reduces one tree, by reference.
#[verifier::loop_isolation(false)]
fn eval_node(v: &Value) -> (r: Result<Value, EvalError>)
    ensures
        eval_result_view(r) == eval_val(v@),
    decreases v,
{
    match v {
        Value::Int(b) => Ok(Value::Int(big_clone(b))),
        Value::Identifier(s) => Ok(Value::Identifier(String::from_str(s.as_str()))),
        Value::Expr(children) => {
            let ghost cs = view_vals(children@);
            proof {
                lemma_view_vals(children@);
            }
            let n = children.len();
            let mut ev: Vec<Value> = Vec::new();
            for idx in 0..n
                invariant
                    ev@.len() == idx,
                    forall|k: int|
                        0 <= k < idx ==> eval_val(cs[k]) == Ok::<_, EvalError>(view_val(ev@[k])),
                decreases n - idx,
            {
                match eval_node(&children[idx]) {
                    Err(e) => {
                        proof {
                            lemma_eval_seq_err(cs, idx as int, e);
                        }
                        return Err(e);
                    },
                    Ok(w) => {
                        ev.push(w);
                    },
                }
            }
            proof {
                lemma_view_vals(ev@);
                lemma_eval_seq_all_ok(cs, view_vals(ev@));
            }
            if ev.len() == 0 {
                return Ok(Value::Expr(ev));
            }
            if ev.len() == 1 {
                let first = ev.remove(0);
                return Ok(first);
            }
            let op_opt = match &ev[0] {
                Value::Identifier(name) => op_lookup(name),
                _ => None,
            };
            match op_opt {
                None => Ok(Value::Expr(ev)),
                Some(op) => {
                    let ghost evs = view_vals(ev@);
                    let _ = ev.remove(0);
                    proof {
                        lemma_view_vals(ev@);
                        assert(view_vals(ev@) =~= evs.drop_first());
                    }
                    num_oper(op, &ev)
                },
            }
        },
    }
}

/// Reduces one tree: the result is exactly `eval_val` of the tree's model.
pub fn eval(v: Value) -> (r: Result<Value, EvalError>)
    ensures
        eval_result_view(r) == eval_val(v@),
{
    eval_node(&v)
}

/// Evaluation is idempotent: whatever a tree reduces to, reducing it again
/// returns it unchanged — results, the inert forms among them, are fixpoints.
pub proof fn lemma_eval_idempotent(v: SpecVal)
    ensures
        eval_val(v) matches Ok(w) ==> eval_val(w) == Ok::<_, EvalError>(w),
    decreases v,
{
    match v {
        SpecVal::Expr(cs) => {
            if eval_val(v) is Ok {
                let ev = eval_seq(cs)->Ok_0;
                lemma_eval_seq_ok(cs, ev);
                assert forall|i: int| 0 <= i < ev.len() implies eval_val(ev[i]) == Ok::<
                    _,
                    EvalError,
                >(ev[i]) by {
                    lemma_eval_idempotent(cs[i]);
                }
                lemma_eval_seq_all_ok(ev, ev);
            }
        },
        _ => {},
    }
}

} // verus!
