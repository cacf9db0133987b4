//! The evaluator of expressions.
use vstd::prelude::*;
use std::rc::Rc;
use crate::data::expression::{data_of, share, Datum, Expr, Expression};
use crate::eval::environment::Environment;
use crate::eval::error::{EvalError, EvalResult};

verus! {

/// The trait for a type that can evaluate expressions.
pub trait Eval {
    /// What the evaluation of `expr` in `env` may give. An evaluator that
    /// says nothing of itself may give anything.
    open spec fn gives(&self, expr: &Expr, env: &Environment, result: EvalResult<Expr>) -> bool {
        true
    }

    /// Evaluates an expression within the given environment, returning the
    /// resulting value, or an error where the evaluation fails.
    fn eval(&self, expr: &Expr, env: &Environment) -> (r: EvalResult<Expr>)
        ensures
            self.gives(expr, env, r),
    ;
}

/// The items of the proper list `d`, where it is one.
pub open spec fn list_items(d: Datum) -> Option<Seq<Datum>>
    decreases d,
{
    match d {
        Datum::Nil => Some(Seq::empty()),
        Datum::Pair(car, cdr) => match list_items(*cdr) {
            Some(rest) => Some(seq![*car] + rest),
            None => None,
        },
        _ => None,
    }
}

/// The default implementation of an expression evaluator.
///
/// A symbol evaluates to the value that the environment gives to its name.
/// A pair is a call: what stands first is evaluated and applied to the
/// arguments, which must form a proper list. No expression is a function,
/// so a well-formed call fails with what its head evaluates to. All other
/// expressions evaluate to themselves.
pub struct Evaluator;

impl Evaluator {
    /// The arguments of the call `(head . tail)`: the items of `tail`, which
    /// must be a proper list.
    pub fn unpack_args(&self, head: &Expr, tail: &Expr) -> (r: EvalResult<Vec<Expr>>)
        ensures
            match r {
                Ok(args) => list_items(tail@) == Some(data_of(args@)),
                Err(EvalError::BadlyFormedCall(call)) => list_items(tail@) is None && *call
                    == Expression::Pair(*head, *tail),
                Err(_) => false,
            },
    {
        let mut args: Vec<Expr> = Vec::new();
        let mut current: &Expr = tail;
        proof {
            assert(data_of(args@) =~= Seq::<Datum>::empty());
            lemma_prefix_items(Seq::empty(), list_items(current@));
        }
        loop
            invariant
                list_items(tail@) == prefix_items(data_of(args@), list_items(current@)),
            decreases current,
        {
            match &**current {
                Expression::Nil => {
                    proof {
                        assert(data_of(args@) + Seq::<Datum>::empty() =~= data_of(args@));
                    }
                    return Ok(args);
                },
                Expression::Pair(a, d) => {
                    let ghost before = data_of(args@);
                    args.push(share(a));
                    proof {
                        assert(data_of(args@) =~= before.push(a@));
                        match list_items(d@) {
                            Some(rest) => {
                                assert(before + (seq![a@] + rest) =~= before.push(a@) + rest);
                            },
                            None => {},
                        }
                    }
                    current = d;
                },
                _ => {
                    return Err(
                        EvalError::BadlyFormedCall(
                            Rc::new(Expression::Pair(share(head), share(tail))),
                        ),
                    );
                },
            }
        }
    }
}

/// `items` with `head` put before them, where there are any.
pub open spec fn prefix_items(head: Seq<Datum>, items: Option<Seq<Datum>>) -> Option<Seq<Datum>> {
    match items {
        Some(rest) => Some(head + rest),
        None => None,
    }
}

proof fn lemma_prefix_items(head: Seq<Datum>, items: Option<Seq<Datum>>)
    requires
        head.len() == 0,
    ensures
        prefix_items(head, items) == items,
{
    match items {
        Some(rest) => {
            assert(head + rest =~= rest);
        },
        None => {},
    }
}

/// What the evaluation of an expression comes to.
pub enum Outcome {
    /// The expression has this value.
    Value(Expr),
    /// The symbol of this name has no binding.
    Unbound(Seq<char>),
    /// The call with this head and this tail is no proper list.
    BadCall(Expr, Expr),
    /// The head of a call has this value, which is no function.
    NotFunction(Expr),
}

/// The outcome of evaluating `e` in `env`. A symbol has the value that the
/// environment gives to its name. Of a call the head is evaluated first; its
/// failure is that of the call. Then the arguments must form a proper
/// list; and then the call fails, as no expression is a function. All
/// other expressions are their own value.
pub open spec fn outcome(e: Expression, env: &Environment) -> Outcome
    decreases e,
{
    match e {
        Expression::Symbol(name) => match env.value_of(name@) {
            Some(value) => Outcome::Value(value),
            None => Outcome::Unbound(name@),
        },
        Expression::Pair(head, tail) => match outcome(*head, env) {
            Outcome::Value(f) => if list_items(tail@) is Some {
                Outcome::NotFunction(f)
            } else {
                Outcome::BadCall(head, tail)
            },
            failure => failure,
        },
        _ => Outcome::Value(std::rc::Rc::new(e)),
    }
}

/// Whether the result `r` reports the outcome `o`.
pub open spec fn reports(r: EvalResult<Expr>, o: Outcome) -> bool {
    match (r, o) {
        (Ok(v), Outcome::Value(value)) => v == value,
        (Err(EvalError::UnboundVariable(n)), Outcome::Unbound(name)) => n@ == name,
        (Err(EvalError::BadlyFormedCall(call)), Outcome::BadCall(head, tail)) => *call
            == Expression::Pair(head, tail),
        (Err(EvalError::NotAFunction(v)), Outcome::NotFunction(value)) => v == value,
        _ => false,
    }
}

impl Eval for Evaluator {
    /// The result reports the outcome of the evaluation.
    open spec fn gives(&self, expr: &Expr, env: &Environment, result: EvalResult<Expr>) -> bool {
        reports(result, outcome(**expr, env))
    }

    fn eval(&self, expr: &Expr, env: &Environment) -> (r: EvalResult<Expr>)
        decreases expr,
    {
        match &**expr {
            Expression::Symbol(name) => env.get(name.as_str()),
            Expression::Pair(a, d) => {
                let func = match self.eval(a, env) {
                    Ok(func) => func,
                    Err(e) => {
                        return Err(e);
                    },
                };
                match self.unpack_args(a, d) {
                    Ok(_) => Err(EvalError::NotAFunction(func)),
                    Err(e) => Err(e),
                }
            },
            _ => Ok(share(expr)),
        }
    }
}

} // verus!
