//! Functions that are applied to arguments in a call form, and the bounds
//! on the number of their arguments.
use vstd::prelude::*;
use crate::data::expression::Expr;
use crate::eval::environment::Environment;
use crate::eval::error::{EvalError, EvalResult};
use crate::eval::evaluator::Eval;

verus! {

/// A set of bounds for the number of arguments that may be passed to a
/// function.
#[derive(Clone, Copy, Debug, PartialEq, Eq)]
pub struct ArgBounds {
    /// The minimum number of arguments allowed.
    pub min: Option<usize>,
    /// The maximum number of arguments allowed.
    pub max: Option<usize>,
}

impl ArgBounds {
    /// Whether `count` arguments are fewer than the bounds allow.
    pub open spec fn too_few(self, count: nat) -> bool {
        self.min matches Some(m) && count < m
    }

    /// Whether `count` arguments are more than the bounds allow.
    pub open spec fn too_many(self, count: nat) -> bool {
        self.max matches Some(m) && count > m
    }

    /// Validates an argument list against the bounds, for a function of the
    /// given name. Too few arguments are reported before too many.
    pub fn validate(&self, name: &str, args: &[Expr]) -> (r: EvalResult<()>)
        ensures
            match r {
                Ok(_) => !self.too_few(args@.len()) && !self.too_many(args@.len()),
                Err(EvalError::NotEnoughArguments(n, m, actual)) => self.too_few(args@.len())
                    && n@ == name@ && self.min == Some(m) && actual == args@.len(),
                Err(EvalError::TooManyArguments(n, m, actual)) => !self.too_few(args@.len())
                    && self.too_many(args@.len()) && n@ == name@ && self.max == Some(m)
                    && actual == args@.len(),
                Err(_) => false,
            },
    {
        let count: usize = args.len();
        match self.min {
            Some(m) => {
                if count < m {
                    return Err(EvalError::NotEnoughArguments(name.to_owned(), m, count));
                }
            },
            None => {},
        }
        match self.max {
            Some(m) => {
                if count > m {
                    return Err(EvalError::TooManyArguments(name.to_owned(), m, count));
                }
            },
            None => {},
        }
        Ok(())
    }
}

/// An enumeration of different types of function and syntax element that
/// may be applied to arguments in a call form.
#[derive(Debug)]
pub enum Function {
    /// A primitive function, with its name and the bounds on the number of
    /// its arguments. Its implementation takes the evaluated arguments and
    /// returns a result or the message of a failure; it is handed in where
    /// the function is applied.
    Primitive(String, ArgBounds),
}

impl Function {
    /// The name of the function.
    pub open spec fn name(self) -> Seq<char> {
        match self {
            Function::Primitive(n, _) => n@,
        }
    }

    /// The bounds on the number of arguments.
    pub open spec fn bounds(self) -> ArgBounds {
        match self {
            Function::Primitive(_, a) => a,
        }
    }

    /// The values `results` are what the evaluation of the arguments gives,
    /// one for one.
    pub open spec fn evaluated<E: Eval>(
        args: Seq<Expr>,
        env: &Environment,
        eval: &E,
        results: Seq<Expr>,
    ) -> bool {
        &&& results.len() == args.len()
        &&& forall|i: int| 0 <= i < args.len() ==> eval.gives(&args[i], env, Ok(#[trigger] results[i]))
    }

    /// The evaluation of the arguments before the `j`th gives the values
    /// `before`, one for one, and that of the `j`th fails with `e`.
    pub open spec fn fails_at<E: Eval>(
        args: Seq<Expr>,
        env: &Environment,
        eval: &E,
        e: EvalError,
        j: int,
        before: Seq<Expr>,
    ) -> bool {
        &&& 0 <= j < args.len()
        &&& before.len() == j
        &&& forall|i: int| 0 <= i < j ==> eval.gives(&args[i], env, Ok(#[trigger] before[i]))
        &&& eval.gives(&args[j], env, Err(e))
    }

    /// The evaluation of the arguments, from the first on, fails with `e`:
    /// the arguments before the first that fails have values, and that one
    /// fails with `e`.
    pub open spec fn fails_on_argument<E: Eval>(
        args: Seq<Expr>,
        env: &Environment,
        eval: &E,
        e: EvalError,
    ) -> bool {
        exists|j: int, before: Seq<Expr>| #[trigger]
            Function::fails_at(args, env, eval, e, j, before)
    }

    /// What the call of the function on evaluated arguments comes to: too
    /// few arguments are reported, else too many; else the result of the
    /// implementation is handed out, its failure under the name of the
    /// function.
    pub open spec fn called<F: FnOnce(Vec<Expr>) -> Result<Expr, String>>(
        self,
        args: Vec<Expr>,
        f: F,
        r: EvalResult<Expr>,
    ) -> bool {
        let bounds = self.bounds();
        let count = args@.len();
        match r {
            Ok(value) => !bounds.too_few(count) && !bounds.too_many(count) && f.ensures(
                (args,),
                Ok(value),
            ),
            Err(EvalError::NotEnoughArguments(n, m, actual)) => bounds.too_few(count) && n@
                == self.name() && bounds.min == Some(m) && actual == count,
            Err(EvalError::TooManyArguments(n, m, actual)) => !bounds.too_few(count)
                && bounds.too_many(count) && n@ == self.name() && bounds.max == Some(m) && actual
                == count,
            Err(EvalError::FunctionError(n, message)) => !bounds.too_few(count)
                && !bounds.too_many(count) && n@ == self.name() && f.ensures(
                (args,),
                Err(message),
            ),
            Err(_) => false,
        }
    }

    /// Evaluates the arguments of a call, from the first to the last. The
    /// first failure ends the evaluation and is handed out.
    pub fn eval_args<E: Eval>(&self, args: Vec<Expr>, env: &Environment, eval: &E) -> (r:
        EvalResult<Vec<Expr>>)
        ensures
            match r {
                Ok(results) => Function::evaluated(args@, env, eval, results@),
                Err(e) => Function::fails_on_argument(args@, env, eval, e),
            },
    {
        let mut results: Vec<Expr> = Vec::new();
        let mut i: usize = 0;
        while i < args.len()
            invariant
                i <= args@.len(),
                results@.len() == i,
                forall|j: int|
                    0 <= j < i ==> eval.gives(&args@[j], env, Ok(#[trigger] results@[j])),
            decreases args@.len() - i,
        {
            match eval.eval(&args[i], env) {
                Ok(value) => {
                    results.push(value);
                },
                Err(e) => {
                    assert(Function::fails_at(args@, env, eval, e, i as int, results@));
                    return Err(e);
                },
            }
            i += 1;
        }
        Ok(results)
    }

    /// Applies the function to arguments that have been evaluated. Their
    /// number is held against the bounds; then the implementation is
    /// called on them, and its failure is reported under the name of the
    /// function.
    pub fn call<F: FnOnce(Vec<Expr>) -> Result<Expr, String>>(&self, args: Vec<Expr>, f: F) -> (r:
        EvalResult<Expr>)
        requires
            f.requires((args,)),
        ensures
            self.called(args, f, r),
    {
        match self {
            Function::Primitive(n, a) => {
                match a.validate(n.as_str(), args.as_slice()) {
                    Ok(_) => {},
                    Err(e) => {
                        return Err(e);
                    },
                }
                match f(args) {
                    Ok(value) => Ok(value),
                    Err(message) => Err(EvalError::FunctionError(n.clone(), message)),
                }
            },
        }
    }

    /// Applies the function to a set of arguments in the given environment:
    /// the arguments are evaluated, their number is held against the
    /// bounds, and the implementation is called on them. The failure of an
    /// argument is that of the call.
    pub fn apply<E: Eval, F: FnOnce(Vec<Expr>) -> Result<Expr, String>>(
        &self,
        args: Vec<Expr>,
        env: &Environment,
        eval: &E,
        f: F,
    ) -> (r: EvalResult<Expr>)
        requires
            forall|evaluated: Vec<Expr>| f.requires((evaluated,)),
        ensures
            (r matches Err(e) && Function::fails_on_argument(args@, env, eval, e)) || exists|
                results: Vec<Expr>,
            |
                Function::evaluated(args@, env, eval, results@) && #[trigger] self.called(
                    results,
                    f,
                    r,
                ),
    {
        let results = match self.eval_args(args, env, eval) {
            Ok(results) => results,
            Err(e) => {
                return Err(e);
            },
        };
        let ghost handed = results;
        let r = self.call(results, f);
        proof {
            assert(self.called(handed, f, r));
        }
        r
    }

    /// The text that shows the function.
    pub fn to_string(&self) -> (r: String)
        ensures
            r@ == "#<Function "@ + self.name() + seq!['>'],
    {
        match self {
            Function::Primitive(n, _) => {
                let mut out = "#<Function ".to_owned();
                out.append(n.as_str());
                crate::text::push_char(&mut out, '>');
                proof {
                    assert(out@ =~= "#<Function "@ + self.name() + seq!['>']);
                }
                out
            },
        }
    }
}

} // verus!
