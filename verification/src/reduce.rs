use vstd::prelude::*;

use crate::error::LambdaError;
use crate::hygiene::alpha_opt;
use crate::term::{term_size, Lambda, LambdaV};

verus! {

/// Whether one normal-order reduction step applies: the term is an
/// application whose function side is an abstraction, or is itself an
/// application that can step.
pub open spec fn can_step(t: LambdaV) -> bool
    decreases t,
{
    match t {
        LambdaV::Reducible(a, b) => match *a {
            LambdaV::Func(_, _) => true,
            LambdaV::Reducible(_, _) => can_step(*a),
            _ => false,
        },
        _ => false,
    }
}

/// Substitution of `sub` for `a` throughout `b`: abstraction bodies and
/// both sides of applications are rewritten, parameter positions and
/// hygiene-marked subterms are left untouched.
pub open spec fn subst_v(b: LambdaV, a: LambdaV, sub: LambdaV) -> LambdaV
    decreases b,
{
    match b {
        LambdaV::Func(c, d) => if a == *d {
            LambdaV::Func(c, Box::new(sub))
        } else {
            LambdaV::Func(c, Box::new(subst_v(*d, a, sub)))
        },
        LambdaV::Reducible(c, d) => LambdaV::Reducible(
            Box::new(subst_v(*c, a, sub)),
            Box::new(subst_v(*d, a, sub)),
        ),
        LambdaV::Variable(_) => if a == b {
            sub
        } else {
            b
        },
        LambdaV::AlphaMark(_) => b,
    }
}

/// One normal-order (leftmost-outermost) reduction step: a direct redex
/// substitutes the argument into the abstraction body; otherwise the
/// function side steps and the argument is re-attached unchanged.
pub open spec fn step_v(t: LambdaV) -> LambdaV
    decreases t,
{
    match t {
        LambdaV::Reducible(a, b) => match *a {
            LambdaV::Func(c, d) => subst_v(*d, *c, *b),
            LambdaV::Reducible(_, _) => LambdaV::Reducible(Box::new(step_v(*a)), b),
            _ => t,
        },
        _ => t,
    }
}

/// Repeated stepping: the normal form reached from `t` within `fuel`
/// steps, or `None` where `fuel` runs out first.
pub open spec fn run_v(t: LambdaV, fuel: nat) -> Option<LambdaV>
    decreases fuel,
{
    if !can_step(t) {
        Some(t)
    } else if fuel == 0 {
        None
    } else {
        run_v(step_v(t), (fuel - 1) as nat)
    }
}

/// The whole evaluation pipeline on models: hygiene, reduction to normal
/// form within `fuel` steps, hygiene again.
pub open spec fn evaluate_v(t: LambdaV, fuel: nat) -> Result<LambdaV, LambdaError> {
    if term_size(t) > usize::MAX {
        Err(LambdaError::TermTooLarge)
    } else {
        match alpha_opt(t) {
            None => Err(LambdaError::MapLookupFailure),
            Some(h1) => match run_v(h1, fuel) {
                None => Err(LambdaError::StepLimitReached),
                Some(v) => if term_size(v) > usize::MAX {
                    Err(LambdaError::TermTooLarge)
                } else {
                    match alpha_opt(v) {
                        None => Err(LambdaError::MapLookupFailure),
                        Some(h2) => Ok(h2),
                    }
                },
            },
        }
    }
}

impl Lambda {
    /// Whether one reduction step applies to `self`.
    pub fn is_redex(&self) -> (r: bool)
        ensures
            r == can_step(self@),
        decreases self,
    {
        match self {
            Lambda::Reducible(a, b) => {
                proof {
                    assert(self@ == LambdaV::Reducible(Box::new((**a)@), Box::new((**b)@)));
                }
                match &**a {
                    Lambda::Func(_, _) => true,
                    Lambda::Reducible(_, _) => a.is_redex(),
                    _ => false,
                }
            },
            _ => false,
        }
    }

    /// Substitutes `sub` for every occurrence of the variable `a` in `b`.
    fn recursive_reduce(b: Lambda, a: Lambda, sub: Lambda) -> (r: Lambda)
        ensures
            r@ == subst_v(b@, a@, sub@),
        decreases b,
    {
        match b {
            Lambda::Func(c, d) => {
                if a.eq_term(&d) {
                    Lambda::Func(c, Box::new(sub))
                } else {
                    Lambda::Func(c, Box::new(Self::recursive_reduce(*d, a, sub)))
                }
            },
            Lambda::Reducible(c, d) => {
                let left = Self::recursive_reduce(*c, a.clone(), sub.clone());
                let right = Self::recursive_reduce(*d, a, sub);
                Lambda::Reducible(Box::new(left), Box::new(right))
            },
            Lambda::Variable(_) => {
                if a.eq_term(&b) {
                    sub
                } else {
                    b
                }
            },
            Lambda::AlphaMark(_) => b,
        }
    }

    /// Performs one beta-reduction step on `self`, or reports `NoRedex`
    /// where no step applies.
    pub fn reduce(self) -> (r: Result<Lambda, LambdaError>)
        ensures
            if can_step(self@) {
                match r {
                    Ok(out) => out@ == step_v(self@),
                    Err(_) => false,
                }
            } else {
                r == Err::<Lambda, LambdaError>(LambdaError::NoRedex)
            },
        decreases self,
    {
        match self {
            Lambda::Reducible(a, b) => {
                let ghost av = (*a)@;
                proof {
                    assert(self@ == LambdaV::Reducible(Box::new(av), Box::new((*b)@)));
                }
                match *a {
                    Lambda::Func(c, d) => {
                        proof {
                            assert(av == LambdaV::Func(Box::new((*c)@), Box::new((*d)@)));
                        }
                        Ok(Self::recursive_reduce(*d, *c, *b))
                    },
                    Lambda::Reducible(c2, d2) => {
                        let inner = Lambda::Reducible(c2, d2);
                        proof {
                            assert(av == inner@);
                        }
                        match inner.reduce() {
                            Ok(f) => Ok(Lambda::Reducible(Box::new(f), b)),
                            Err(e) => Err(e),
                        }
                    },
                    _ => Err(LambdaError::NoRedex),
                }
            },
            _ => Err(LambdaError::NoRedex),
        }
    }

    /// Steps `self` until no redex remains, or until `fuel` steps have been
    /// taken.
    fn recursive_evaluate(self, fuel: usize) -> (r: Result<Lambda, LambdaError>)
        ensures
            match run_v(self@, fuel as nat) {
                Some(v) => match r {
                    Ok(out) => out@ == v,
                    Err(_) => false,
                },
                None => r == Err::<Lambda, LambdaError>(LambdaError::StepLimitReached),
            },
        decreases fuel,
    {
        if !self.is_redex() {
            Ok(self)
        } else if fuel == 0 {
            Err(LambdaError::StepLimitReached)
        } else {
            match self.reduce() {
                Ok(next) => next.recursive_evaluate(fuel - 1),
                Err(e) => Err(e),
            }
        }
    }

    /// Evaluates `self`: alpha-renames it, reduces to normal form in normal
    /// order taking at most `max_steps` reduction steps, and alpha-renames
    /// the result, which substitution may have left with stale names.
    pub fn evaluate(self, max_steps: usize) -> (r: Result<Lambda, LambdaError>)
        ensures
            ({
                let s = evaluate_v(self@, max_steps as nat);
                match r {
                    Ok(out) => s == Ok::<LambdaV, LambdaError>(out@),
                    Err(e) => s == Err::<LambdaV, LambdaError>(e),
                }
            }),
    {
        match self.alpha_reduce() {
            Err(e) => Err(e),
            Ok(h1) => match h1.recursive_evaluate(max_steps) {
                Err(e) => Err(e),
                Ok(v) => match v.alpha_reduce() {
                    Err(e) => Err(e),
                    Ok(h2) => Ok(h2),
                },
            },
        }
    }
}

} // verus!
