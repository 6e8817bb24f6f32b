use vstd::prelude::*;

use crate::error::LambdaError;
use crate::outside::{format_args_str, formatted_of, push_char};
use crate::parse::{parse_source, seq_views};
use crate::term::{Lambda, LambdaV};
use vstd::string::StringExecFns;

verus! {

/// The canonical bracketed notation of a term: a bare name for a variable,
/// `(%x|y.body)` for a chain of abstractions, `(f a)` for an application,
/// and `&inner` for an unerased hygiene marker.
pub open spec fn render_v(t: LambdaV) -> Seq<char>
    decreases t, 1int,
{
    match t {
        LambdaV::Variable(n) => n,
        LambdaV::AlphaMark(a) => seq!['&'] + render_v(*a),
        LambdaV::Reducible(a, b) => seq!['('] + render_v(*a) + seq![' '] + render_v(*b) + seq![
            ')',
        ],
        LambdaV::Func(_, _) => seq!['(', '%'] + func_params_v(t) + seq!['.'] + func_body_v(t)
            + seq![')'],
    }
}

/// The `|`-separated parameter list of a chain of abstractions.
pub open spec fn func_params_v(t: LambdaV) -> Seq<char>
    decreases t, 0int,
{
    match t {
        LambdaV::Func(a, b) => render_v(*a) + if *b is Func {
            seq!['|'] + func_params_v(*b)
        } else {
            Seq::empty()
        },
        _ => Seq::empty(),
    }
}

/// The body under the innermost abstraction of a chain.
pub open spec fn func_body_v(t: LambdaV) -> Seq<char>
    decreases t, 0int,
{
    match t {
        LambdaV::Func(_, b) => if *b is Func {
            func_body_v(*b)
        } else {
            render_v(*b)
        },
        _ => Seq::empty(),
    }
}

impl Lambda {
    /// Renders `self` in the canonical bracketed notation, which the parser
    /// reads back.
    pub fn display(&self) -> (r: String)
        ensures
            r@ == render_v(self@),
        decreases self, 1int,
    {
        match self {
            Lambda::Variable(n) => n.clone(),
            Lambda::AlphaMark(a) => {
                proof {
                    assert(self@ == LambdaV::AlphaMark(Box::new((**a)@)));
                }
                let mut out = String::new();
                push_char(&mut out, '&');
                let inner = a.display();
                let ghost parts = (out@, inner@);
                let out2 = out.concat(inner.as_str());
                proof {
                    assert(out2@ =~= seq!['&'] + parts.1);
                }
                out2
            },
            Lambda::Reducible(a, b) => {
                proof {
                    assert(self@ == LambdaV::Reducible(Box::new((**a)@), Box::new((**b)@)));
                }
                let mut out = String::new();
                push_char(&mut out, '(');
                let sa = a.display();
                let mut out = out.concat(sa.as_str());
                push_char(&mut out, ' ');
                let sb = b.display();
                let mut out = out.concat(sb.as_str());
                push_char(&mut out, ')');
                proof {
                    assert(out@ =~= seq!['('] + render_v((**a)@) + seq![' '] + render_v((**b)@)
                        + seq![')']);
                }
                out
            },
            Lambda::Func(a, b) => {
                proof {
                    assert(self@ == LambdaV::Func(Box::new((**a)@), Box::new((**b)@)));
                }
                let mut out = String::new();
                push_char(&mut out, '(');
                push_char(&mut out, '%');
                let ps = self.func_params();
                let mut out = out.concat(ps.as_str());
                push_char(&mut out, '.');
                let bd = self.func_body();
                let mut out = out.concat(bd.as_str());
                push_char(&mut out, ')');
                proof {
                    assert(out@ =~= seq!['(', '%'] + func_params_v(self@) + seq!['.'] + func_body_v(
                        self@,
                    ) + seq![')']);
                }
                out
            },
        }
    }

    fn func_params(&self) -> (r: String)
        ensures
            r@ == func_params_v(self@),
        decreases self, 0int,
    {
        match self {
            Lambda::Func(a, b) => {
                proof {
                    assert(self@ == LambdaV::Func(Box::new((**a)@), Box::new((**b)@)));
                }
                let sa = a.display();
                let more = match &**b {
                    Lambda::Func(_, _) => true,
                    _ => false,
                };
                if more {
                    let mut out = sa;
                    push_char(&mut out, '|');
                    let rest = b.func_params();
                    let ghost parts = (out@, rest@);
                    let out2 = out.concat(rest.as_str());
                    proof {
                        assert(out2@ =~= render_v((**a)@) + (seq!['|'] + func_params_v((**b)@)));
                    }
                    out2
                } else {
                    proof {
                        assert(render_v((**a)@) + Seq::<char>::empty() =~= render_v((**a)@));
                    }
                    sa
                }
            },
            _ => {
                proof {
                    assert(!(self@ is Func));
                }
                String::new()
            },
        }
    }

    fn func_body(&self) -> (r: String)
        ensures
            r@ == func_body_v(self@),
        decreases self, 0int,
    {
        match self {
            Lambda::Func(a, b) => {
                proof {
                    assert(self@ == LambdaV::Func(Box::new((**a)@), Box::new((**b)@)));
                }
                let more = match &**b {
                    Lambda::Func(_, _) => true,
                    _ => false,
                };
                if more {
                    b.func_body()
                } else {
                    b.display()
                }
            },
            _ => {
                proof {
                    assert(!(self@ is Func));
                }
                String::new()
            },
        }
    }

    /// Parses a format string after interpolating the rendered arguments at
    /// its `{}` slots, so that a spliced abstraction arrives inside its own
    /// brackets and `&{}` places a hygiene scope around it.
    pub fn newf(s: &str, f: Vec<Lambda>) -> (r: Result<Lambda, LambdaError>)
        ensures
            ({
                let sp = parse_source(
                    formatted_of(s@, seq_views(f@).map_values(|t: LambdaV| render_v(t))),
                    Seq::empty(),
                );
                match r {
                    Ok(t) => sp == Ok::<LambdaV, LambdaError>(t@),
                    Err(e) => sp == Err::<LambdaV, LambdaError>(e),
                }
            }),
    {
        let ghost target = seq_views(f@).map_values(|t: LambdaV| render_v(t));
        let mut rendered: Vec<String> = Vec::new();
        let mut idx: usize = 0;
        while idx < f.len()
            invariant
                idx <= f@.len(),
                target == seq_views(f@).map_values(|t: LambdaV| render_v(t)),
                rendered@.len() == idx,
                forall|j: int| 0 <= j < idx ==> rendered@[j]@ == target[j],
            decreases f@.len() - idx,
        {
            proof {
                assert(seq_views(f@)[idx as int] == f@[idx as int]@);
            }
            rendered.push(f[idx].display());
            idx = idx + 1;
        }
        proof {
            assert(rendered.deep_view() =~= target);
        }
        let formatted = format_args_str(s, &rendered);
        let args2: Vec<Lambda> = Vec::new();
        proof {
            assert(seq_views(args2@) =~= Seq::<LambdaV>::empty());
        }
        Self::new(formatted.as_str(), args2)
    }
}

} // verus!
