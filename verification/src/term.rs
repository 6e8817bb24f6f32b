use vstd::prelude::*;

verus! {

/// The mathematical model of a term: the shape of a [`Lambda`] with every
/// variable name read as a sequence of characters.
#[verifier::ext_equal]
pub enum LambdaV {
    /// An abstraction: the first component is the bound parameter (a
    /// `Variable` for every term the parser builds), the second its body.
    Func(Box<LambdaV>, Box<LambdaV>),
    /// A bound or free identifier.
    Variable(Seq<char>),
    /// An application of the first component to the second.
    Reducible(Box<LambdaV>, Box<LambdaV>),
    /// A hygiene-scope marker: its contents receive a fresh naming space in
    /// the hygiene pass, which then erases the marker.
    AlphaMark(Box<LambdaV>),
}

/// A term of the untyped lambda calculus, as built by the parser and
/// consumed by the hygiene and reduction engines.  Terms are immutable once
/// built: every transformation produces a new value.
#[derive(Debug)]
pub enum Lambda {
    /// An abstraction binding one parameter over a body.
    Func(Box<Lambda>, Box<Lambda>),
    /// A bound or free identifier.
    Variable(String),
    /// An application; a redex when its function side reduces to a `Func`.
    Reducible(Box<Lambda>, Box<Lambda>),
    /// A hygiene-scope marker, erased by the hygiene pass.
    AlphaMark(Box<Lambda>),
}

/// The model of a concrete term: the same shape with every `String` read as
/// its character sequence.
pub open spec fn term_view(l: Lambda) -> LambdaV
    decreases l,
{
    match l {
        Lambda::Func(a, b) => LambdaV::Func(Box::new(term_view(*a)), Box::new(term_view(*b))),
        Lambda::Variable(s) => LambdaV::Variable(s@),
        Lambda::Reducible(a, b) => LambdaV::Reducible(
            Box::new(term_view(*a)),
            Box::new(term_view(*b)),
        ),
        Lambda::AlphaMark(a) => LambdaV::AlphaMark(Box::new(term_view(*a))),
    }
}

impl View for Lambda {
    type V = LambdaV;

    open spec fn view(&self) -> LambdaV {
        term_view(*self)
    }
}

/// The number of nodes in a term; the hygiene pass's counters grow by at
/// most this much.
pub open spec fn term_size(t: LambdaV) -> nat
    decreases t,
{
    match t {
        LambdaV::Variable(_) => 1,
        LambdaV::Func(a, b) => 1 + term_size(*a) + term_size(*b),
        LambdaV::Reducible(a, b) => 1 + term_size(*a) + term_size(*b),
        LambdaV::AlphaMark(a) => 1 + term_size(*a),
    }
}

/// Whether a term holds no hygiene marks; the hygiene pass erases them
/// all, and reduction introduces none.
pub open spec fn no_marks(t: LambdaV) -> bool
    decreases t,
{
    match t {
        LambdaV::Variable(_) => true,
        LambdaV::Func(a, b) => no_marks(*a) && no_marks(*b),
        LambdaV::Reducible(a, b) => no_marks(*a) && no_marks(*b),
        LambdaV::AlphaMark(_) => false,
    }
}

/// Whether every abstraction binds a plain variable, as every term built
/// by the parser does.
pub open spec fn plain_params(t: LambdaV) -> bool
    decreases t,
{
    match t {
        LambdaV::Variable(_) => true,
        LambdaV::Func(a, b) => (*a is Variable) && plain_params(*b),
        LambdaV::Reducible(a, b) => plain_params(*a) && plain_params(*b),
        LambdaV::AlphaMark(a) => plain_params(*a),
    }
}

impl Clone for Lambda {
    fn clone(&self) -> (res: Self)
        ensures
            res@ == self@,
        decreases self,
    {
        match self {
            Lambda::Func(a, b) => Lambda::Func(Box::new((**a).clone()), Box::new((**b).clone())),
            Lambda::Variable(s) => Lambda::Variable(s.clone()),
            Lambda::Reducible(a, b) => Lambda::Reducible(
                Box::new((**a).clone()),
                Box::new((**b).clone()),
            ),
            Lambda::AlphaMark(a) => Lambda::AlphaMark(Box::new((**a).clone())),
        }
    }
}

impl Lambda {
    /// Structural equality of two terms, comparing variable names character
    /// by character.
    pub fn eq_term(&self, other: &Lambda) -> (r: bool)
        ensures
            r == (self@ == other@),
        decreases self,
    {
        match self {
            Lambda::Variable(a) => match other {
                Lambda::Variable(b) => *a == *b,
                _ => false,
            },
            Lambda::Func(a1, b1) => match other {
                Lambda::Func(a2, b2) => a1.eq_term(a2) && b1.eq_term(b2),
                _ => false,
            },
            Lambda::Reducible(a1, b1) => match other {
                Lambda::Reducible(a2, b2) => a1.eq_term(a2) && b1.eq_term(b2),
                _ => false,
            },
            Lambda::AlphaMark(a1) => match other {
                Lambda::AlphaMark(a2) => a1.eq_term(a2),
                _ => false,
            },
        }
    }

    /// The node count of this term, or `None` where it does not fit in a
    /// machine word.
    pub fn size_checked(&self) -> (r: Option<usize>)
        ensures
            match r {
                Some(n) => n as nat == term_size(self@),
                None => term_size(self@) > usize::MAX,
            },
        decreases self,
    {
        match self {
            Lambda::Variable(_) => Some(1),
            Lambda::Func(a, b) => Self::combine_sizes(a.size_checked(), b.size_checked()),
            Lambda::Reducible(a, b) => Self::combine_sizes(a.size_checked(), b.size_checked()),
            Lambda::AlphaMark(a) => match a.size_checked() {
                None => None,
                Some(n) => if n < usize::MAX {
                    Some(n + 1)
                } else {
                    None
                },
            },
        }
    }

    /// Adds two optional child sizes plus one for the parent node, keeping
    /// `None` for any count beyond a machine word.
    fn combine_sizes(a: Option<usize>, b: Option<usize>) -> (r: Option<usize>)
        ensures
            match r {
                Some(n) => match (a, b) {
                    (Some(x), Some(y)) => n as nat == 1 + x as nat + y as nat,
                    _ => false,
                },
                None => match (a, b) {
                    (Some(x), Some(y)) => 1 + x as nat + y as nat > usize::MAX,
                    _ => true,
                },
            },
    {
        match (a, b) {
            (Some(x), Some(y)) => if x <= usize::MAX - 1 && y <= usize::MAX - 1 - x {
                Some(1 + x + y)
            } else {
                None
            },
            _ => None,
        }
    }

    /// Builds an abstraction binding `a` over the body `b`.
    pub fn func(a: &str, b: Lambda) -> (r: Lambda)
        ensures
            r@ == LambdaV::Func(Box::new(LambdaV::Variable(a@)), Box::new(b@)),
    {
        Lambda::Func(Box::new(Lambda::var(a)), Box::new(b))
    }

    /// Builds a variable with the given name.
    pub fn var(inp: &str) -> (r: Lambda)
        ensures
            r@ == LambdaV::Variable(inp@),
    {
        Lambda::Variable(inp.to_owned())
    }

    /// Applies `self` to the argument `a`, forming a reducible application.
    pub fn attach(self, a: Lambda) -> (r: Lambda)
        ensures
            r@ == LambdaV::Reducible(Box::new(self@), Box::new(a@)),
    {
        Lambda::Reducible(Box::new(self), Box::new(a))
    }

    /// Marks `self` for fresh renaming in the next hygiene pass.
    pub fn alpha(self) -> (r: Lambda)
        ensures
            r@ == LambdaV::AlphaMark(Box::new(self@)),
    {
        Lambda::AlphaMark(Box::new(self))
    }
}

} // verus!
