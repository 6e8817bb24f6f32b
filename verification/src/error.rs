use vstd::prelude::*;

verus! {

/// Every failure a parse or an evaluation can report.  All errors are fatal
/// for the call that raised them: no partial term is ever returned.
#[derive(Clone, Copy, Debug, PartialEq, Eq, Structural)]
pub enum LambdaError {
    /// A closing bracket appeared at nesting depth zero, or an opening
    /// bracket was never closed.
    UnclosedBracket,
    /// A symbol outside the naming alphabet appeared where a variable or a
    /// structural sigil was expected.
    InvalidSymbol,
    /// A shorthand abstraction header was missing a parameter name or its
    /// terminating `.`.
    MalformedHeader,
    /// A splice slot had no corresponding supplied term, or supplied terms
    /// were left unconsumed after parsing.
    MissingSpliceArgument,
    /// Reduction was requested on a term with no redex.
    NoRedex,
    /// The hygiene pass met a variable with no assigned index.
    MapLookupFailure,
    /// Evaluation did not reach a normal form within the caller's step limit.
    StepLimitReached,
    /// A term was too large for the hygiene pass's machine-word counters.
    TermTooLarge,
}

} // verus!
