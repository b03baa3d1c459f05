//! Why inference can give up.

use vstd::prelude::*;

verus! {

/// A condition under which inference cannot go on. Each of them means that the
/// input breaks an assumption of inference; none is a type error of the program
/// that is being inferred.
#[derive(Copy, Clone, PartialEq, Eq, Debug, Structural)]
pub enum InferError {
    /// Unification went deeper than the recursion limit: infinite recursion.
    UnificationDepth,
    /// Two type variables were to be equated, both of which have known types.
    BothKnown,
    /// A type holds a variable that was never created.
    NoSuchVariable,
    /// There is no number left for a new type variable.
    TooManyVariables,
    /// A type that takes a single parameter has another number of them.
    NotSingleParameter,
    /// A trait solution speaks of more variables than the goal had.
    NoSuchGoalVariable,
    /// A closure has not as many parameter types as parameters.
    ClosureArity,
    /// The index at which a path is left unresolved does not fit the path.
    PathIndex,
    /// The number of generic parameters does not fit in a machine word.
    TooManyParameters,
    /// A diagnostic speaks of a field that is not written anywhere.
    NoSuchSyntax,
}

} // verus!
