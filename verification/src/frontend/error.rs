//! Failures of analysis and lowering.

use vstd::prelude::*;

verus! {

/// Why a program was rejected. Analysis and lowering stop at the first
/// failure and hand it to the caller.
#[derive(Debug, Clone, Copy, PartialEq, Eq, Structural)]
pub enum SemanticError {
    /// A variable or a function is used but no scope declares it.
    UnresolvedIdentifier,
    /// An operand, an assigned value, a returned value or an argument has a
    /// type that cannot be used there, and no coercion applies.
    TypeMismatch,
    /// A call passes a number of arguments other than the number of
    /// parameters of the function called.
    ArityMismatch,
    /// The initializer of a constant, or of a global, has no value known at
    /// compile time.
    NonConstantInitializer,
    /// An operator is applied to operands it is not defined on.
    InvalidOperation,
    /// A coercion targets a type that has no values.
    MalformedCoercion,
}

} // verus!
