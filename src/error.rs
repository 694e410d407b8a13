//! The typed failures of parsing, lookup and evaluation.
use vstd::prelude::*;

verus! {

/// Why a formula text could not be parsed.
#[derive(Clone, Copy, Debug, PartialEq, Eq, Structural)]
pub enum ParseError {
    /// The formula is empty.
    EmptyInput,
    /// An operator has nothing on one of its sides, or a group is empty.
    EmptyOperand,
    /// The brackets of the formula do not match.
    UnbalancedBrackets,
    /// A leaf is neither a number nor a single letter.
    MultiCharacterIdentifier,
    /// A named function is not one of the known ones.
    UnknownFunction,
}

/// Why an evaluation or a differentiation could not finish.
#[derive(Clone, Copy, Debug, PartialEq, Eq, Structural)]
pub enum EvalError {
    /// The name is in the bank but has no definition.
    UndefinedIdentifier(char),
    /// The name is not in the bank at all.
    UnboundName(char),
    /// A bank entry that has no definition was evaluated.
    UndefinedEntry,
    /// A trig node carries an unknown tag.
    UnrecognizedTrigTag,
    /// A log node carries a base that is neither a name nor a constant.
    UnrecognizedLogBase,
    /// A node has a shape that its operation does not admit.
    MalformedNodeShape,
    /// A division by zero.
    DivisionByZero,
    /// An exact result does not fit the rational representation.
    Overflow,
    /// A transcendental function gave no finite value.
    NotFinite,
    /// The chain of lookups and derivatives went deeper than the limit.
    DepthExceeded,
}

} // verus!
