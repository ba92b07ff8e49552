use vstd::prelude::*;

verus! {

/// The errors this library raises.
#[derive(Debug, PartialEq, Eq)]
pub enum Error {
    /// An unrecognized unit token, or a digit run too large to denote a byte
    /// amount; carries the offending text.
    UnitParseError(String),
    /// The downstream arithmetic evaluator rejected the normalized
    /// expression; carries the evaluator's own detail.
    CalculationError(String),
    /// An amount times its unit's scale factor exceeds the representable
    /// byte-count range.
    OverflowError,
}

} // verus!
