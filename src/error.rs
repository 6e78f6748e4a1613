use vstd::prelude::*;

verus! {

/// Why a line could not be tokenized, evaluated or applied to the memory.
#[derive(Debug, PartialEq, Eq)]
pub enum CalcError {
    /// A word that is no number, memory command, known slot or operator.
    UnrecognizedToken(String),
    /// A slot that was read before it was ever written.
    SlotNotFound(String),
    /// An opening parenthesis without its closing one.
    MissingClosingParenthesis,
    /// A divisor that evaluated to zero.
    DivisionByZero,
    /// A memory command that is not the only word of its line.
    MalformedMemoryCommand,
    /// A token where the grammar allows none of its kind, or the end of the input where a term was due.
    UnexpectedToken,
}

} // verus!
