use vstd::prelude::*;

use crate::error::CalcError;
use crate::token::Token;

verus! {

/// What a tokenized line asks for.
#[derive(Debug, PartialEq)]
pub enum LineCommand {
    /// Add the previous result to the named slot.
    Increment(String),
    /// Subtract the previous result from the named slot.
    Decrement(String),
    /// Evaluate the tokens as an expression.
    Evaluate,
}

pub open spec fn is_memory_token(t: Token) -> bool {
    t is MemoryPlus || t is MemoryMinus
}

/// A line of one memory command updates memory; a memory command among
/// other tokens is malformed; any other line is an expression.
pub fn plan_line(tokens: &[Token]) -> (r: Result<LineCommand, CalcError>)
    ensures
        tokens@.len() == 1 && tokens@[0] is MemoryPlus ==> (r matches Ok(LineCommand::Increment(n))
            && n == tokens@[0]->MemoryPlus_0),
        tokens@.len() == 1 && tokens@[0] is MemoryMinus ==> (r matches Ok(LineCommand::Decrement(n))
            && n == tokens@[0]->MemoryMinus_0),
        tokens@.len() != 1 && (exists|i: int| 0 <= i < tokens@.len() && is_memory_token(#[trigger] tokens@[i]))
            ==> r == Err::<LineCommand, CalcError>(CalcError::MalformedMemoryCommand),
        (forall|i: int| 0 <= i < tokens@.len() ==> !is_memory_token(#[trigger] tokens@[i])) ==> r
            == Ok::<LineCommand, CalcError>(LineCommand::Evaluate),
{
    if tokens.len() == 1 {
        match &tokens[0] {
            Token::MemoryPlus(name) => {
                return Ok(LineCommand::Increment(name.clone()));
            },
            Token::MemoryMinus(name) => {
                return Ok(LineCommand::Decrement(name.clone()));
            },
            _ => {},
        }
    }
    let mut i: usize = 0;
    while i < tokens.len()
        invariant
            i <= tokens@.len(),
            tokens@.len() == 1 ==> !is_memory_token(tokens@[0]),
            forall|k: int| 0 <= k < i ==> !is_memory_token(#[trigger] tokens@[k]),
        decreases tokens.len() - i,
    {
        match &tokens[i] {
            Token::MemoryPlus(_) | Token::MemoryMinus(_) => {
                return Err(CalcError::MalformedMemoryCommand);
            },
            _ => {},
        }
        i = i + 1;
    }
    Ok(LineCommand::Evaluate)
}

} // verus!
