//! A calculator core with named memory slots: words are classified into
//! tokens, token sequences are grouped by a three-level grammar, and slots
//! accumulate values. Beside it, a five-card poker hand classifier.

pub mod card;
pub mod command;
pub mod error;
pub mod evaluation;
pub mod expression;
pub mod memory;
pub mod token;
