use vstd::prelude::*;

verus! {

/// Why the lexer or the parser stopped.
#[derive(Debug, Clone, Copy, PartialEq, Eq, Structural, Hash)]
pub enum Error {
    /// The input ended between two tokens.
    EndOfProgram,
    /// The input ended inside a construct that was not yet complete.
    UnexpectedEndOfProgram,
    /// A malformed token, or a token that the grammar does not allow here.
    UnexpectedToken,
}

} // verus!
