//! The consumer of a token sequence.

use vstd::prelude::*;
use crate::token::Token;

verus! {

/// A forward-only reader of a token sequence.
#[derive(Debug)]
pub struct Parser {
    pub tokens: Vec<Token>,
    pub pos: isize,
}

impl Parser {
    /// A parser in front of the first of `tokens`.
    pub fn new(tokens: Vec<Token>) -> (parser: Self)
        ensures
            parser.tokens == tokens,
            parser.pos == 0,
    {
        Parser { tokens, pos: 0 }
    }
}

} // verus!
