//! Syntax tree nodes built from tokens.

use vstd::prelude::*;
use crate::token::Token;

verus! {

/// A binary expression: two operands with an operator between them.
#[derive(Debug)]
pub struct BinaryExpression {
    pub left: Box<Token>,
    pub operator: Token,
    pub right: Box<Token>,
}

impl BinaryExpression {
    /// The expression `left operator right`.
    pub fn new(left: Token, operator: Token, right: Token) -> (expression: Self)
        ensures
            *expression.left == left,
            expression.operator == operator,
            *expression.right == right,
    {
        BinaryExpression { left: Box::new(left), operator, right: Box::new(right) }
    }
}

} // verus!
