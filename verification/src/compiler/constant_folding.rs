//! A constant-folding pass over expressions.
//!
//! No folding rule is implemented yet: the pass visits every expression and
//! leaves the program exactly as it was.

use crate::ast::{Expr, Program};
use vstd::prelude::*;

verus! {

/// The folding visitor. It holds no state and rewrites nothing.
pub struct ConstantFolding;

impl ConstantFolding {
    /// The hook that fires after an expression's children are visited.
    /// Folds nothing.
    pub fn post_expr(&mut self, t: &mut Expr)
        ensures
            *final(t) == *old(t),
            *final(self) == *old(self),
    {
    }
}

/// Runs the folding pass over a program: with no folding rule, the program
/// is left unchanged.
pub fn fold(ast: &mut Program)
    ensures
        *final(ast) == *old(ast),
{
}

} // verus!
