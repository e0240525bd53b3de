//! Constant folding: which subtrees depend on nothing but constants and pure
//! operations, and so can be replaced by their value before evaluation.
use vstd::prelude::*;
use crate::expr::{Expr, ExprType, Tree};

verus! {

/// A tree that folds into a constant: a constant, or a pure function or
/// closure all of whose arguments fold. A variable never folds.
pub open spec fn folds(t: Tree) -> bool
    decreases t,
{
    match t.e_type {
        ExprType::Constant => true,
        ExprType::Variable => false,
        _ => t.pure && forall|i: int| 0 <= i < t.parameters.len() ==> folds(#[trigger] t.parameters[i]),
    }
}

/// Whether `n` folds into a constant.
pub fn is_foldable(n: &Expr) -> (r: bool)
    ensures
        r == folds(n@),
    decreases n,
{
    match n.e_type {
        ExprType::Constant => true,
        ExprType::Variable => false,
        _ => {
            if !n.pure {
                return false;
            }
            let mut i: usize = 0;
            while i < n.parameters.len()
                invariant
                    i <= n.parameters@.len(),
                    n@.pure,
                    !(n@.e_type is Constant) && !(n@.e_type is Variable),
                    n@.parameters.len() == n.parameters@.len(),
                    forall|j: int| 0 <= j < i ==> folds(#[trigger] n@.parameters[j]),
                decreases n.parameters@.len() - i,
            {
                assert(n@.parameters[i as int] == n.parameters@[i as int]@);
                if !is_foldable(&n.parameters[i]) {
                    assert(!folds(n@.parameters[i as int]));
                    return false;
                }
                i = i + 1;
            }
            true
        },
    }
}

} // verus!
