//! Construction of raised effects: the non-local returns of the evaluator.

use vstd::prelude::*;

use crate::expression::Environment;
use crate::expression::ExprV;
use crate::expression::Expression;
use crate::expression::RaisedEffect;

verus! {

broadcast use vstd::std_specs::vec::group_vec_axioms, vstd::seq::group_seq_axioms;

/// An effect with the given tag carrying one human-readable message.
pub fn raise(env: &Environment, tag: &str, message: &str) -> (r: RaisedEffect)
    ensures
        r@.effect == tag@,
        r@.environment == env@,
        r@.arguments =~= seq![ExprV::String(message@)],
{
    let mut arguments: Vec<Expression> = Vec::new();
    arguments.push(Expression::String(message.to_owned()));
    proof {
        crate::expression::lemma_view_exprs(arguments@);
    }
    RaisedEffect { environment: env.duplicate(), effect: tag.to_owned(), arguments }
}

/// A generic `"error"` effect carrying a message, as every adapter raises it.
pub fn error(env: &Environment, message: &str) -> (r: RaisedEffect)
    ensures
        r@.effect == "error"@,
        r@.environment == env@,
        r@.arguments =~= seq![ExprV::String(message@)],
{
    raise(env, "error", message)
}

} // verus!
