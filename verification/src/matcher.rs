//! Pattern matching: destructures an argument sequence against a parameter
//! pattern, yielding the bindings or failure.  A symbol binds, a literal
//! must equal the argument, an array destructures elementwise, a mapping
//! requires each written key and destructures its value; extra keys pass.

use vstd::prelude::*;

use crate::environment::env_insert_v;
use crate::expression::Environment;
use crate::expression::EnvV;
use crate::expression::ExprV;
use crate::expression::Expression;
use crate::expression::lemma_view_expr_pairs;
use crate::expression::lemma_view_exprs;
use crate::expression::view_exprs;
use crate::valmap::map_lookup;
use crate::valmap::map_lookup_v;

verus! {

broadcast use vstd::std_specs::vec::group_vec_axioms, vstd::seq::group_seq_axioms;

/// The bindings one pattern element adds when it matches one argument.
pub open spec fn match_one_v(env: EnvV, p: ExprV, a: ExprV) -> Option<EnvV>
    decreases p, 0nat,
{
    match p {
        ExprV::Symbol(name) => Some(env_insert_v(env, name, a)),
        ExprV::Array(subs) => match a {
            ExprV::Array(items) => match_list_v(env, subs, items, 0),
            _ => None,
        },
        ExprV::Mapping(pentries) => match a {
            ExprV::Mapping(mentries) => match_map_v(env, pentries, mentries, 0),
            _ => None,
        },
        ExprV::Nil => if a == p {
            Some(env)
        } else {
            None
        },
        ExprV::Bool(_) => if a == p {
            Some(env)
        } else {
            None
        },
        ExprV::Integer(_) => if a == p {
            Some(env)
        } else {
            None
        },
        ExprV::Float(_) => if a == p {
            Some(env)
        } else {
            None
        },
        ExprV::Ratio(_, _) => if a == p {
            Some(env)
        } else {
            None
        },
        ExprV::String(_) => if a == p {
            Some(env)
        } else {
            None
        },
        ExprV::Keyword(_) => if a == p {
            Some(env)
        } else {
            None
        },
        _ => None,
    }
}

/// Matches pattern elements against arguments positionally, from `i` on;
/// the clause matches only when the counts agree.
pub open spec fn match_list_v(env: EnvV, ps: Seq<ExprV>, args: Seq<ExprV>, i: int) -> Option<
    EnvV,
>
    decreases ps, ps.len() - i, 1nat,
{
    if ps.len() != args.len() {
        None
    } else if i < 0 || i > ps.len() {
        None
    } else if i == ps.len() {
        Some(env)
    } else {
        match match_one_v(env, ps[i], args[i]) {
            Some(env2) => match_list_v(env2, ps, args, i + 1),
            None => None,
        }
    }
}

/// Requires each written key of the pattern mapping to be present and its
/// value to match, from entry `i` on; extra keys in the argument pass.
pub open spec fn match_map_v(
    env: EnvV,
    pentries: Seq<(ExprV, ExprV)>,
    mentries: Seq<(ExprV, ExprV)>,
    i: int,
) -> Option<EnvV>
    decreases pentries, pentries.len() - i, 1nat,
{
    if i < 0 || i > pentries.len() {
        None
    } else if i == pentries.len() {
        Some(env)
    } else {
        match map_lookup_v(mentries, pentries[i].0) {
            Some(v) => match match_one_v(env, pentries[i].1, v) {
                Some(env2) => match_map_v(env2, pentries, mentries, i + 1),
                None => None,
            },
            None => None,
        }
    }
}

/// Matches one pattern element, in executable form.
fn match_one(env: Environment, p: &Expression, a: &Expression) -> (r: Option<Environment>)
    ensures
        match r {
            Some(env2) => match_one_v(env@, p@, a@) == Some(env2@),
            None => match_one_v(env@, p@, a@) is None,
        },
    decreases *p, 0nat,
{
    match p {
        Expression::Symbol(name) => Some(env.insert(name.as_str(), a)),
        Expression::Array(subs) => match a {
            Expression::Array(items) => match_list(env, subs, items, 0),
            _ => None,
        },
        Expression::Mapping(pentries) => match a {
            Expression::Mapping(mentries) => match_map(env, pentries, mentries, 0),
            _ => None,
        },
        Expression::Nil => literal_match(env, p, a),
        Expression::Bool(_) => literal_match(env, p, a),
        Expression::Integer(_) => literal_match(env, p, a),
        Expression::Float(_) => literal_match(env, p, a),
        Expression::Ratio(_, _) => literal_match(env, p, a),
        Expression::String(_) => literal_match(env, p, a),
        Expression::Keyword(_) => literal_match(env, p, a),
        _ => None,
    }
}

/// A literal pattern matches exactly the equal argument.
fn literal_match(env: Environment, p: &Expression, a: &Expression) -> (r: Option<Environment>)
    ensures
        a@ == p@ ==> (r matches Some(env2) && env2@ == env@),
        a@ != p@ ==> r is None,
{
    if crate::order::expr_eq(a, p) {
        Some(env)
    } else {
        None
    }
}

/// Matches the elements from position `i` on, in executable form.
fn match_list(
    env: Environment,
    ps: &Vec<Expression>,
    args: &Vec<Expression>,
    i: usize,
) -> (r: Option<Environment>)
    requires
        i <= ps@.len(),
    ensures
        match r {
            Some(env2) => match_list_v(env@, view_exprs(ps@), view_exprs(args@), i as int)
                == Some(env2@),
            None => match_list_v(env@, view_exprs(ps@), view_exprs(args@), i as int) is None,
        },
    decreases *ps, ps@.len() - i, 1nat,
{
    proof {
        lemma_view_exprs(ps@);
        lemma_view_exprs(args@);
    }
    if ps.len() != args.len() {
        return None;
    }
    if i == ps.len() {
        return Some(env);
    }
    match match_one(env, &ps[i], &args[i]) {
        Some(env2) => match_list(env2, ps, args, i + 1),
        None => None,
    }
}

/// Matches the written keys from entry `i` on, in executable form.
fn match_map(
    env: Environment,
    pentries: &Vec<(Expression, Expression)>,
    mentries: &Vec<(Expression, Expression)>,
    i: usize,
) -> (r: Option<Environment>)
    requires
        i <= pentries@.len(),
    ensures
        match r {
            Some(env2) => match_map_v(
                env@,
                crate::expression::view_expr_pairs(pentries@),
                crate::expression::view_expr_pairs(mentries@),
                i as int,
            ) == Some(env2@),
            None => match_map_v(
                env@,
                crate::expression::view_expr_pairs(pentries@),
                crate::expression::view_expr_pairs(mentries@),
                i as int,
            ) is None,
        },
    decreases *pentries, pentries@.len() - i, 1nat,
{
    proof {
        lemma_view_expr_pairs(pentries@);
        lemma_view_expr_pairs(mentries@);
    }
    if i == pentries.len() {
        return Some(env);
    }
    match map_lookup(mentries, &pentries[i].0) {
        Some(v) => match match_one(env, &pentries[i].1, &v) {
            Some(env2) => match_map(env2, pentries, mentries, i + 1),
            None => None,
        },
        None => None,
    }
}

/// Destructures the argument sequence against the parameter pattern of one
/// clause, yielding the extended environment or failure.
pub fn pattern_match(
    env: &Environment,
    params: &Vec<Expression>,
    args: &Vec<Expression>,
) -> (r: Option<Environment>)
    ensures
        match r {
            Some(env2) => match_list_v(env@, view_exprs(params@), view_exprs(args@), 0)
                == Some(env2@),
            None => match_list_v(env@, view_exprs(params@), view_exprs(args@), 0) is None,
        },
{
    match_list(env.duplicate(), params, args, 0)
}

} // verus!
