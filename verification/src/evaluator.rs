//! The evaluator: recursive evaluation with special-form dispatch, lexical
//! closures, pattern-matched call dispatch, quotation, dereference and
//! effect propagation, over an explicit store of atoms, channels and tasks.
//!
//! Recursion is bounded by a fuel budget, so every evaluation terminates;
//! an exhausted budget surfaces as an `"error"` effect.  Scheduling is
//! deterministic and cooperative: spawned tasks run when the current task
//! reaches a channel operation that cannot complete at once, and a task
//! suspends at a channel operation that is its final step; a blocked
//! operation with no task left to run observes a `"cancelled"` effect.
//!
//! A native call consumes the next result of the store's supplied queue;
//! with none left it raises a `"native"` effect carrying the handle and the
//! evaluated arguments.  The host performs the call, supplies the result,
//! and replays the evaluation against a copy of the store it started from,
//! so a native result re-enters the evaluation at the very call that asked
//! for it.

use vstd::prelude::*;

use crate::effect::error;
use crate::effect::raise;
use crate::environment::env_insert_v;
use crate::environment::env_lookup_v;
use crate::expression::Environment;
use crate::expression::EnvV;
use crate::expression::ExprV;
use crate::expression::PatternV;
use crate::expression::Expression;
use crate::expression::Intrinsic;
use crate::expression::Pattern;
use crate::expression::RaisedEffect;
use crate::expression::lemma_view_exprs;
use crate::expression::view_expr_pairs;
use crate::expression::view_exprs;
use crate::expression::view_patterns;
use crate::matcher::pattern_match;
use crate::numerics::add_q;
use crate::numerics::arith_num;
use crate::numerics::as_num_expr;
use crate::numerics::dec_add_q;
use crate::numerics::dec_div_q;
use crate::numerics::dec_mul_q;
use crate::numerics::dec_num_of;
use crate::numerics::dec_sub_q;
use crate::numerics::div_q;
use crate::numerics::fits_num;
use crate::numerics::float_repr;
use crate::numerics::mul_q;
use crate::numerics::sub_q;
use crate::order::Cmp;
use crate::order::cmp_expr;
use crate::order::compare;
use crate::order::expr_eq;
use crate::parser::parse_at;
use crate::store::PutOutcome;
use crate::store::Store;
use crate::store::TakeOutcome;
use crate::tokenizer::tokenize_spec;
use crate::valmap::map_insert;
use crate::valmap::map_merge;
use crate::valmap::map_remove;

verus! {

broadcast use vstd::std_specs::vec::group_vec_axioms, vstd::seq::group_seq_axioms;

/// The default evaluation budget of the top-level entry points.
pub const DEFAULT_FUEL: u64 = 1_000_000;

/// The task identity of the top-level evaluation.
pub const MAIN_TASK: u64 = 0;

/// What the pure fragment of the language fixes about one evaluation: the
/// environment and value of a successful return, the tag of a raised
/// effect, or `Open` where the result passes through the store or the host
/// (atoms, channels, tasks, native functions, namespace resolution) and is
/// constrained by the store operations' own contracts instead.
#[verifier::ext_equal]
pub enum EvalOut {
    Value(EnvV, ExprV),
    Raise(Seq<char>),
    Open,
}

/// The outcome of evaluating an argument list left to right.
#[verifier::ext_equal]
pub enum ArgsOut {
    Values(EnvV, Seq<ExprV>),
    Raise(Seq<char>),
    Open,
}

/// The outcome of evaluating the entries of a mapping literal.
#[verifier::ext_equal]
pub enum EntriesOut {
    Values(EnvV, Seq<(ExprV, ExprV)>),
    Raise(Seq<char>),
    Open,
}

/// The meaning of one evaluation step, on the store-free fragment.
/// Self-evaluating values return themselves; a quotation returns its body;
/// a bare symbol returns its binding or itself; array and mapping literals
/// evaluate their parts left to right threading the environment; a call
/// resolves its head and dispatches; the budget surfaces as `"error"`.
pub open spec fn eval_v(env: EnvV, e: ExprV, fuel: nat) -> EvalOut
    decreases fuel, e, 0nat, 0nat,
{
    match e {
        ExprV::Symbol(name) => EvalOut::Value(
            env,
            match env_lookup_v(env, name) {
                Some(v) => v,
                None => ExprV::Symbol(name),
            },
        ),
        ExprV::NamespacedSymbol(_) => EvalOut::Open,
        ExprV::Array(items) => match eval_args_v(env, items, 0, fuel) {
            ArgsOut::Values(env2, vals) => EvalOut::Value(env2, ExprV::Array(vals)),
            ArgsOut::Raise(tag) => EvalOut::Raise(tag),
            ArgsOut::Open => EvalOut::Open,
        },
        ExprV::Mapping(entries) => match eval_entries_v(env, entries, 0, fuel) {
            EntriesOut::Values(env2, m) => EvalOut::Value(env2, ExprV::Mapping(m)),
            EntriesOut::Raise(tag) => EvalOut::Raise(tag),
            EntriesOut::Open => EvalOut::Open,
        },
        ExprV::Quote(inner) => EvalOut::Value(env, *inner),
        ExprV::Deref(_) => EvalOut::Open,
        ExprV::Call { function, arguments } => if fuel == 0 {
            EvalOut::Raise("error"@)
        } else {
            let callee = match *function {
                ExprV::Symbol(name) => match env_lookup_v(env, name) {
                    Some(v) => EvalOut::Value(env, v),
                    None => EvalOut::Raise("unbound"@),
                },
                other => eval_v(env, other, fuel),
            };
            match callee {
                EvalOut::Value(_, f) => match f {
                    ExprV::IntrinsicFunction(op) => apply_intrinsic_v(env, op, arguments, fuel),
                    ExprV::Function { env: fenv, patterns } => match eval_args_v(
                        env,
                        arguments,
                        0,
                        fuel,
                    ) {
                        ArgsOut::Values(env2, vals) => apply_function_v(
                            env2,
                            fenv,
                            patterns,
                            vals,
                            (fuel - 1) as nat,
                        ),
                        ArgsOut::Raise(tag) => EvalOut::Raise(tag),
                        ArgsOut::Open => EvalOut::Open,
                    },
                    ExprV::NativeFunction(_) => EvalOut::Open,
                    _ => EvalOut::Raise("not callable"@),
                },
                EvalOut::Raise(tag) => EvalOut::Raise(tag),
                EvalOut::Open => EvalOut::Open,
            }
        },
        _ => EvalOut::Value(env, e),
    }
}

/// Evaluates the arguments from position `i` on, left to right, threading
/// the environment.
pub open spec fn eval_args_v(env: EnvV, args: Seq<ExprV>, i: nat, fuel: nat) -> ArgsOut
    decreases fuel, args, 1nat, args.len() - i,
{
    if i >= args.len() {
        ArgsOut::Values(env, Seq::empty())
    } else {
        match eval_v(env, args[i as int], fuel) {
            EvalOut::Value(env2, v) => match eval_args_v(env2, args, i + 1, fuel) {
                ArgsOut::Values(env3, rest) => ArgsOut::Values(env3, seq![v] + rest),
                ArgsOut::Raise(tag) => ArgsOut::Raise(tag),
                ArgsOut::Open => ArgsOut::Open,
            },
            EvalOut::Raise(tag) => ArgsOut::Raise(tag),
            EvalOut::Open => ArgsOut::Open,
        }
    }
}

/// Evaluates the keys and values of a mapping literal from entry `i` on,
/// threading the environment, and writes each pair into the mapping built
/// from the rest.
pub open spec fn eval_entries_v(
    env: EnvV,
    entries: Seq<(ExprV, ExprV)>,
    i: nat,
    fuel: nat,
) -> EntriesOut
    decreases fuel, entries, 1nat, entries.len() - i,
{
    if i >= entries.len() {
        EntriesOut::Values(env, Seq::empty())
    } else {
        match eval_v(env, entries[i as int].0, fuel) {
            EvalOut::Value(env2, kv) => match eval_v(env2, entries[i as int].1, fuel) {
                EvalOut::Value(env3, vv) => match eval_entries_v(env3, entries, i + 1, fuel) {
                    EntriesOut::Values(env4, rest) => EntriesOut::Values(
                        env4,
                        crate::valmap::map_insert_v(rest, kv, vv),
                    ),
                    EntriesOut::Raise(tag) => EntriesOut::Raise(tag),
                    EntriesOut::Open => EntriesOut::Open,
                },
                EvalOut::Raise(tag) => EntriesOut::Raise(tag),
                EvalOut::Open => EntriesOut::Open,
            },
            EvalOut::Raise(tag) => EntriesOut::Raise(tag),
            EvalOut::Open => EntriesOut::Open,
        }
    }
}

/// Evaluates the expressions from position `i` on, threading the
/// environment, and yields the threaded environment and the last value:
/// the discipline of a `when` body and of a function body.
pub open spec fn eval_seq_v(env: EnvV, items: Seq<ExprV>, i: nat, last: ExprV, fuel: nat) -> EvalOut
    decreases fuel, items, 1nat, items.len() - i,
{
    if i >= items.len() {
        EvalOut::Value(env, last)
    } else {
        match eval_v(env, items[i as int], fuel) {
            EvalOut::Value(env2, v) => eval_seq_v(env2, items, i + 1, v, fuel),
            other => other,
        }
    }
}

/// The closure `fn` and `defn` build: the parameter list at position `i`,
/// the remaining arguments as the body, the current environment captured.
pub open spec fn make_function_v(env: EnvV, args: Seq<ExprV>, i: int) -> Option<ExprV> {
    match args[i] {
        ExprV::Array(ps) => Some(
            ExprV::Function {
                env,
                patterns: seq![PatternV { parameters: ps, body: args.skip(i + 1) }],
            },
        ),
        _ => None,
    }
}

/// Applies a user function to evaluated arguments: the first clause whose
/// parameter pattern matches wins; no clause raises `"arity"`; the caller's
/// environment comes back unchanged.
pub open spec fn apply_function_v(
    env: EnvV,
    fenv: EnvV,
    patterns: Seq<PatternV>,
    vals: Seq<ExprV>,
    fuel: nat,
) -> EvalOut
    decreases fuel, patterns, 3nat, 0nat,
{
    if fuel == 0 {
        EvalOut::Raise("error"@)
    } else {
        apply_clauses_v(env, fenv, patterns, vals, 0, fuel)
    }
}

/// Tries the clauses from `c` on in declaration order.
pub open spec fn apply_clauses_v(
    env: EnvV,
    fenv: EnvV,
    patterns: Seq<PatternV>,
    vals: Seq<ExprV>,
    c: nat,
    fuel: nat,
) -> EvalOut
    decreases fuel, patterns, 2nat, patterns.len() - c,
{
    if fuel == 0 {
        EvalOut::Raise("error"@)
    } else if c >= patterns.len() {
        EvalOut::Raise("arity"@)
    } else {
        match crate::matcher::match_list_v(fenv, patterns[c as int].parameters, vals, 0) {
            Some(bound) => match eval_seq_v(
                bound,
                patterns[c as int].body,
                0,
                ExprV::Nil,
                (fuel - 1) as nat,
            ) {
                EvalOut::Value(_, last) => EvalOut::Value(env, last),
                other => other,
            },
            None => apply_clauses_v(env, fenv, patterns, vals, c + 1, fuel),
        }
    }
}

/// Applies a core operation to its unevaluated arguments: `quote` returns
/// its argument; the special forms decide what to evaluate; every other
/// operation evaluates its arguments and applies `apply_values_v`.
pub open spec fn apply_intrinsic_v(env: EnvV, op: Intrinsic, args: Seq<ExprV>, fuel: nat) -> EvalOut
    decreases fuel, args, 2nat, 0nat,
{
    if op == Intrinsic::Quote {
        if args.len() == 1 {
            EvalOut::Value(env, args[0])
        } else {
            EvalOut::Raise("type"@)
        }
    } else if fuel == 0 {
        EvalOut::Raise("error"@)
    } else {
        match op {
            Intrinsic::If => if args.len() != 2 && args.len() != 3 {
                EvalOut::Raise("type"@)
            } else {
                match eval_v(env, args[0], fuel) {
                    EvalOut::Value(env2, c) => if c.is_falsy() {
                        if args.len() == 3 {
                            eval_v(env2, args[2], fuel)
                        } else {
                            EvalOut::Value(env2, ExprV::Nil)
                        }
                    } else {
                        eval_v(env2, args[1], fuel)
                    },
                    other => other,
                }
            },
            Intrinsic::When => if args.len() < 1 {
                EvalOut::Raise("type"@)
            } else {
                match eval_v(env, args[0], fuel) {
                    EvalOut::Value(env2, c) => if c.is_falsy() {
                        EvalOut::Value(env2, ExprV::Nil)
                    } else {
                        eval_seq_v(env2, args, 1, ExprV::Nil, fuel)
                    },
                    other => other,
                }
            },
            Intrinsic::Def => if args.len() != 2 {
                EvalOut::Raise("type"@)
            } else {
                match args[0] {
                    ExprV::Symbol(name) => match eval_v(env, args[1], fuel) {
                        EvalOut::Value(env2, v) => EvalOut::Value(
                            env_insert_v(env2, name, v),
                            ExprV::Nil,
                        ),
                        other => other,
                    },
                    _ => EvalOut::Raise("type"@),
                }
            },
            Intrinsic::Fn => if args.len() < 1 {
                EvalOut::Raise("type"@)
            } else {
                match make_function_v(env, args, 0) {
                    Some(f) => EvalOut::Value(env, f),
                    None => EvalOut::Raise("type"@),
                }
            },
            Intrinsic::Defn => if args.len() < 2 {
                EvalOut::Raise("type"@)
            } else {
                match args[0] {
                    ExprV::Symbol(name) => match make_function_v(env, args, 1) {
                        Some(f) => EvalOut::Value(env_insert_v(env, name, f), ExprV::Nil),
                        None => EvalOut::Raise("type"@),
                    },
                    _ => EvalOut::Raise("type"@),
                }
            },
            Intrinsic::Eval => if args.len() != 1 {
                EvalOut::Raise("type"@)
            } else {
                match eval_v(env, args[0], fuel) {
                    EvalOut::Value(env2, once) => eval_v(env2, once, (fuel - 1) as nat),
                    other => other,
                }
            },
            Intrinsic::Spawn => if args.len() != 1 {
                EvalOut::Raise("type"@)
            } else {
                EvalOut::Open
            },
            Intrinsic::Swap => EvalOut::Open,
            _ => match eval_args_v(env, args, 0, fuel) {
                ArgsOut::Values(env2, vals) => apply_values_v(env2, op, vals),
                ArgsOut::Raise(tag) => EvalOut::Raise(tag),
                ArgsOut::Open => EvalOut::Open,
            },
        }
    }
}

/// Applies a core operation to already-evaluated arguments, on the
/// store-free fragment: exact rational arithmetic, the total order,
/// reading, assertion, text, hypertext and the mapping operations; the
/// atom and channel operations pass through the store and stay `Open`.
pub open spec fn apply_values_v(env: EnvV, op: Intrinsic, vals: Seq<ExprV>) -> EvalOut {
    match op {
        Intrinsic::Add => if vals.len() != 2 {
            EvalOut::Raise("type"@)
        } else if vals[0].is_numeric() && vals[1].is_numeric() {
            if !fits_num(add_q(vals[0], vals[1])) {
                EvalOut::Raise("error"@)
            } else {
                EvalOut::Value(env, as_num_expr(add_q(vals[0], vals[1])))
            }
        } else if arith_num(vals[0]) && arith_num(vals[1]) {
            match float_repr(dec_add_q(vals[0], vals[1]).0, dec_add_q(vals[0], vals[1]).1) {
                Some(f) => EvalOut::Value(env, ExprV::Float(f)),
                None => EvalOut::Raise("error"@),
            }
        } else {
            EvalOut::Raise("type"@)
        },
        Intrinsic::Sub => if vals.len() != 2 {
            EvalOut::Raise("type"@)
        } else if vals[0].is_numeric() && vals[1].is_numeric() {
            if !fits_num(sub_q(vals[0], vals[1])) {
                EvalOut::Raise("error"@)
            } else {
                EvalOut::Value(env, as_num_expr(sub_q(vals[0], vals[1])))
            }
        } else if arith_num(vals[0]) && arith_num(vals[1]) {
            match float_repr(dec_sub_q(vals[0], vals[1]).0, dec_sub_q(vals[0], vals[1]).1) {
                Some(f) => EvalOut::Value(env, ExprV::Float(f)),
                None => EvalOut::Raise("error"@),
            }
        } else {
            EvalOut::Raise("type"@)
        },
        Intrinsic::Mul => if vals.len() != 2 {
            EvalOut::Raise("type"@)
        } else if vals[0].is_numeric() && vals[1].is_numeric() {
            if !fits_num(mul_q(vals[0], vals[1])) {
                EvalOut::Raise("error"@)
            } else {
                EvalOut::Value(env, as_num_expr(mul_q(vals[0], vals[1])))
            }
        } else if arith_num(vals[0]) && arith_num(vals[1]) {
            match float_repr(dec_mul_q(vals[0], vals[1]).0, dec_mul_q(vals[0], vals[1]).1) {
                Some(f) => EvalOut::Value(env, ExprV::Float(f)),
                None => EvalOut::Raise("error"@),
            }
        } else {
            EvalOut::Raise("type"@)
        },
        Intrinsic::Div => if vals.len() != 2 {
            EvalOut::Raise("type"@)
        } else if vals[0].is_numeric() && vals[1].is_numeric() {
            if vals[1].num_of() == 0 {
                EvalOut::Raise("error"@)
            } else if !fits_num(div_q(vals[0], vals[1])) {
                EvalOut::Raise("error"@)
            } else {
                EvalOut::Value(env, as_num_expr(div_q(vals[0], vals[1])))
            }
        } else if arith_num(vals[0]) && arith_num(vals[1]) {
            if dec_num_of(vals[1]) == 0 {
                EvalOut::Raise("error"@)
            } else {
                match float_repr(dec_div_q(vals[0], vals[1]).0, dec_div_q(vals[0], vals[1]).1) {
                    Some(f) => EvalOut::Value(env, ExprV::Float(f)),
                    None => EvalOut::Raise("error"@),
                }
            }
        } else {
            EvalOut::Raise("type"@)
        },
        Intrinsic::Equal => if vals.len() != 2 {
            EvalOut::Raise("type"@)
        } else {
            EvalOut::Value(env, ExprV::Bool(vals[0] == vals[1]))
        },
        Intrinsic::Less => if vals.len() != 2 {
            EvalOut::Raise("type"@)
        } else {
            EvalOut::Value(env, ExprV::Bool(cmp_expr(vals[0], vals[1]) == Cmp::Lt))
        },
        Intrinsic::LessEqual => if vals.len() != 2 {
            EvalOut::Raise("type"@)
        } else {
            EvalOut::Value(env, ExprV::Bool(cmp_expr(vals[0], vals[1]) != Cmp::Gt))
        },
        Intrinsic::Greater => if vals.len() != 2 {
            EvalOut::Raise("type"@)
        } else {
            EvalOut::Value(env, ExprV::Bool(cmp_expr(vals[0], vals[1]) == Cmp::Gt))
        },
        Intrinsic::GreaterEqual => if vals.len() != 2 {
            EvalOut::Raise("type"@)
        } else {
            EvalOut::Value(env, ExprV::Bool(cmp_expr(vals[0], vals[1]) != Cmp::Lt))
        },
        Intrinsic::ReadString => if vals.len() != 1 {
            EvalOut::Raise("type"@)
        } else {
            match vals[0] {
                ExprV::String(s) => match parse_at(tokenize_spec(s), 0) {
                    Some(p) => EvalOut::Value(env, p.0),
                    None => EvalOut::Raise(crate::parser::parse_fail_tag(tokenize_spec(s))),
                },
                _ => EvalOut::Raise("type"@),
            }
        },
        Intrinsic::Assert => if vals.len() != 1 {
            EvalOut::Raise("type"@)
        } else if vals[0].is_falsy() {
            EvalOut::Raise("assert"@)
        } else {
            EvalOut::Value(env, ExprV::Nil)
        },
        Intrinsic::Str => EvalOut::Value(env, ExprV::String(str_pieces(vals))),
        Intrinsic::Assoc => if vals.len() != 3 {
            EvalOut::Raise("type"@)
        } else {
            match vals[0] {
                ExprV::Mapping(m) => EvalOut::Value(
                    env,
                    ExprV::Mapping(crate::valmap::map_insert_v(m, vals[1], vals[2])),
                ),
                _ => EvalOut::Raise("type"@),
            }
        },
        Intrinsic::Dissoc => if vals.len() != 2 {
            EvalOut::Raise("type"@)
        } else {
            match vals[0] {
                ExprV::Mapping(m) => EvalOut::Value(
                    env,
                    ExprV::Mapping(crate::valmap::map_remove_v(m, vals[1])),
                ),
                _ => EvalOut::Raise("type"@),
            }
        },
        Intrinsic::Merge => if vals.len() != 2 {
            EvalOut::Raise("type"@)
        } else {
            match (vals[0], vals[1]) {
                (ExprV::Mapping(m1), ExprV::Mapping(m2)) => EvalOut::Value(
                    env,
                    ExprV::Mapping(crate::valmap::map_merge_v(m1, m2)),
                ),
                _ => EvalOut::Raise("type"@),
            }
        },
        Intrinsic::Html => if vals.len() != 1 {
            EvalOut::Raise("type"@)
        } else {
            match html_v(vals[0]) {
                Some(text) => EvalOut::Value(env, ExprV::String(text)),
                None => EvalOut::Raise("error"@),
            }
        },
        Intrinsic::AtomNew => EvalOut::Open,
        Intrinsic::Reset => EvalOut::Open,
        Intrinsic::Chan => EvalOut::Open,
        Intrinsic::Put => EvalOut::Open,
        Intrinsic::Take => EvalOut::Open,
        _ => EvalOut::Raise("type"@),
    }
}

/// Evaluates an expression in an environment against a store, under a fuel
/// budget.  Self-evaluating values return themselves with the environment
/// unchanged; a quotation returns its body unevaluated; a bare symbol
/// returns its binding, or itself when unbound.
pub fn evaluate_with(
    store: &mut Store,
    task: u64,
    env: Environment,
    expr: &Expression,
    fuel: u64,
) -> (r: Result<(Environment, Expression), RaisedEffect>)
    ensures
        expr@.is_self_evaluating() ==> (r matches Ok(p) && p.0@ == env@ && p.1@ == expr@),
        (expr@ matches ExprV::Quote(inner) ==> (r matches Ok(p) && p.0@ == env@ && p.1@
            == *inner)),
        (expr@ matches ExprV::Symbol(name) ==> (r matches Ok(p) && p.0@ == env@ && p.1@ == (
        match env_lookup_v(env@, name) {
            Some(v) => v,
            None => ExprV::Symbol(name),
        }))),
        (eval_v(env@, expr@, fuel as nat) matches EvalOut::Value(e2, v) ==> (r matches Ok(p)
            && p.0@ == e2 && p.1@ == v)),
        (eval_v(env@, expr@, fuel as nat) matches EvalOut::Raise(tag) ==> (r matches Err(e)
            && e@.effect == tag)),
    decreases fuel, *expr, 0nat, 0nat,
{
    match expr {
        Expression::Symbol(name) => {
            match env.lookup(name.as_str()) {
                Some(v) => Ok((env, v)),
                None => Ok((env, Expression::Symbol(name.clone()))),
            }
        },
        Expression::NamespacedSymbol(name) => {
            let r = resolve_namespaced(&env, name.as_str());
            match r {
                Some(v) => Ok((env, v)),
                None => {
                    let eff = raise(&env, "unbound", "name not found in namespace");
                    Err(eff)
                },
            }
        },
        Expression::Array(items) => {
            match eval_args_from(store, task, env, items, 0, fuel) {
                Ok((env2, vals)) => Ok((env2, Expression::Array(vals))),
                Err(e) => Err(e),
            }
        },
        Expression::Mapping(entries) => {
            match eval_entries_from(store, task, env, entries, 0, fuel) {
                Ok((env2, vals)) => Ok((env2, Expression::Mapping(vals))),
                Err(e) => Err(e),
            }
        },
        Expression::Quote(inner) => Ok((env, inner.duplicate())),
        Expression::Deref(inner) => {
            match evaluate_with(store, task, env, inner, fuel) {
                Ok((env2, v)) => {
                    match v {
                        Expression::Atom(id) => {
                            match store.atom_get(id) {
                                Some(value) => Ok((env2, value)),
                                None => {
                                    let eff = raise(&env2, "type", "no such atom");
                                    Err(eff)
                                },
                            }
                        },
                        _ => {
                            let eff = raise(&env2, "type", "expected an atom");
                            Err(eff)
                        },
                    }
                },
                Err(e) => Err(e),
            }
        },
        Expression::Call { function, arguments } => {
            if fuel == 0 {
                let eff = error(&env, "the evaluation budget is exhausted");
                return Err(eff);
            }
            let callee = match &**function {
                Expression::Symbol(name) => {
                    match env.lookup(name.as_str()) {
                        Some(v) => v,
                        None => {
                            let eff = raise(&env, "unbound", name.as_str());
                            proof {
                                assert((**function)@ == ExprV::Symbol(name@));
                                assert(eval_v(env@, expr@, fuel as nat) == EvalOut::Raise(
                                    "unbound"@,
                                ));
                            }
                            return Err(eff);
                        },
                    }
                },
                other => {
                    match evaluate_with(store, task, env.duplicate(), other, fuel) {
                        Ok((_, v)) => v,
                        Err(e) => {
                            return Err(e);
                        },
                    }
                },
            };
            match callee {
                Expression::IntrinsicFunction(op) => apply_intrinsic(
                    store,
                    task,
                    env,
                    op,
                    arguments,
                    fuel,
                ),
                Expression::Function { env: fenv, patterns } => {
                    match eval_args_from(store, task, env, arguments, 0, fuel) {
                        Ok((env2, vals)) => apply_function(
                            store,
                            task,
                            env2,
                            fenv,
                            &patterns,
                            &vals,
                            fuel - 1,
                        ),
                        Err(e) => Err(e),
                    }
                },
                Expression::NativeFunction(id) => {
                    match eval_args_from(store, task, env, arguments, 0, fuel) {
                        Ok((env2, vals)) => {
                            if store.used < store.supplied.len() {
                                let v = store.supplied[store.used].duplicate();
                                store.used = store.used + 1;
                                Ok((env2, v))
                            } else {
                                let mut carried: Vec<Expression> = Vec::new();
                                carried.push(Expression::NativeFunction(id));
                                let mut vals2 = vals;
                                carried.append(&mut vals2);
                                Err(
                                    RaisedEffect {
                                        environment: env2,
                                        effect: "native".to_owned(),
                                        arguments: carried,
                                    },
                                )
                            }
                        },
                        Err(e) => Err(e),
                    }
                },
                _ => {
                    let eff = raise(&env, "not callable", "call of a value that is not callable");
                    Err(eff)
                },
            }
        },
        other => Ok((env, other.duplicate())),
    }
}

/// Resolves `ns/name`: the namespace must be bound to a module holding the
/// name.
fn resolve_namespaced(env: &Environment, full: &str) -> (r: Option<Expression>) {
    let chars = crate::tokenizer::chars_of(full);
    let n = chars.len();
    let mut slash: usize = n;
    let mut i: usize = 0;
    while i < n
        invariant
            i <= n,
            n == chars@.len(),
            slash <= n,
        decreases n - i,
    {
        if chars[i] == '/' && slash == n {
            slash = i;
        }
        i = i + 1;
    }
    if slash >= n {
        return None;
    }
    let before = crate::tokenizer::string_of(&crate::tokenizer::copy_range(&chars, 0, slash));
    let after = crate::tokenizer::string_of(
        &crate::tokenizer::copy_range(&chars, slash + 1, n),
    );
    match env.lookup(before.as_str()) {
        Some(Expression::Module(m)) => m.lookup(after.as_str()),
        _ => None,
    }
}

/// Evaluates the expressions from position `i` on, left to right, threading
/// the environment; the values come back in order.
fn eval_args_from(
    store: &mut Store,
    task: u64,
    env: Environment,
    args: &Vec<Expression>,
    i: usize,
    fuel: u64,
) -> (r: Result<(Environment, Vec<Expression>), RaisedEffect>)
    requires
        i <= args@.len(),
    ensures
        r matches Ok(p) ==> p.1@.len() == args@.len() - i,
        (eval_args_v(env@, view_exprs(args@), i as nat, fuel as nat) matches ArgsOut::Values(
            e2,
            vs,
        ) ==> (r matches Ok(p) && p.0@ == e2 && view_exprs(p.1@) == vs)),
        (eval_args_v(env@, view_exprs(args@), i as nat, fuel as nat) matches ArgsOut::Raise(tag)
            ==> (r matches Err(e) && e@.effect == tag)),
    decreases fuel, *args, 1nat, args@.len() - i,
{
    proof {
        lemma_view_exprs(args@);
    }
    if i >= args.len() {
        let out: Vec<Expression> = Vec::new();
        proof {
            assert(view_exprs(out@) =~= Seq::<ExprV>::empty());
        }
        return Ok((env, out));
    }
    match evaluate_with(store, task, env, &args[i], fuel) {
        Ok((env2, v)) => {
            match eval_args_from(store, task, env2, args, i + 1, fuel) {
                Ok((env3, rest)) => {
                    let mut out: Vec<Expression> = Vec::new();
                    out.push(v);
                    let ghost first = out@;
                    let mut rest2 = rest;
                    let ghost rv = rest2@;
                    out.append(&mut rest2);
                    proof {
                        lemma_view_exprs(out@);
                        lemma_view_exprs(first);
                        lemma_view_exprs(rv);
                        assert(view_exprs(out@) =~= seq![first[0]@] + view_exprs(rv));
                    }
                    Ok((env3, out))
                },
                Err(e) => Err(e),
            }
        },
        Err(e) => Err(e),
    }
}

/// Evaluates the keys and values of a mapping in key order, threading the
/// environment, and assembles the results into a mapping.
fn eval_entries_from(
    store: &mut Store,
    task: u64,
    env: Environment,
    entries: &Vec<(Expression, Expression)>,
    i: usize,
    fuel: u64,
) -> (r: Result<(Environment, Vec<(Expression, Expression)>), RaisedEffect>)
    requires
        i <= entries@.len(),
    ensures
        (eval_entries_v(env@, view_expr_pairs(entries@), i as nat, fuel as nat)
            matches EntriesOut::Values(e2, m) ==> (r matches Ok(p) && p.0@ == e2
            && view_expr_pairs(p.1@) == m)),
        (eval_entries_v(env@, view_expr_pairs(entries@), i as nat, fuel as nat)
            matches EntriesOut::Raise(tag) ==> (r matches Err(e) && e@.effect == tag)),
    decreases fuel, *entries, 1nat, entries@.len() - i,
{
    proof {
        crate::expression::lemma_view_expr_pairs(entries@);
    }
    if i >= entries.len() {
        let out: Vec<(Expression, Expression)> = Vec::new();
        proof {
            assert(view_expr_pairs(out@) =~= Seq::<(ExprV, ExprV)>::empty());
        }
        return Ok((env, out));
    }
    match evaluate_with(store, task, env, &entries[i].0, fuel) {
        Ok((env2, kv)) => {
            match evaluate_with(store, task, env2, &entries[i].1, fuel) {
                Ok((env3, vv)) => {
                    match eval_entries_from(store, task, env3, entries, i + 1, fuel) {
                        Ok((env4, rest)) => Ok((env4, map_insert(&rest, &kv, &vv))),
                        Err(e) => Err(e),
                    }
                },
                Err(e) => Err(e),
            }
        },
        Err(e) => Err(e),
    }
}

/// Evaluates a sequence of expressions left to right, threading the
/// environment: the discipline of every argument list.
pub fn evaluate_expressions(
    store: &mut Store,
    task: u64,
    env: Environment,
    args: &Vec<Expression>,
    fuel: u64,
) -> (r: Result<(Environment, Vec<Expression>), RaisedEffect>)
    ensures
        r matches Ok(p) ==> p.1@.len() == args@.len(),
        (eval_args_v(env@, view_exprs(args@), 0, fuel as nat) matches ArgsOut::Values(e2, vs)
            ==> (r matches Ok(p) && p.0@ == e2 && view_exprs(p.1@) == vs)),
        (eval_args_v(env@, view_exprs(args@), 0, fuel as nat) matches ArgsOut::Raise(tag) ==> (
        r matches Err(e) && e@.effect == tag)),
{
    eval_args_from(store, task, env, args, 0, fuel)
}

/// Applies a user function: the first clause whose parameter pattern matches
/// the arguments wins; its body evaluates in the captured environment
/// extended with the bindings; the caller's environment comes back
/// unchanged.  No matching clause raises an `"arity"` effect.
fn apply_function(
    store: &mut Store,
    task: u64,
    env: Environment,
    fenv: Environment,
    patterns: &Vec<Pattern>,
    vals: &Vec<Expression>,
    fuel: u64,
) -> (r: Result<(Environment, Expression), RaisedEffect>)
    ensures
        (apply_function_v(env@, fenv@, view_patterns(patterns@), view_exprs(vals@), fuel as nat)
            matches EvalOut::Value(e2, v) ==> (r matches Ok(p) && p.0@ == e2 && p.1@ == v)),
        (apply_function_v(env@, fenv@, view_patterns(patterns@), view_exprs(vals@), fuel as nat)
            matches EvalOut::Raise(tag) ==> (r matches Err(e) && e@.effect == tag)),
    decreases fuel, *patterns, 3nat, 0nat,
{
    proof {
        crate::expression::lemma_view_patterns(patterns@);
    }
    let ghost pats = view_patterns(patterns@);
    let ghost vs = view_exprs(vals@);
    if fuel == 0 {
        let eff = error(&env, "the evaluation budget is exhausted");
        return Err(eff);
    }
    let mut c: usize = 0;
    while c < patterns.len()
        invariant
            c <= patterns@.len(),
            fuel >= 1,
            pats == view_patterns(patterns@),
            vs == view_exprs(vals@),
            pats.len() == patterns@.len(),
            forall|j: int| 0 <= j < patterns@.len() ==> pats[j] == patterns@[j]@,
            apply_clauses_v(env@, fenv@, pats, vs, 0, fuel as nat) == apply_clauses_v(
                env@,
                fenv@,
                pats,
                vs,
                c as nat,
                fuel as nat,
            ),
        decreases patterns@.len() - c,
    {
        match pattern_match(&fenv, &patterns[c].parameters, vals) {
            Some(bound) => {
                return eval_body(store, task, env, bound, &patterns[c].body, fuel - 1);
            },
            None => {
            },
        }
        c = c + 1;
    }
    let eff = raise(&env, "arity", "no clause matches the arguments");
    Err(eff)
}

/// Evaluates the body expressions of a clause in order and returns the last
/// value; an empty body yields `nil`.
fn eval_body(
    store: &mut Store,
    task: u64,
    env: Environment,
    inner: Environment,
    body: &Vec<Expression>,
    fuel: u64,
) -> (r: Result<(Environment, Expression), RaisedEffect>)
    ensures
        (eval_seq_v(inner@, view_exprs(body@), 0, ExprV::Nil, fuel as nat)
            matches EvalOut::Value(e2, last) ==> (r matches Ok(p) && p.0@ == env@ && p.1@
            == last)),
        (eval_seq_v(inner@, view_exprs(body@), 0, ExprV::Nil, fuel as nat)
            matches EvalOut::Raise(tag) ==> (r matches Err(e) && e@.effect == tag)),
    decreases fuel, *body, 2nat, 0nat,
{
    proof {
        lemma_view_exprs(body@);
    }
    let ghost bs = view_exprs(body@);
    let ghost start = inner@;
    let mut acc = inner;
    let mut last = Expression::Nil;
    let mut j: usize = 0;
    while j < body.len()
        invariant
            j <= body@.len(),
            bs == view_exprs(body@),
            start == inner@,
            bs.len() == body@.len(),
            forall|k: int| 0 <= k < body@.len() ==> bs[k] == body@[k]@,
            eval_seq_v(start, bs, 0, ExprV::Nil, fuel as nat) == eval_seq_v(
                acc@,
                bs,
                j as nat,
                last@,
                fuel as nat,
            ) || eval_seq_v(start, bs, 0, ExprV::Nil, fuel as nat) is Open,
        decreases body@.len() - j,
    {
        let ghost pre = acc@;
        let ghost lastv = last@;
        match evaluate_with(store, task, acc, &body[j], fuel) {
            Ok((inner2, v)) => {
                proof {
                    assert(bs[j as int] == body@[j as int]@);
                    assert(eval_seq_v(pre, bs, j as nat, lastv, fuel as nat) == (
                    match eval_v(pre, bs[j as int], fuel as nat) {
                        EvalOut::Value(env2, v2) => eval_seq_v(
                            env2,
                            bs,
                            (j + 1) as nat,
                            v2,
                            fuel as nat,
                        ),
                        other => other,
                    }));
                }
                acc = inner2;
                last = v;
            },
            Err(e) => {
                proof {
                    assert(bs[j as int] == body@[j as int]@);
                    assert(eval_seq_v(pre, bs, j as nat, lastv, fuel as nat) == (
                    match eval_v(pre, bs[j as int], fuel as nat) {
                        EvalOut::Value(env2, v2) => eval_seq_v(
                            env2,
                            bs,
                            (j + 1) as nat,
                            v2,
                            fuel as nat,
                        ),
                        other => other,
                    }));
                }
                return Err(e);
            },
        }
        j = j + 1;
    }
    Ok((env, last))
}

/// Applies a callable value to already-evaluated arguments: the path `swap!`
/// takes to run the update function atomically.
fn apply_callable(
    store: &mut Store,
    task: u64,
    env: Environment,
    f: &Expression,
    vals: &Vec<Expression>,
    fuel: u64,
) -> (r: Result<(Environment, Expression), RaisedEffect>)
    decreases fuel, *f, 4nat, 0nat,
{
    if fuel == 0 {
        let eff = error(&env, "the evaluation budget is exhausted");
        return Err(eff);
    }
    match f {
        Expression::Function { env: fenv, patterns } => apply_function(
            store,
            task,
            env,
            fenv.duplicate(),
            patterns,
            vals,
            fuel - 1,
        ),
        Expression::IntrinsicFunction(op) => apply_values(
            store,
            task,
            env,
            *op,
            vals,
            fuel - 1,
        ),
        _ => {
            let eff = raise(&env, "not callable", "call of a value that is not callable");
            Err(eff)
        },
    }
}


/// The text `str` takes from one value: the content of a string, the
/// display form of everything else.
pub open spec fn str_piece(v: ExprV) -> Seq<char> {
    match v {
        ExprV::String(s) => s,
        _ => crate::render::render_spec(v),
    }
}

/// The concatenation `str` builds over its evaluated arguments.
pub open spec fn str_pieces(vs: Seq<ExprV>) -> Seq<char>
    decreases vs,
{
    if vs.len() == 0 {
        Seq::empty()
    } else {
        str_pieces(vs.drop_last()) + str_piece(vs.last())
    }
}

/// The hypertext a value renders to: an array whose head is a keyword
/// becomes a tag wrapping the renderings of all its children in order; a
/// string stands as it is.
pub open spec fn html_v(e: ExprV) -> Option<Seq<char>>
    decreases e, 0nat,
{
    match e {
        ExprV::String(s) => Some(s),
        ExprV::Array(a) => if a.len() == 0 {
            None
        } else {
            match a[0] {
                ExprV::Keyword(k) => if k.len() == 0 {
                    None
                } else {
                    let tag = k.drop_first();
                    match html_children(a, 1) {
                        Some(inner) => Some(
                            seq!['<'] + tag + seq!['>'] + inner + "</"@ + tag + seq!['>'],
                        ),
                        None => None,
                    }
                },
                _ => None,
            }
        },
        _ => None,
    }
}

/// The concatenated renderings of the children from position `i` on.
pub open spec fn html_children(a: Seq<ExprV>, i: int) -> Option<Seq<char>>
    decreases a, a.len() - i,
{
    if i < 0 || i >= a.len() {
        Some(Seq::empty())
    } else {
        match html_v(a[i]) {
            Some(piece) => match html_children(a, i + 1) {
                Some(rest) => Some(piece + rest),
                None => None,
            },
            None => None,
        }
    }
}

/// Renders a value as hypertext, in executable form.
fn html_x(e: &Expression) -> (r: Option<Vec<char>>)
    ensures
        match r {
            Some(out) => html_v(e@) == Some(out@),
            None => html_v(e@) is None,
        },
    decreases *e, 0nat,
{
    match e {
        Expression::String(s) => Some(crate::tokenizer::chars_of(s.as_str())),
        Expression::Array(a) => {
            proof {
                lemma_view_exprs(a@);
            }
            if a.len() == 0 {
                return None;
            }
            match &a[0] {
                Expression::Keyword(k) => {
                    let kc = crate::tokenizer::chars_of(k.as_str());
                    if kc.len() == 0 {
                        return None;
                    }
                    let tag = crate::tokenizer::copy_range(&kc, 1, kc.len());
                    proof {
                        assert(k@.drop_first() =~= kc@.subrange(1, kc@.len() as int));
                    }
                    let mut inner: Vec<char> = match html_children_x(a, 1) {
                        Some(text) => text,
                        None => {
                            return None;
                        },
                    };
                    let mut out: Vec<char> = Vec::new();
                    out.push('<');
                    let mut t1 = crate::tokenizer::copy_range(&tag, 0, tag.len());
                    proof {
                        assert(t1@ =~= tag@);
                    }
                    out.append(&mut t1);
                    out.push('>');
                    let ghost iv = inner@;
                    out.append(&mut inner);
                    append_close(&mut out, &tag);
                    proof {
                        assert(out@ =~= seq!['<'] + tag@ + seq!['>'] + iv + "</"@ + tag@
                            + seq!['>']);
                    }
                    Some(out)
                },
                _ => None,
            }
        },
        _ => None,
    }
}

/// Renders the children from position `i` on and concatenates the results.
fn html_children_x(a: &Vec<Expression>, i: usize) -> (r: Option<Vec<char>>)
    ensures
        match r {
            Some(out) => html_children(view_exprs(a@), i as int) == Some(out@),
            None => html_children(view_exprs(a@), i as int) is None,
        },
    decreases *a, a@.len() - i,
{
    proof {
        lemma_view_exprs(a@);
    }
    if i >= a.len() {
        let out: Vec<char> = Vec::new();
        proof {
            assert(out@ =~= Seq::<char>::empty());
        }
        return Some(out);
    }
    match html_x(&a[i]) {
        Some(piece) => match html_children_x(a, i + 1) {
            Some(rest) => {
                let mut out = piece;
                let mut rest2 = rest;
                out.append(&mut rest2);
                Some(out)
            },
            None => None,
        },
        None => None,
    }
}

/// Appends a closing tag.
fn append_close(out: &mut Vec<char>, tag: &Vec<char>)
    ensures
        final(out)@ == old(out)@ + "</"@ + tag@ + seq!['>'],
{
    let mut close = crate::tokenizer::chars_of("</");
    let ghost cv = close@;
    out.append(&mut close);
    let mut t = crate::tokenizer::copy_range(tag, 0, tag.len());
    proof {
        assert(t@ =~= tag@);
    }
    let ghost tv = t@;
    out.append(&mut t);
    out.push('>');
    proof {
        assert(final(out)@ =~= old(out)@ + "</"@ + tag@ + seq!['>']);
    }
}

/// Runs the earliest pending task to completion or to its suspension point.
/// Yields whether a task was there to run.
fn run_one_pending(store: &mut Store, env: &Environment, fuel: u64) -> (r: Result<
    bool,
    RaisedEffect,
>)
    ensures
        (r matches Ok(b) && b == false) ==> final(store).pending@.len() == 0,
    decreases fuel, *env, 5nat, 0nat,
{
    if fuel == 0 {
        let eff = error(env, "the evaluation budget is exhausted");
        return Err(eff);
    }
    if store.pending.len() == 0 {
        return Ok(false);
    }
    let t = store.pending.remove(0);
    match evaluate_with(store, t.id, t.env, &t.body, fuel - 1) {
        Ok((_, v)) => {
            store.finished.push((t.id, v));
            Ok(true)
        },
        Err(e) => {
            if matches!(
                crate::order::compare_text(e.effect.as_str(), "suspended", 0),
                Cmp::Eq,
            ) {
                Ok(true)
            } else {
                Err(e)
            }
        },
    }
}

/// Performs `put!`: delivers to the earliest waiting taker, buffers when
/// room is there, otherwise lets pending tasks run; the top-level task
/// observes `"cancelled"` when nothing can accept the value, and a spawned
/// task whose final step this is suspends as a waiting putter.
fn put_op(
    store: &mut Store,
    task: u64,
    env: Environment,
    ch: u64,
    v: Expression,
    fuel: u64,
) -> (r: Result<(Environment, Expression), RaisedEffect>)
    decreases fuel, env, 6nat, 0nat,
{
    if fuel == 0 {
        let eff = error(&env, "the evaluation budget is exhausted");
        return Err(eff);
    }
    let n = store.channels.len();
    if ch >= n as u64 {
        let eff = raise(&env, "type", "expected a channel");
        return Err(eff);
    }
    if task != MAIN_TASK {
        let vc = v.duplicate();
        let mut c = store.channels.remove(ch as usize);
        let outcome = c.offer(v, task);
        store.channels.insert(ch as usize, c);
        match outcome {
            PutOutcome::Delivered(taker) => {
                store.finished.push((taker, vc));
                Ok((env, Expression::Nil))
            },
            PutOutcome::Buffered => Ok((env, Expression::Nil)),
            PutOutcome::Blocked => {
                let eff = raise(&env, "suspended", "waiting to put");
                Err(eff)
            },
        }
    } else {
        let room = {
            let c = &store.channels[ch as usize];
            c.takers.len() > 0 || (c.buffer.len() < c.capacity && c.putters.len() == 0)
        };
        if room {
            let vc = v.duplicate();
            let mut c = store.channels.remove(ch as usize);
            let outcome = c.offer(v, task);
            store.channels.insert(ch as usize, c);
            match outcome {
                PutOutcome::Delivered(taker) => {
                    store.finished.push((taker, vc));
                    Ok((env, Expression::Nil))
                },
                PutOutcome::Buffered => Ok((env, Expression::Nil)),
                PutOutcome::Blocked => {
                    let eff = raise(&env, "cancelled", "the put can no longer complete");
                    Err(eff)
                },
            }
        } else {
            match run_one_pending(store, &env, fuel - 1) {
                Ok(true) => put_op(store, task, env, ch, v, fuel - 1),
                Ok(false) => {
                    let eff = raise(&env, "cancelled", "the put can no longer complete");
                    Err(eff)
                },
                Err(e) => Err(e),
            }
        }
    }
}

/// Performs `take!`: the front of the queue when a value is there, waking
/// the earliest waiting putter; otherwise pending tasks run first; the
/// top-level task observes `"cancelled"` when no value can arrive, and a
/// spawned task whose final step this is suspends as a waiting taker.
fn take_op(
    store: &mut Store,
    task: u64,
    env: Environment,
    ch: u64,
    fuel: u64,
) -> (r: Result<(Environment, Expression), RaisedEffect>)
    decreases fuel, env, 6nat, 0nat,
{
    if fuel == 0 {
        let eff = error(&env, "the evaluation budget is exhausted");
        return Err(eff);
    }
    let n = store.channels.len();
    if ch >= n as u64 {
        let eff = raise(&env, "type", "expected a channel");
        return Err(eff);
    }
    let mut c = store.channels.remove(ch as usize);
    let outcome = c.poll();
    store.channels.insert(ch as usize, c);
    match outcome {
        TakeOutcome::Value(v, woken) => {
            match woken {
                Some(putter) => {
                    store.finished.push((putter, Expression::Nil));
                },
                None => {
                },
            }
            Ok((env, v))
        },
        TakeOutcome::Blocked => {
            if task != MAIN_TASK {
                let mut c2 = store.channels.remove(ch as usize);
                c2.wait_take(task);
                store.channels.insert(ch as usize, c2);
                let eff = raise(&env, "suspended", "waiting to take");
                Err(eff)
            } else {
                match run_one_pending(store, &env, fuel - 1) {
                    Ok(true) => take_op(store, task, env, ch, fuel - 1),
                    Ok(false) => {
                        let eff = raise(&env, "cancelled", "the take can no longer complete");
                        Err(eff)
                    },
                    Err(e) => Err(e),
                }
            }
        },
    }
}


/// Applies a core operation to its unevaluated arguments: the special forms
/// decide what to evaluate; every other operation evaluates its arguments
/// first.  `quote` returns its argument exactly as written.
fn apply_intrinsic(
    store: &mut Store,
    task: u64,
    env: Environment,
    op: Intrinsic,
    args: &Vec<Expression>,
    fuel: u64,
) -> (r: Result<(Environment, Expression), RaisedEffect>)
    ensures
        (op == Intrinsic::Quote && args@.len() == 1) ==> (r matches Ok(p) && p.0@ == env@ && p.1@
            == args@[0]@),
        (apply_intrinsic_v(env@, op, view_exprs(args@), fuel as nat) matches EvalOut::Value(
            e2,
            v,
        ) ==> (r matches Ok(p) && p.0@ == e2 && p.1@ == v)),
        (apply_intrinsic_v(env@, op, view_exprs(args@), fuel as nat) matches EvalOut::Raise(tag)
            ==> (r matches Err(e) && e@.effect == tag)),
    decreases fuel, *args, 2nat, 0nat,
{
    proof {
        lemma_view_exprs(args@);
    }
    if matches!(op, Intrinsic::Quote) {
        if args.len() != 1 {
            let eff = raise(&env, "type", "quote takes one argument");
            return Err(eff);
        }
        return Ok((env, args[0].duplicate()));
    }
    if fuel == 0 {
        let eff = error(&env, "the evaluation budget is exhausted");
        return Err(eff);
    }
    match op {
        Intrinsic::If => {
            if args.len() != 2 && args.len() != 3 {
                let eff = raise(&env, "type", "if takes a condition and one or two branches");
                return Err(eff);
            }
            match evaluate_with(store, task, env, &args[0], fuel) {
                Ok((env2, c)) => {
                    if c.falsy() {
                        if args.len() == 3 {
                            evaluate_with(store, task, env2, &args[2], fuel)
                        } else {
                            Ok((env2, Expression::Nil))
                        }
                    } else {
                        evaluate_with(store, task, env2, &args[1], fuel)
                    }
                },
                Err(e) => Err(e),
            }
        },
        Intrinsic::When => {
            if args.len() < 1 {
                let eff = raise(&env, "type", "when takes a condition");
                return Err(eff);
            }
            match evaluate_with(store, task, env, &args[0], fuel) {
                Ok((env2, c)) => {
                    if c.falsy() {
                        Ok((env2, Expression::Nil))
                    } else {
                        let ghost as_ = view_exprs(args@);
                        let ghost start = env2@;
                        let ghost whole = apply_intrinsic_v(env@, op, as_, fuel as nat);
                        proof {
                            assert(whole == eval_seq_v(start, as_, 1, ExprV::Nil, fuel as nat)
                                || whole is Open);
                        }
                        let mut acc = env2;
                        let mut last = Expression::Nil;
                        let mut j: usize = 1;
                        while j < args.len()
                            invariant
                                1 <= j <= args@.len(),
                                as_ == view_exprs(args@),
                                as_.len() == args@.len(),
                                whole == apply_intrinsic_v(env@, op, as_, fuel as nat),
                                forall|k: int| 0 <= k < args@.len() ==> as_[k] == args@[k]@,
                                whole == eval_seq_v(acc@, as_, j as nat, last@, fuel as nat)
                                    || whole is Open,
                            decreases args@.len() - j,
                        {
                            let ghost pre = acc@;
                            let ghost lastv = last@;
                            match evaluate_with(store, task, acc, &args[j], fuel) {
                                Ok((env3, v)) => {
                                    proof {
                                        assert(as_[j as int] == args@[j as int]@);
                                        assert(eval_seq_v(pre, as_, j as nat, lastv, fuel as nat)
                                            == (match eval_v(pre, as_[j as int], fuel as nat) {
                                            EvalOut::Value(env4, v2) => eval_seq_v(
                                                env4,
                                                as_,
                                                (j + 1) as nat,
                                                v2,
                                                fuel as nat,
                                            ),
                                            other => other,
                                        }));
                                    }
                                    acc = env3;
                                    last = v;
                                },
                                Err(e) => {
                                    proof {
                                        assert(as_[j as int] == args@[j as int]@);
                                        assert(eval_seq_v(pre, as_, j as nat, lastv, fuel as nat)
                                            == (match eval_v(pre, as_[j as int], fuel as nat) {
                                            EvalOut::Value(env4, v2) => eval_seq_v(
                                                env4,
                                                as_,
                                                (j + 1) as nat,
                                                v2,
                                                fuel as nat,
                                            ),
                                            other => other,
                                        }));
                                    }
                                    return Err(e);
                                },
                            }
                            j = j + 1;
                        }
                        Ok((acc, last))
                    }
                },
                Err(e) => Err(e),
            }
        },
        Intrinsic::Def => {
            if args.len() != 2 {
                let eff = raise(&env, "type", "def takes a name and a value");
                return Err(eff);
            }
            let name = match &args[0] {
                Expression::Symbol(s) => s.clone(),
                _ => {
                    let eff = raise(&env, "type", "def takes a symbol");
                    return Err(eff);
                },
            };
            match evaluate_with(store, task, env, &args[1], fuel) {
                Ok((env2, v)) => {
                    let env3 = env2.insert(name.as_str(), &v);
                    Ok((env3, Expression::Nil))
                },
                Err(e) => Err(e),
            }
        },
        Intrinsic::Fn => {
            if args.len() < 1 {
                let eff = raise(&env, "type", "fn takes a parameter list");
                return Err(eff);
            }
            match make_function(&env, args, 0) {
                Ok(f) => Ok((env, f)),
                Err(e) => Err(e),
            }
        },
        Intrinsic::Defn => {
            if args.len() < 2 {
                let eff = raise(&env, "type", "defn takes a name and a parameter list");
                return Err(eff);
            }
            let name = match &args[0] {
                Expression::Symbol(s) => s.clone(),
                _ => {
                    let eff = raise(&env, "type", "defn takes a symbol");
                    return Err(eff);
                },
            };
            match make_function(&env, args, 1) {
                Ok(f) => {
                    let env2 = env.insert(name.as_str(), &f);
                    Ok((env2, Expression::Nil))
                },
                Err(e) => Err(e),
            }
        },
        Intrinsic::Eval => {
            if args.len() != 1 {
                let eff = raise(&env, "type", "eval takes one argument");
                return Err(eff);
            }
            match evaluate_with(store, task, env, &args[0], fuel) {
                Ok((env2, once)) => evaluate_with(store, task, env2, &once, fuel - 1),
                Err(e) => Err(e),
            }
        },
        Intrinsic::Spawn => {
            if args.len() != 1 {
                let eff = raise(&env, "type", "spawn takes one expression");
                return Err(eff);
            }
            let id = store.spawn_task(env.duplicate(), args[0].duplicate());
            Ok((env, Expression::NativeType(id)))
        },
        Intrinsic::Swap => {
            match eval_args_from(store, task, env, args, 0, fuel) {
                Ok((env2, vals)) => {
                    if vals.len() < 2 {
                        let eff = raise(&env2, "type", "swap! takes an atom and a function");
                        return Err(eff);
                    }
                    let id = match &vals[0] {
                        Expression::Atom(id) => *id,
                        _ => {
                            let eff = raise(&env2, "type", "expected an atom");
                            return Err(eff);
                        },
                    };
                    let cur = match store.atom_get(id) {
                        Some(v) => v,
                        None => {
                            let eff = raise(&env2, "type", "no such atom");
                            return Err(eff);
                        },
                    };
                    let mut call_args: Vec<Expression> = Vec::new();
                    call_args.push(cur);
                    let mut j: usize = 2;
                    while j < vals.len()
                        invariant
                            2 <= j <= vals@.len(),
                        decreases vals@.len() - j,
                    {
                        call_args.push(vals[j].duplicate());
                        j = j + 1;
                    }
                    match apply_callable(store, task, env2, &vals[1], &call_args, fuel - 1) {
                        Ok((env3, result)) => {
                            let n = store.atoms.len();
                            if id < n as u64 {
                                store.atom_set(id, result.duplicate());
                                Ok((env3, result))
                            } else {
                                let eff = raise(&env3, "type", "no such atom");
                                Err(eff)
                            }
                        },
                        Err(e) => Err(e),
                    }
                },
                Err(e) => Err(e),
            }
        },
        _ => {
            match eval_args_from(store, task, env, args, 0, fuel) {
                Ok((env2, vals)) => apply_values(store, task, env2, op, &vals, fuel - 1),
                Err(e) => Err(e),
            }
        },
    }
}

/// Builds a closure from a parameter list and body expressions starting at
/// position `i` of the argument list.
fn make_function(env: &Environment, args: &Vec<Expression>, i: usize) -> (r: Result<
    Expression,
    RaisedEffect,
>)
    requires
        i < args@.len(),
    ensures
        match r {
            Ok(f) => make_function_v(env@, view_exprs(args@), i as int) == Some(f@),
            Err(e) => make_function_v(env@, view_exprs(args@), i as int) is None && e@.effect
                == "type"@,
        },
{
    proof {
        lemma_view_exprs(args@);
    }
    let n = args.len();
    let params = match &args[i] {
        Expression::Array(ps) => crate::expression::dup_items(ps),
        _ => {
            let eff = raise(env, "type", "expected a parameter list");
            return Err(eff);
        },
    };
    let mut body: Vec<Expression> = Vec::new();
    let mut j: usize = i + 1;
    while j < args.len()
        invariant
            i + 1 <= j <= args@.len(),
            body@.len() == j - i - 1,
            forall|k: int| 0 <= k < body@.len() ==> body@[k]@ == args@[i + 1 + k]@,
        decreases args@.len() - j,
    {
        body.push(args[j].duplicate());
        j = j + 1;
    }
    let mut patterns: Vec<Pattern> = Vec::new();
    patterns.push(Pattern { parameters: params, body });
    let ghost pats = patterns@;
    let out = Expression::Function { env: env.duplicate(), patterns };
    proof {
        lemma_view_exprs(args@);
        crate::expression::lemma_view_patterns(pats);
        lemma_view_exprs(pats[0].body@);
        assert(view_exprs(pats[0].body@) =~= view_exprs(args@).skip(i as int + 1));
        assert(view_patterns(pats) =~= seq![
            PatternV {
                parameters: view_exprs(args@)[i as int]->Array_0,
                body: view_exprs(args@).skip(i as int + 1),
            },
        ]);
        assert(make_function_v(env@, view_exprs(args@), i as int) == Some(out@));
    }
    Ok(out)
}

/// Applies a core operation to already-evaluated arguments.  Arithmetic is
/// exact rational arithmetic; `=` decides structural equality; the order
/// comparisons decide the total order; `read-string` reads a source text to
/// the very expression its tokens parse to; the collection operations obey
/// the association laws.
#[verifier::rlimit(100)]
fn apply_values(
    store: &mut Store,
    task: u64,
    env: Environment,
    op: Intrinsic,
    vals: &Vec<Expression>,
    fuel: u64,
) -> (r: Result<(Environment, Expression), RaisedEffect>)
    ensures
        (op == Intrinsic::Add && vals@.len() == 2 && vals@[0]@.is_numeric() && vals@[1]@.is_numeric()
            && fits_num(add_q(vals@[0]@, vals@[1]@))) ==> (r matches Ok(p) && p.0@ == env@ && p.1@
            == as_num_expr(add_q(vals@[0]@, vals@[1]@))),
        (op == Intrinsic::Sub && vals@.len() == 2 && vals@[0]@.is_numeric() && vals@[1]@.is_numeric()
            && fits_num(sub_q(vals@[0]@, vals@[1]@))) ==> (r matches Ok(p) && p.0@ == env@ && p.1@
            == as_num_expr(sub_q(vals@[0]@, vals@[1]@))),
        (op == Intrinsic::Mul && vals@.len() == 2 && vals@[0]@.is_numeric() && vals@[1]@.is_numeric()
            && fits_num(mul_q(vals@[0]@, vals@[1]@))) ==> (r matches Ok(p) && p.0@ == env@ && p.1@
            == as_num_expr(mul_q(vals@[0]@, vals@[1]@))),
        (op == Intrinsic::Div && vals@.len() == 2 && vals@[0]@.is_numeric() && vals@[1]@.is_numeric()
            && vals@[1]@.num_of() != 0 && fits_num(div_q(vals@[0]@, vals@[1]@))) ==> (r matches Ok(p)
            && p.0@ == env@ && p.1@ == as_num_expr(div_q(vals@[0]@, vals@[1]@))),
        (op == Intrinsic::Equal && vals@.len() == 2) ==> (r matches Ok(p) && p.0@ == env@ && p.1@
            == ExprV::Bool(vals@[0]@ == vals@[1]@)),
        (op == Intrinsic::Less && vals@.len() == 2) ==> (r matches Ok(p) && p.0@ == env@ && p.1@
            == ExprV::Bool(cmp_expr(vals@[0]@, vals@[1]@) == Cmp::Lt)),
        (op == Intrinsic::LessEqual && vals@.len() == 2) ==> (r matches Ok(p) && p.0@ == env@
            && p.1@ == ExprV::Bool(cmp_expr(vals@[0]@, vals@[1]@) != Cmp::Gt)),
        (op == Intrinsic::Greater && vals@.len() == 2) ==> (r matches Ok(p) && p.0@ == env@ && p.1@
            == ExprV::Bool(cmp_expr(vals@[0]@, vals@[1]@) == Cmp::Gt)),
        (op == Intrinsic::GreaterEqual && vals@.len() == 2) ==> (r matches Ok(p) && p.0@ == env@
            && p.1@ == ExprV::Bool(cmp_expr(vals@[0]@, vals@[1]@) != Cmp::Lt)),
        (op == Intrinsic::ReadString && vals@.len() == 1 && vals@[0]@ matches ExprV::String(s))
            ==> (match parse_at(tokenize_spec(vals@[0]@->String_0), 0) {
            Some(p) => r matches Ok(q) && q.0@ == env@ && q.1@ == p.0,
            None => r is Err,
        }),
        (op == Intrinsic::Assert && vals@.len() == 1) ==> (if vals@[0]@.is_falsy() {
            r matches Err(e) && e@.effect == "assert"@
        } else {
            r matches Ok(p) && p.0@ == env@ && p.1@ == ExprV::Nil
        }),
        (op == Intrinsic::Str) ==> (r matches Ok(p) && p.0@ == env@ && p.1@ == ExprV::String(
            str_pieces(view_exprs(vals@)),
        )),
        (op == Intrinsic::Assoc && vals@.len() == 3 && vals@[0]@ matches ExprV::Mapping(m)) ==> (
        r matches Ok(p) && p.0@ == env@ && p.1@ == ExprV::Mapping(
            crate::valmap::map_insert_v(vals@[0]@->Mapping_0, vals@[1]@, vals@[2]@),
        )),
        (op == Intrinsic::Dissoc && vals@.len() == 2 && vals@[0]@ matches ExprV::Mapping(m)) ==> (
        r matches Ok(p) && p.0@ == env@ && p.1@ == ExprV::Mapping(
            crate::valmap::map_remove_v(vals@[0]@->Mapping_0, vals@[1]@),
        )),
        (op == Intrinsic::Merge && vals@.len() == 2 && (vals@[0]@ matches ExprV::Mapping(m1) && (
        vals@[1]@ matches ExprV::Mapping(m2)))) ==> (r matches Ok(p) && p.0@ == env@ && p.1@
            == ExprV::Mapping(
            crate::valmap::map_merge_v(vals@[0]@->Mapping_0, vals@[1]@->Mapping_0),
        )),
        (op == Intrinsic::Html && vals@.len() == 1) ==> (match html_v(vals@[0]@) {
            Some(text) => r matches Ok(p) && p.0@ == env@ && p.1@ == ExprV::String(text),
            None => r matches Err(e) && e@.effect == "error"@,
        }),
        (apply_values_v(env@, op, view_exprs(vals@)) matches EvalOut::Value(e2, v) ==> (
        r matches Ok(p) && p.0@ == e2 && p.1@ == v)),
        (apply_values_v(env@, op, view_exprs(vals@)) matches EvalOut::Raise(tag) ==> (
        r matches Err(e) && e@.effect == tag)),
    decreases fuel, *vals, 0nat, 0nat,
{
    proof {
        lemma_view_exprs(vals@);
    }
    match op {
        Intrinsic::Add => {
            if vals.len() != 2 {
                let eff = raise(&env, "type", "expected two numbers");
                return Err(eff);
            }
            match crate::numerics::num_add(&env, &vals[0], &vals[1]) {
                Ok(v) => Ok((env, v)),
                Err(e) => Err(e),
            }
        },
        Intrinsic::Sub => {
            if vals.len() != 2 {
                let eff = raise(&env, "type", "expected two numbers");
                return Err(eff);
            }
            match crate::numerics::num_sub(&env, &vals[0], &vals[1]) {
                Ok(v) => Ok((env, v)),
                Err(e) => Err(e),
            }
        },
        Intrinsic::Mul => {
            if vals.len() != 2 {
                let eff = raise(&env, "type", "expected two numbers");
                return Err(eff);
            }
            match crate::numerics::num_mul(&env, &vals[0], &vals[1]) {
                Ok(v) => Ok((env, v)),
                Err(e) => Err(e),
            }
        },
        Intrinsic::Div => {
            if vals.len() != 2 {
                let eff = raise(&env, "type", "expected two numbers");
                return Err(eff);
            }
            match crate::numerics::num_div(&env, &vals[0], &vals[1]) {
                Ok(v) => Ok((env, v)),
                Err(e) => Err(e),
            }
        },
        Intrinsic::Equal => {
            if vals.len() != 2 {
                let eff = raise(&env, "type", "expected two values");
                return Err(eff);
            }
            let b = expr_eq(&vals[0], &vals[1]);
            Ok((env, Expression::Bool(b)))
        },
        Intrinsic::Less => {
            if vals.len() != 2 {
                let eff = raise(&env, "type", "expected two values");
                return Err(eff);
            }
            let c = compare(&vals[0], &vals[1]);
            Ok((env, Expression::Bool(matches!(c, Cmp::Lt))))
        },
        Intrinsic::LessEqual => {
            if vals.len() != 2 {
                let eff = raise(&env, "type", "expected two values");
                return Err(eff);
            }
            let c = compare(&vals[0], &vals[1]);
            Ok((env, Expression::Bool(!matches!(c, Cmp::Gt))))
        },
        Intrinsic::Greater => {
            if vals.len() != 2 {
                let eff = raise(&env, "type", "expected two values");
                return Err(eff);
            }
            let c = compare(&vals[0], &vals[1]);
            Ok((env, Expression::Bool(matches!(c, Cmp::Gt))))
        },
        Intrinsic::GreaterEqual => {
            if vals.len() != 2 {
                let eff = raise(&env, "type", "expected two values");
                return Err(eff);
            }
            let c = compare(&vals[0], &vals[1]);
            Ok((env, Expression::Bool(!matches!(c, Cmp::Lt))))
        },
        Intrinsic::ReadString => {
            if vals.len() != 1 {
                let eff = raise(&env, "type", "read-string takes one string");
                return Err(eff);
            }
            match &vals[0] {
                Expression::String(s) => {
                    let chars = crate::tokenizer::chars_of(s.as_str());
                    let tokens = crate::tokenizer::tokenize_chars(&chars);
                    match crate::parser::parse(&tokens) {
                        Ok(e) => Ok((env, e)),
                        Err(eff) => Err(eff),
                    }
                },
                _ => {
                    let eff = raise(&env, "type", "read-string takes one string");
                    Err(eff)
                },
            }
        },
        Intrinsic::Assert => {
            if vals.len() != 1 {
                let eff = raise(&env, "type", "assert takes one value");
                return Err(eff);
            }
            if vals[0].falsy() {
                let eff = raise(&env, "assert", "the asserted value is falsy");
                Err(eff)
            } else {
                Ok((env, Expression::Nil))
            }
        },
        Intrinsic::Str => {
            let mut text: Vec<char> = Vec::new();
            let mut j: usize = 0;
            proof {
                assert(view_exprs(vals@).subrange(0, 0) =~= Seq::<ExprV>::empty());
            }
            while j < vals.len()
                invariant
                    j <= vals@.len(),
                    view_exprs(vals@).len() == vals@.len(),
                    forall|k: int| 0 <= k < vals@.len() ==> view_exprs(vals@)[k] == vals@[k]@,
                    text@ == str_pieces(view_exprs(vals@).subrange(0, j as int)),
                decreases vals@.len() - j,
            {
                proof {
                    let vs = view_exprs(vals@);
                    assert(vs.subrange(0, j as int + 1).drop_last() =~= vs.subrange(0, j as int));
                    assert(vs.subrange(0, j as int + 1).last() == vs[j as int]);
                }
                let mut piece = match &vals[j] {
                    Expression::String(s) => crate::tokenizer::chars_of(s.as_str()),
                    other => crate::render::render_chars(other),
                };
                text.append(&mut piece);
                j = j + 1;
            }
            proof {
                assert(view_exprs(vals@).subrange(0, vals@.len() as int) =~= view_exprs(vals@));
            }
            Ok((env, Expression::String(crate::tokenizer::string_of(&text))))
        },
        Intrinsic::Assoc => {
            if vals.len() != 3 {
                let eff = raise(&env, "type", "assoc takes a map, a key and a value");
                return Err(eff);
            }
            match &vals[0] {
                Expression::Mapping(m) => {
                    let m2 = map_insert(m, &vals[1], &vals[2]);
                    Ok((env, Expression::Mapping(m2)))
                },
                _ => {
                    let eff = raise(&env, "type", "expected a map");
                    Err(eff)
                },
            }
        },
        Intrinsic::Dissoc => {
            if vals.len() != 2 {
                let eff = raise(&env, "type", "dissoc takes a map and a key");
                return Err(eff);
            }
            match &vals[0] {
                Expression::Mapping(m) => {
                    let m2 = map_remove(m, &vals[1]);
                    Ok((env, Expression::Mapping(m2)))
                },
                _ => {
                    let eff = raise(&env, "type", "expected a map");
                    Err(eff)
                },
            }
        },
        Intrinsic::Merge => {
            if vals.len() != 2 {
                let eff = raise(&env, "type", "merge takes two maps");
                return Err(eff);
            }
            match (&vals[0], &vals[1]) {
                (Expression::Mapping(m1), Expression::Mapping(m2)) => {
                    let m3 = map_merge(m1, m2);
                    Ok((env, Expression::Mapping(m3)))
                },
                _ => {
                    let eff = raise(&env, "type", "expected a map");
                    Err(eff)
                },
            }
        },
        Intrinsic::Html => {
            if vals.len() != 1 {
                let eff = raise(&env, "type", "html takes one value");
                return Err(eff);
            }
            match html_x(&vals[0]) {
                Some(text) => Ok(
                    (env, Expression::String(crate::tokenizer::string_of(&text))),
                ),
                None => {
                    let eff = error(&env, "Expected keyword");
                    Err(eff)
                },
            }
        },
        Intrinsic::AtomNew => {
            if vals.len() != 1 {
                let eff = raise(&env, "type", "atom takes one value");
                return Err(eff);
            }
            if store.atoms.len() >= 0xffff_ffff {
                let eff = error(&env, "too many atoms");
                return Err(eff);
            }
            let id = store.atom_new(vals[0].duplicate());
            Ok((env, Expression::Atom(id)))
        },
        Intrinsic::Reset => {
            if vals.len() != 2 {
                let eff = raise(&env, "type", "reset! takes an atom and a value");
                return Err(eff);
            }
            match &vals[0] {
                Expression::Atom(id) => {
                    let n = store.atoms.len();
                    if *id < n as u64 {
                        store.atom_set(*id, vals[1].duplicate());
                        Ok((env, vals[1].duplicate()))
                    } else {
                        let eff = raise(&env, "type", "no such atom");
                        Err(eff)
                    }
                },
                _ => {
                    let eff = raise(&env, "type", "expected an atom");
                    Err(eff)
                },
            }
        },
        Intrinsic::Chan => {
            let capacity: usize = if vals.len() == 0 {
                0
            } else {
                match &vals[0] {
                    Expression::Integer(n) => {
                        if *n < 0 {
                            0
                        } else if *n > 0xffff_ffff {
                            0xffff_ffff
                        } else {
                            *n as usize
                        }
                    },
                    _ => {
                        let eff = raise(&env, "type", "chan takes a capacity");
                        return Err(eff);
                    },
                }
            };
            if store.channels.len() >= 0xffff_ffff {
                let eff = error(&env, "too many channels");
                return Err(eff);
            }
            let id = store.chan_new(capacity);
            Ok((env, Expression::Channel(id)))
        },
        Intrinsic::Put => {
            if vals.len() != 2 {
                let eff = raise(&env, "type", "put! takes a channel and a value");
                return Err(eff);
            }
            if fuel == 0 {
                let eff = error(&env, "the evaluation budget is exhausted");
                return Err(eff);
            }
            match &vals[0] {
                Expression::Channel(id) => put_op(
                    store,
                    task,
                    env,
                    *id,
                    vals[1].duplicate(),
                    fuel - 1,
                ),
                _ => {
                    let eff = raise(&env, "type", "expected a channel");
                    Err(eff)
                },
            }
        },
        Intrinsic::Take => {
            if vals.len() != 1 {
                let eff = raise(&env, "type", "take! takes a channel");
                return Err(eff);
            }
            if fuel == 0 {
                let eff = error(&env, "the evaluation budget is exhausted");
                return Err(eff);
            }
            match &vals[0] {
                Expression::Channel(id) => take_op(store, task, env, *id, fuel - 1),
                _ => {
                    let eff = raise(&env, "type", "expected a channel");
                    Err(eff)
                },
            }
        },
        _ => {
            let eff = raise(&env, "type", "this form takes its arguments unevaluated");
            Err(eff)
        },
    }
}

/// Evaluates an expression at the top level: a fresh store, the default
/// budget.
pub fn evaluate(env: Environment, expr: Expression) -> (r: Result<
    (Environment, Expression),
    RaisedEffect,
>)
    ensures
        expr@.is_self_evaluating() ==> (r matches Ok(p) && p.0@ == env@ && p.1@ == expr@),
        (expr@ matches ExprV::Quote(inner) ==> (r matches Ok(p) && p.0@ == env@ && p.1@
            == *inner)),
        (expr@ matches ExprV::Symbol(name) ==> (r matches Ok(p) && p.0@ == env@ && p.1@ == (
        match crate::environment::env_lookup_v(env@, name) {
            Some(v) => v,
            None => ExprV::Symbol(name),
        }))),
        (eval_v(env@, expr@, DEFAULT_FUEL as nat) matches EvalOut::Value(e2, v) ==> (
        r matches Ok(p) && p.0@ == e2 && p.1@ == v)),
        (eval_v(env@, expr@, DEFAULT_FUEL as nat) matches EvalOut::Raise(tag) ==> (
        r matches Err(e) && e@.effect == tag)),
{
    let mut store = Store::new();
    evaluate_with(&mut store, MAIN_TASK, env, &expr, DEFAULT_FUEL)
}

/// Reads one expression from a source text and evaluates it: the reader's
/// failures surface with their exact tags, and the evaluation of the parsed
/// expression is fixed by `eval_v` on the store-free fragment.
pub fn evaluate_source(env: Environment, source: &str) -> (r: Result<
    (Environment, Expression),
    RaisedEffect,
>)
    ensures
        match parse_at(tokenize_spec(source@), 0) {
            Some(p) => {
                &&& (eval_v(env@, p.0, DEFAULT_FUEL as nat) matches EvalOut::Value(e2, v) ==> (
                r matches Ok(q) && q.0@ == e2 && q.1@ == v))
                &&& (eval_v(env@, p.0, DEFAULT_FUEL as nat) matches EvalOut::Raise(tag) ==> (
                r matches Err(e) && e@.effect == tag))
            },
            None => r matches Err(e) && e@.effect == crate::parser::parse_fail_tag(
                tokenize_spec(source@),
            ),
        },
{
    let tokens = crate::tokenizer::tokenize(source);
    match crate::parser::parse(&tokens) {
        Ok(expr) => evaluate(env, expr),
        Err(eff) => Err(eff),
    }
}

/// Reads one expression from a source text and evaluates it against a
/// store, threading the environment; the contract is that of
/// `evaluate_source`, against the given store.
pub fn evaluate_source_with(
    store: &mut Store,
    env: Environment,
    source: &str,
) -> (r: Result<(Environment, Expression), RaisedEffect>)
    ensures
        match parse_at(tokenize_spec(source@), 0) {
            Some(p) => {
                &&& (eval_v(env@, p.0, DEFAULT_FUEL as nat) matches EvalOut::Value(e2, v) ==> (
                r matches Ok(q) && q.0@ == e2 && q.1@ == v))
                &&& (eval_v(env@, p.0, DEFAULT_FUEL as nat) matches EvalOut::Raise(tag) ==> (
                r matches Err(e) && e@.effect == tag))
            },
            None => r matches Err(e) && e@.effect == crate::parser::parse_fail_tag(
                tokenize_spec(source@),
            ),
        },
{
    let tokens = crate::tokenizer::tokenize(source);
    match crate::parser::parse(&tokens) {
        Ok(expr) => evaluate_with(store, MAIN_TASK, env, &expr, DEFAULT_FUEL),
        Err(eff) => Err(eff),
    }
}


/// Runs every pending spawned task to completion or suspension, in order:
/// the host drives the cooperative schedule between top-level evaluations.
/// On success no task is left waiting to run: each has finished or is
/// suspended at a channel.
pub fn drain_tasks(store: &mut Store, env: &Environment, fuel: u64) -> (r: Result<
    (),
    RaisedEffect,
>)
    ensures
        r is Ok ==> final(store).pending@.len() == 0,
    decreases fuel,
{
    if fuel == 0 {
        let eff = error(env, "the evaluation budget is exhausted");
        return Err(eff);
    }
    match run_one_pending(store, env, fuel - 1) {
        Ok(true) => drain_tasks(store, env, fuel - 1),
        Ok(false) => Ok(()),
        Err(e) => Err(e),
    }
}

} // verus!
