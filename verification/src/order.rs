//! The total order on values: variant tags order mixed comparisons, except
//! that `Integer` and `Ratio` compare by mathematical value; text compares
//! lexicographically by code point; sequences, mappings and functions compare
//! structurally.  Values that compare equal are equal.

use vstd::prelude::*;

use crate::expression::EnvV;
use crate::expression::ExprV;
use crate::expression::Expression;
use crate::expression::Float;
use crate::expression::MAX_FLOAT_SCALE;
use crate::expression::Intrinsic;
use crate::expression::Pattern;
use crate::expression::PatternV;
use crate::expression::lemma_view_env_entries;
use crate::expression::view_env_entries;
use crate::expression::view_expr_pairs;
use crate::expression::view_exprs;
use crate::expression::view_patterns;
use crate::expression::lemma_view_expr_pairs;
use crate::expression::lemma_view_exprs;
use crate::expression::lemma_view_patterns;

verus! {

broadcast use vstd::std_specs::vec::group_vec_axioms, vstd::seq::group_seq_axioms;

/// The outcome of a comparison.
#[derive(Debug, Clone, Copy, PartialEq, Eq, Structural)]
pub enum Cmp {
    Lt,
    Eq,
    Gt,
}

/// Swaps `Lt` and `Gt`.
pub open spec fn flip_cmp(c: Cmp) -> Cmp {
    match c {
        Cmp::Lt => Cmp::Gt,
        Cmp::Eq => Cmp::Eq,
        Cmp::Gt => Cmp::Lt,
    }
}

pub open spec fn cmp_int(a: int, b: int) -> Cmp {
    if a < b {
        Cmp::Lt
    } else if a == b {
        Cmp::Eq
    } else {
        Cmp::Gt
    }
}

/// Lexicographic comparison of text from position `i` on.
pub open spec fn cmp_str_from(a: Seq<char>, b: Seq<char>, i: int) -> Cmp
    decreases a.len() - i,
{
    if i < 0 {
        Cmp::Eq
    } else if i >= a.len() && i >= b.len() {
        Cmp::Eq
    } else if i >= a.len() {
        Cmp::Lt
    } else if i >= b.len() {
        Cmp::Gt
    } else if (a[i] as u32) < (b[i] as u32) {
        Cmp::Lt
    } else if (a[i] as u32) > (b[i] as u32) {
        Cmp::Gt
    } else {
        cmp_str_from(a, b, i + 1)
    }
}

pub open spec fn cmp_str(a: Seq<char>, b: Seq<char>) -> Cmp {
    cmp_str_from(a, b, 0)
}

/// `10^n`.
pub open spec fn pow10(n: nat) -> int
    decreases n,
{
    if n == 0 {
        1
    } else {
        10 * pow10((n - 1) as nat)
    }
}

impl ExprV {
    /// The variants that take part in comparison by mathematical value.
    pub open spec fn is_numeric(self) -> bool {
        self is Integer || self is Ratio
    }

    /// The numerator of a numeric value.
    pub open spec fn num_of(self) -> int {
        match self {
            ExprV::Integer(i) => i as int,
            ExprV::Ratio(n, _) => n as int,
            _ => 0,
        }
    }

    /// The denominator of a numeric value, coerced positive so the order is
    /// total on every representation.
    pub open spec fn den_of(self) -> int {
        match self {
            ExprV::Ratio(_, d) => if d >= 1 { d as int } else { 1 },
            _ => 1,
        }
    }
}

/// The index of an intrinsic inside its declaration order.
pub open spec fn intrinsic_rank(i: Intrinsic) -> int {
    match i {
        Intrinsic::Add => 0,
        Intrinsic::Sub => 1,
        Intrinsic::Mul => 2,
        Intrinsic::Div => 3,
        Intrinsic::Equal => 4,
        Intrinsic::Less => 5,
        Intrinsic::LessEqual => 6,
        Intrinsic::Greater => 7,
        Intrinsic::GreaterEqual => 8,
        Intrinsic::If => 9,
        Intrinsic::When => 10,
        Intrinsic::Def => 11,
        Intrinsic::Fn => 12,
        Intrinsic::Defn => 13,
        Intrinsic::Quote => 14,
        Intrinsic::Eval => 15,
        Intrinsic::ReadString => 16,
        Intrinsic::Assert => 17,
        Intrinsic::Str => 18,
        Intrinsic::Assoc => 19,
        Intrinsic::Dissoc => 20,
        Intrinsic::Merge => 21,
        Intrinsic::Html => 22,
        Intrinsic::AtomNew => 23,
        Intrinsic::Reset => 24,
        Intrinsic::Swap => 25,
        Intrinsic::Chan => 26,
        Intrinsic::Put => 27,
        Intrinsic::Take => 28,
        Intrinsic::Spawn => 29,
    }
}

/// Comparison of two numeric values: by mathematical value first, then by
/// representation, so equal outcomes mean identical representations.
pub open spec fn cmp_num(a: ExprV, b: ExprV) -> Cmp {
    let c = cmp_int(a.num_of() * b.den_of(), b.num_of() * a.den_of());
    if c != Cmp::Eq {
        c
    } else {
        let c2 = cmp_int(if a is Ratio { 1int } else { 0int }, if b is Ratio { 1int } else { 0int });
        if c2 != Cmp::Eq {
            c2
        } else {
            match (a, b) {
                (ExprV::Ratio(n1, d1), ExprV::Ratio(n2, d2)) => {
                    let c3 = cmp_int(d1 as int, d2 as int);
                    if c3 != Cmp::Eq {
                        c3
                    } else {
                        cmp_int(n1 as int, n2 as int)
                    }
                },
                _ => Cmp::Eq,
            }
        }
    }
}

/// The scale of a decimal clamped to the canonical bound, so comparison stays
/// within machine arithmetic for every representation.
pub open spec fn eff_scale(s: u32) -> nat {
    if s <= MAX_FLOAT_SCALE {
        s as nat
    } else {
        MAX_FLOAT_SCALE as nat
    }
}

/// Comparison of two decimals: by mathematical value first, then by
/// representation.
pub open spec fn cmp_float(a: Float, b: Float) -> Cmp {
    let c = cmp_int(a.mantissa * pow10(eff_scale(b.scale)), b.mantissa * pow10(eff_scale(a.scale)));
    if c != Cmp::Eq {
        c
    } else {
        let c2 = cmp_int(a.scale as int, b.scale as int);
        if c2 != Cmp::Eq {
            c2
        } else {
            cmp_int(a.mantissa as int, b.mantissa as int)
        }
    }
}

/// The total order on values.
pub open spec fn cmp_expr(a: ExprV, b: ExprV) -> Cmp
    decreases a, 0nat,
{
    if a.is_numeric() && b.is_numeric() {
        cmp_num(a, b)
    } else if a.rank() != b.rank() {
        cmp_int(a.rank(), b.rank())
    } else {
        match (a, b) {
            (ExprV::Nil, ExprV::Nil) => Cmp::Eq,
            (ExprV::Bool(x), ExprV::Bool(y)) => cmp_int(
                if x { 1int } else { 0int },
                if y { 1int } else { 0int },
            ),
            (ExprV::Float(x), ExprV::Float(y)) => cmp_float(x, y),
            (ExprV::String(x), ExprV::String(y)) => cmp_str(x, y),
            (ExprV::Symbol(x), ExprV::Symbol(y)) => cmp_str(x, y),
            (ExprV::NamespacedSymbol(x), ExprV::NamespacedSymbol(y)) => cmp_str(x, y),
            (ExprV::Keyword(x), ExprV::Keyword(y)) => cmp_str(x, y),
            (ExprV::Array(x), ExprV::Array(y)) => cmp_seq_from(x, y, 0),
            (ExprV::Mapping(x), ExprV::Mapping(y)) => cmp_pairs_from(x, y, 0),
            (
                ExprV::Call { function: f1, arguments: a1 },
                ExprV::Call { function: f2, arguments: a2 },
            ) => {
                let c = cmp_expr(*f1, *f2);
                if c != Cmp::Eq {
                    c
                } else {
                    cmp_seq_from(a1, a2, 0)
                }
            },
            (ExprV::Quote(x), ExprV::Quote(y)) => cmp_expr(*x, *y),
            (ExprV::Deref(x), ExprV::Deref(y)) => cmp_expr(*x, *y),
            (
                ExprV::Function { env: e1, patterns: p1 },
                ExprV::Function { env: e2, patterns: p2 },
            ) => {
                let c = cmp_env_from(e1, e2, 0);
                if c != Cmp::Eq {
                    c
                } else {
                    cmp_patterns_from(p1, p2, 0)
                }
            },
            (ExprV::IntrinsicFunction(x), ExprV::IntrinsicFunction(y)) => cmp_int(
                intrinsic_rank(x),
                intrinsic_rank(y),
            ),
            (ExprV::NativeFunction(x), ExprV::NativeFunction(y)) => cmp_int(x as int, y as int),
            (ExprV::Atom(x), ExprV::Atom(y)) => cmp_int(x as int, y as int),
            (ExprV::Channel(x), ExprV::Channel(y)) => cmp_int(x as int, y as int),
            (ExprV::Module(x), ExprV::Module(y)) => cmp_env_from(x, y, 0),
            (ExprV::NativeType(x), ExprV::NativeType(y)) => cmp_int(x as int, y as int),
            _ => Cmp::Eq,
        }
    }
}

/// Lexicographic comparison of value sequences from position `i` on; a
/// proper prefix comes first.
pub open spec fn cmp_seq_from(a: Seq<ExprV>, b: Seq<ExprV>, i: int) -> Cmp
    decreases a, a.len() - i, 1nat,
{
    if i < 0 {
        Cmp::Eq
    } else if i >= a.len() && i >= b.len() {
        Cmp::Eq
    } else if i >= a.len() {
        Cmp::Lt
    } else if i >= b.len() {
        Cmp::Gt
    } else {
        let c = cmp_expr(a[i], b[i]);
        if c != Cmp::Eq {
            c
        } else {
            cmp_seq_from(a, b, i + 1)
        }
    }
}

/// Lexicographic comparison of key/value entry sequences.
pub open spec fn cmp_pairs_from(a: Seq<(ExprV, ExprV)>, b: Seq<(ExprV, ExprV)>, i: int) -> Cmp
    decreases a, a.len() - i, 1nat,
{
    if i < 0 {
        Cmp::Eq
    } else if i >= a.len() && i >= b.len() {
        Cmp::Eq
    } else if i >= a.len() {
        Cmp::Lt
    } else if i >= b.len() {
        Cmp::Gt
    } else {
        let c = cmp_expr(a[i].0, b[i].0);
        if c != Cmp::Eq {
            c
        } else {
            let c2 = cmp_expr(a[i].1, b[i].1);
            if c2 != Cmp::Eq {
                c2
            } else {
                cmp_pairs_from(a, b, i + 1)
            }
        }
    }
}

/// Lexicographic comparison of environment entry sequences.
pub open spec fn cmp_env_from(a: EnvV, b: EnvV, i: int) -> Cmp
    decreases a, a.len() - i, 1nat,
{
    if i < 0 {
        Cmp::Eq
    } else if i >= a.len() && i >= b.len() {
        Cmp::Eq
    } else if i >= a.len() {
        Cmp::Lt
    } else if i >= b.len() {
        Cmp::Gt
    } else {
        let c = cmp_str(a[i].0, b[i].0);
        if c != Cmp::Eq {
            c
        } else {
            let c2 = cmp_expr(a[i].1, b[i].1);
            if c2 != Cmp::Eq {
                c2
            } else {
                cmp_env_from(a, b, i + 1)
            }
        }
    }
}

/// Lexicographic comparison of pattern clause sequences.
pub open spec fn cmp_patterns_from(a: Seq<PatternV>, b: Seq<PatternV>, i: int) -> Cmp
    decreases a, a.len() - i, 1nat,
{
    if i < 0 {
        Cmp::Eq
    } else if i >= a.len() && i >= b.len() {
        Cmp::Eq
    } else if i >= a.len() {
        Cmp::Lt
    } else if i >= b.len() {
        Cmp::Gt
    } else {
        let c = cmp_seq_from(a[i].parameters, b[i].parameters, 0);
        if c != Cmp::Eq {
            c
        } else {
            let c2 = cmp_seq_from(a[i].body, b[i].body, 0);
            if c2 != Cmp::Eq {
                c2
            } else {
                cmp_patterns_from(a, b, i + 1)
            }
        }
    }
}



/// Distinct characters have distinct code points.
pub proof fn lemma_char_cast(a: char, b: char)
    ensures
        (a as u32) == (b as u32) ==> a == b,
{
}

/// Every value compares equal to itself.
pub proof fn lemma_cmp_refl(a: ExprV)
    ensures
        cmp_expr(a, a) == Cmp::Eq,
    decreases a, 0nat,
{
    match a {
        ExprV::Array(x) => lemma_cmp_seq_refl(x, 0),
        ExprV::Mapping(x) => lemma_cmp_pairs_refl(x, 0),
        ExprV::Call { function, arguments } => {
            lemma_cmp_refl(*function);
            lemma_cmp_seq_refl(arguments, 0);
        },
        ExprV::Quote(x) => lemma_cmp_refl(*x),
        ExprV::Deref(x) => lemma_cmp_refl(*x),
        ExprV::Function { env, patterns } => {
            lemma_cmp_env_refl(env, 0);
            lemma_cmp_patterns_refl(patterns, 0);
        },
        ExprV::Module(x) => lemma_cmp_env_refl(x, 0),
        ExprV::String(x) => lemma_cmp_str_refl(x, 0),
        ExprV::Symbol(x) => lemma_cmp_str_refl(x, 0),
        ExprV::NamespacedSymbol(x) => lemma_cmp_str_refl(x, 0),
        ExprV::Keyword(x) => lemma_cmp_str_refl(x, 0),
        _ => {},
    }
}

pub proof fn lemma_cmp_str_refl(a: Seq<char>, i: int)
    ensures
        cmp_str_from(a, a, i) == Cmp::Eq,
    decreases a.len() - i,
{
    if 0 <= i && i < a.len() {
        lemma_cmp_str_refl(a, i + 1);
    }
}

pub proof fn lemma_cmp_seq_refl(a: Seq<ExprV>, i: int)
    ensures
        cmp_seq_from(a, a, i) == Cmp::Eq,
    decreases a, a.len() - i, 1nat,
{
    if 0 <= i && i < a.len() {
        lemma_cmp_refl(a[i]);
        lemma_cmp_seq_refl(a, i + 1);
    }
}

pub proof fn lemma_cmp_pairs_refl(a: Seq<(ExprV, ExprV)>, i: int)
    ensures
        cmp_pairs_from(a, a, i) == Cmp::Eq,
    decreases a, a.len() - i, 1nat,
{
    if 0 <= i && i < a.len() {
        lemma_cmp_refl(a[i].0);
        lemma_cmp_refl(a[i].1);
        lemma_cmp_pairs_refl(a, i + 1);
    }
}

pub proof fn lemma_cmp_env_refl(a: EnvV, i: int)
    ensures
        cmp_env_from(a, a, i) == Cmp::Eq,
    decreases a, a.len() - i, 1nat,
{
    if 0 <= i && i < a.len() {
        lemma_cmp_str_refl(a[i].0, 0);
        lemma_cmp_refl(a[i].1);
        lemma_cmp_env_refl(a, i + 1);
    }
}

pub proof fn lemma_cmp_patterns_refl(a: Seq<PatternV>, i: int)
    ensures
        cmp_patterns_from(a, a, i) == Cmp::Eq,
    decreases a, a.len() - i, 1nat,
{
    if 0 <= i && i < a.len() {
        lemma_cmp_seq_refl(a[i].parameters, 0);
        lemma_cmp_seq_refl(a[i].body, 0);
        lemma_cmp_patterns_refl(a, i + 1);
    }
}

/// Values that compare equal are equal.
pub proof fn lemma_cmp_eq(a: ExprV, b: ExprV)
    ensures
        cmp_expr(a, b) == Cmp::Eq ==> a == b,
    decreases a, 0nat,
{
    if cmp_expr(a, b) == Cmp::Eq {
        match (a, b) {
            (ExprV::Array(x), ExprV::Array(y)) => {
                lemma_cmp_seq_eq(x, y, 0);
                assert(x =~= y);
                assert(a == b);
            },
            (ExprV::Mapping(x), ExprV::Mapping(y)) => {
                lemma_cmp_pairs_eq(x, y, 0);
                assert(x =~= y);
                assert(a == b);
            },
            (
                ExprV::Call { function: f1, arguments: a1 },
                ExprV::Call { function: f2, arguments: a2 },
            ) => {
                lemma_cmp_eq(*f1, *f2);
                lemma_cmp_seq_eq(a1, a2, 0);
                assert(a1 =~= a2);
                assert(a == b);
            },
            (ExprV::Quote(x), ExprV::Quote(y)) => {
                lemma_cmp_eq(*x, *y);
                assert(a == b);
            },
            (ExprV::Deref(x), ExprV::Deref(y)) => {
                lemma_cmp_eq(*x, *y);
                assert(a == b);
            },
            (
                ExprV::Function { env: e1, patterns: p1 },
                ExprV::Function { env: e2, patterns: p2 },
            ) => {
                lemma_cmp_env_eq(e1, e2, 0);
                lemma_cmp_patterns_eq(p1, p2, 0);
                assert(e1 =~= e2);
                assert(p1 =~= p2);
                assert(a == b);
            },
            (ExprV::Module(x), ExprV::Module(y)) => {
                lemma_cmp_env_eq(x, y, 0);
                assert(x =~= y);
                assert(a == b);
            },
            (ExprV::String(x), ExprV::String(y)) => {
                lemma_cmp_str_eq(x, y, 0);
                assert(x =~= y);
                assert(a == b);
            },
            (ExprV::Symbol(x), ExprV::Symbol(y)) => {
                lemma_cmp_str_eq(x, y, 0);
                assert(x =~= y);
                assert(a == b);
            },
            (ExprV::NamespacedSymbol(x), ExprV::NamespacedSymbol(y)) => {
                lemma_cmp_str_eq(x, y, 0);
                assert(x =~= y);
                assert(a == b);
            },
            (ExprV::Keyword(x), ExprV::Keyword(y)) => {
                lemma_cmp_str_eq(x, y, 0);
                assert(x =~= y);
                assert(a == b);
            },
            _ => {},
        }
    }
}

pub proof fn lemma_cmp_str_eq(a: Seq<char>, b: Seq<char>, i: int)
    ensures
        (0 <= i && i <= a.len() && i <= b.len() && cmp_str_from(a, b, i) == Cmp::Eq) ==> (a.len() == b.len() && forall|j: int|
            i <= j < a.len() ==> a[j] == b[j]),
    decreases a.len() - i,
{
    if 0 <= i && i <= a.len() && i <= b.len() && cmp_str_from(a, b, i) == Cmp::Eq && i < a.len() {
        lemma_char_cast(a[i], b[i]);
        lemma_cmp_str_eq(a, b, i + 1);
    }
}

pub proof fn lemma_cmp_seq_eq(a: Seq<ExprV>, b: Seq<ExprV>, i: int)
    ensures
        (0 <= i && i <= a.len() && i <= b.len() && cmp_seq_from(a, b, i) == Cmp::Eq) ==> (a.len() == b.len() && forall|j: int|
            i <= j < a.len() ==> a[j] == b[j]),
    decreases a, a.len() - i, 1nat,
{
    if 0 <= i && i <= a.len() && i <= b.len() && cmp_seq_from(a, b, i) == Cmp::Eq && i < a.len() {
        lemma_cmp_eq(a[i], b[i]);
        lemma_cmp_seq_eq(a, b, i + 1);
    }
}

pub proof fn lemma_cmp_pairs_eq(a: Seq<(ExprV, ExprV)>, b: Seq<(ExprV, ExprV)>, i: int)
    ensures
        (0 <= i && i <= a.len() && i <= b.len() && cmp_pairs_from(a, b, i) == Cmp::Eq) ==> (a.len() == b.len() && forall|j: int|
            i <= j < a.len() ==> a[j] == b[j]),
    decreases a, a.len() - i, 1nat,
{
    if 0 <= i && i <= a.len() && i <= b.len() && cmp_pairs_from(a, b, i) == Cmp::Eq && i < a.len() {
        lemma_cmp_eq(a[i].0, b[i].0);
        lemma_cmp_eq(a[i].1, b[i].1);
        lemma_cmp_pairs_eq(a, b, i + 1);
    }
}

pub proof fn lemma_cmp_env_eq(a: EnvV, b: EnvV, i: int)
    ensures
        (0 <= i && i <= a.len() && i <= b.len() && cmp_env_from(a, b, i) == Cmp::Eq) ==> (a.len() == b.len() && forall|j: int|
            i <= j < a.len() ==> a[j] == b[j]),
    decreases a, a.len() - i, 1nat,
{
    if 0 <= i && i <= a.len() && i <= b.len() && cmp_env_from(a, b, i) == Cmp::Eq && i < a.len() {
        lemma_cmp_str_eq(a[i].0, b[i].0, 0);
        lemma_cmp_eq(a[i].1, b[i].1);
        assert(a[i].0 =~= b[i].0);
        lemma_cmp_env_eq(a, b, i + 1);
    }
}

pub proof fn lemma_cmp_patterns_eq(a: Seq<PatternV>, b: Seq<PatternV>, i: int)
    ensures
        (0 <= i && i <= a.len() && i <= b.len() && cmp_patterns_from(a, b, i) == Cmp::Eq) ==> (a.len() == b.len() && forall|j: int|
            i <= j < a.len() ==> a[j] == b[j]),
    decreases a, a.len() - i, 1nat,
{
    if 0 <= i && i <= a.len() && i <= b.len() && cmp_patterns_from(a, b, i) == Cmp::Eq && i < a.len() {
        lemma_cmp_seq_eq(a[i].parameters, b[i].parameters, 0);
        lemma_cmp_seq_eq(a[i].body, b[i].body, 0);
        assert(a[i].parameters =~= b[i].parameters);
        assert(a[i].body =~= b[i].body);
        assert(a[i] == b[i]);
        lemma_cmp_patterns_eq(a, b, i + 1);
    }
}


/// Comparison is antisymmetric: swapping the arguments flips the outcome.
pub proof fn lemma_cmp_flip(a: ExprV, b: ExprV)
    ensures
        cmp_expr(b, a) == flip_cmp(cmp_expr(a, b)),
    decreases a, 0nat,
{
    match (a, b) {
        (ExprV::Array(x), ExprV::Array(y)) => lemma_cmp_seq_flip(x, y, 0),
        (ExprV::Mapping(x), ExprV::Mapping(y)) => lemma_cmp_pairs_flip(x, y, 0),
        (
            ExprV::Call { function: f1, arguments: a1 },
            ExprV::Call { function: f2, arguments: a2 },
        ) => {
            lemma_cmp_flip(*f1, *f2);
            lemma_cmp_seq_flip(a1, a2, 0);
        },
        (ExprV::Quote(x), ExprV::Quote(y)) => lemma_cmp_flip(*x, *y),
        (ExprV::Deref(x), ExprV::Deref(y)) => lemma_cmp_flip(*x, *y),
        (
            ExprV::Function { env: e1, patterns: p1 },
            ExprV::Function { env: e2, patterns: p2 },
        ) => {
            lemma_cmp_env_flip(e1, e2, 0);
            lemma_cmp_patterns_flip(p1, p2, 0);
        },
        (ExprV::Module(x), ExprV::Module(y)) => lemma_cmp_env_flip(x, y, 0),
        (ExprV::String(x), ExprV::String(y)) => lemma_cmp_str_flip(x, y, 0),
        (ExprV::Symbol(x), ExprV::Symbol(y)) => lemma_cmp_str_flip(x, y, 0),
        (ExprV::NamespacedSymbol(x), ExprV::NamespacedSymbol(y)) => lemma_cmp_str_flip(x, y, 0),
        (ExprV::Keyword(x), ExprV::Keyword(y)) => lemma_cmp_str_flip(x, y, 0),
        _ => {},
    }
}

pub proof fn lemma_cmp_str_flip(a: Seq<char>, b: Seq<char>, i: int)
    ensures
        cmp_str_from(b, a, i) == flip_cmp(cmp_str_from(a, b, i)),
    decreases a.len() - i,
{
    if 0 <= i && i < a.len() && i < b.len() && !((a[i] as u32) < (b[i] as u32)) && !((
    a[i] as u32) > (b[i] as u32)) {
        lemma_cmp_str_flip(a, b, i + 1);
    }
}

pub proof fn lemma_cmp_seq_flip(a: Seq<ExprV>, b: Seq<ExprV>, i: int)
    ensures
        cmp_seq_from(b, a, i) == flip_cmp(cmp_seq_from(a, b, i)),
    decreases a, a.len() - i, 1nat,
{
    if 0 <= i && i < a.len() && i < b.len() {
        lemma_cmp_flip(a[i], b[i]);
        if cmp_expr(a[i], b[i]) == Cmp::Eq {
            lemma_cmp_seq_flip(a, b, i + 1);
        }
    }
}

pub proof fn lemma_cmp_pairs_flip(a: Seq<(ExprV, ExprV)>, b: Seq<(ExprV, ExprV)>, i: int)
    ensures
        cmp_pairs_from(b, a, i) == flip_cmp(cmp_pairs_from(a, b, i)),
    decreases a, a.len() - i, 1nat,
{
    if 0 <= i && i < a.len() && i < b.len() {
        lemma_cmp_flip(a[i].0, b[i].0);
        lemma_cmp_flip(a[i].1, b[i].1);
        if cmp_expr(a[i].0, b[i].0) == Cmp::Eq && cmp_expr(a[i].1, b[i].1) == Cmp::Eq {
            lemma_cmp_pairs_flip(a, b, i + 1);
        }
    }
}

pub proof fn lemma_cmp_env_flip(a: EnvV, b: EnvV, i: int)
    ensures
        cmp_env_from(b, a, i) == flip_cmp(cmp_env_from(a, b, i)),
    decreases a, a.len() - i, 1nat,
{
    if 0 <= i && i < a.len() && i < b.len() {
        lemma_cmp_str_flip(a[i].0, b[i].0, 0);
        lemma_cmp_flip(a[i].1, b[i].1);
        if cmp_str(a[i].0, b[i].0) == Cmp::Eq && cmp_expr(a[i].1, b[i].1) == Cmp::Eq {
            lemma_cmp_env_flip(a, b, i + 1);
        }
    }
}

pub proof fn lemma_cmp_patterns_flip(a: Seq<PatternV>, b: Seq<PatternV>, i: int)
    ensures
        cmp_patterns_from(b, a, i) == flip_cmp(cmp_patterns_from(a, b, i)),
    decreases a, a.len() - i, 1nat,
{
    if 0 <= i && i < a.len() && i < b.len() {
        lemma_cmp_seq_flip(a[i].parameters, b[i].parameters, 0);
        lemma_cmp_seq_flip(a[i].body, b[i].body, 0);
        if cmp_seq_from(a[i].parameters, b[i].parameters, 0) == Cmp::Eq && cmp_seq_from(
            a[i].body,
            b[i].body,
            0,
        ) == Cmp::Eq {
            lemma_cmp_patterns_flip(a, b, i + 1);
        }
    }
}

/// Transitivity of the strict part of the cross-multiplied rational order.
proof fn lemma_q_lt_lt(an: int, ad: int, bn: int, bd: int, cn: int, cd: int)
    requires
        ad >= 1,
        bd >= 1,
        cd >= 1,
        an * bd < bn * ad,
        bn * cd < cn * bd,
    ensures
        an * cd < cn * ad,
{
    assert(an * cd < cn * ad) by (nonlinear_arith)
        requires
            ad >= 1,
            bd >= 1,
            cd >= 1,
            an * bd < bn * ad,
            bn * cd < cn * bd,
    ;
}

/// A strict step followed by an equality step stays strict.
proof fn lemma_q_lt_eq(an: int, ad: int, bn: int, bd: int, cn: int, cd: int)
    requires
        ad >= 1,
        bd >= 1,
        cd >= 1,
        an * bd < bn * ad,
        bn * cd == cn * bd,
    ensures
        an * cd < cn * ad,
{
    assert(an * cd < cn * ad) by (nonlinear_arith)
        requires
            ad >= 1,
            bd >= 1,
            cd >= 1,
            an * bd < bn * ad,
            bn * cd == cn * bd,
    ;
}

/// An equality step followed by a strict step stays strict.
proof fn lemma_q_eq_lt(an: int, ad: int, bn: int, bd: int, cn: int, cd: int)
    requires
        ad >= 1,
        bd >= 1,
        cd >= 1,
        an * bd == bn * ad,
        bn * cd < cn * bd,
    ensures
        an * cd < cn * ad,
{
    assert(an * cd < cn * ad) by (nonlinear_arith)
        requires
            ad >= 1,
            bd >= 1,
            cd >= 1,
            an * bd == bn * ad,
            bn * cd < cn * bd,
    ;
}

/// Equality of cross products is transitive.
proof fn lemma_q_eq_eq(an: int, ad: int, bn: int, bd: int, cn: int, cd: int)
    requires
        ad >= 1,
        bd >= 1,
        cd >= 1,
        an * bd == bn * ad,
        bn * cd == cn * bd,
    ensures
        an * cd == cn * ad,
{
    assert(an * cd == cn * ad) by (nonlinear_arith)
        requires
            ad >= 1,
            bd >= 1,
            cd >= 1,
            an * bd == bn * ad,
            bn * cd == cn * bd,
    ;
}

/// Ten to any power is positive.
pub proof fn lemma_pow10_pos(n: nat)
    ensures
        pow10(n) >= 1,
    decreases n,
{
    if n > 0 {
        lemma_pow10_pos((n - 1) as nat);
    }
}

/// Transitivity of the numeric comparison.
proof fn lemma_cmp_num_trans(a: ExprV, b: ExprV, c: ExprV)
    requires
        a.is_numeric(),
        b.is_numeric(),
        c.is_numeric(),
        cmp_num(a, b) == Cmp::Lt,
        cmp_num(b, c) == Cmp::Lt,
    ensures
        cmp_num(a, c) == Cmp::Lt,
{
    let (an, ad) = (a.num_of(), a.den_of());
    let (bn, bd) = (b.num_of(), b.den_of());
    let (cn, cd) = (c.num_of(), c.den_of());
    if an * bd < bn * ad {
        if bn * cd < cn * bd {
            lemma_q_lt_lt(an, ad, bn, bd, cn, cd);
        } else {
            lemma_q_lt_eq(an, ad, bn, bd, cn, cd);
        }
    } else {
        if bn * cd < cn * bd {
            lemma_q_eq_lt(an, ad, bn, bd, cn, cd);
        } else {
            lemma_q_eq_eq(an, ad, bn, bd, cn, cd);
        }
    }
}

/// Transitivity of the decimal comparison.
proof fn lemma_cmp_float_trans(a: Float, b: Float, c: Float)
    requires
        cmp_float(a, b) == Cmp::Lt,
        cmp_float(b, c) == Cmp::Lt,
    ensures
        cmp_float(a, c) == Cmp::Lt,
{
    let (an, ad) = (a.mantissa as int, pow10(eff_scale(a.scale)));
    let (bn, bd) = (b.mantissa as int, pow10(eff_scale(b.scale)));
    let (cn, cd) = (c.mantissa as int, pow10(eff_scale(c.scale)));
    lemma_pow10_pos(eff_scale(a.scale));
    lemma_pow10_pos(eff_scale(b.scale));
    lemma_pow10_pos(eff_scale(c.scale));
    if an * bd < bn * ad {
        if bn * cd < cn * bd {
            lemma_q_lt_lt(an, ad, bn, bd, cn, cd);
        } else {
            lemma_q_lt_eq(an, ad, bn, bd, cn, cd);
        }
    } else {
        if bn * cd < cn * bd {
            lemma_q_eq_lt(an, ad, bn, bd, cn, cd);
        } else {
            lemma_q_eq_eq(an, ad, bn, bd, cn, cd);
        }
    }
}

pub proof fn lemma_cmp_str_trans(a: Seq<char>, b: Seq<char>, c: Seq<char>, i: int)
    ensures
        (0 <= i && cmp_str_from(a, b, i) == Cmp::Lt && cmp_str_from(b, c, i) == Cmp::Lt)
            ==> cmp_str_from(a, c, i) == Cmp::Lt,
    decreases a.len() - i,
{
    if 0 <= i && cmp_str_from(a, b, i) == Cmp::Lt && cmp_str_from(b, c, i) == Cmp::Lt {
        if i < a.len() && i < b.len() && i < c.len() && (a[i] as u32) == (b[i] as u32) && (
        b[i] as u32) == (c[i] as u32) {
            lemma_cmp_str_trans(a, b, c, i + 1);
        }
    }
}

/// Comparison is transitive: the order on values is total.
pub proof fn lemma_cmp_trans(a: ExprV, b: ExprV, c: ExprV)
    ensures
        (cmp_expr(a, b) == Cmp::Lt && cmp_expr(b, c) == Cmp::Lt) ==> cmp_expr(a, c) == Cmp::Lt,
    decreases a, 0nat,
{
    if cmp_expr(a, b) == Cmp::Lt && cmp_expr(b, c) == Cmp::Lt {
        if a.is_numeric() && b.is_numeric() && c.is_numeric() {
            lemma_cmp_num_trans(a, b, c);
        } else {
            assert(a.rank() <= b.rank() && b.rank() <= c.rank());
            if a.rank() == c.rank() {
                match (a, b, c) {
                    (ExprV::Float(x), ExprV::Float(y), ExprV::Float(z)) => {
                        lemma_cmp_float_trans(x, y, z);
                    },
                    (ExprV::String(x), ExprV::String(y), ExprV::String(z)) => {
                        lemma_cmp_str_trans(x, y, z, 0);
                    },
                    (ExprV::Symbol(x), ExprV::Symbol(y), ExprV::Symbol(z)) => {
                        lemma_cmp_str_trans(x, y, z, 0);
                    },
                    (
                        ExprV::NamespacedSymbol(x),
                        ExprV::NamespacedSymbol(y),
                        ExprV::NamespacedSymbol(z),
                    ) => {
                        lemma_cmp_str_trans(x, y, z, 0);
                    },
                    (ExprV::Keyword(x), ExprV::Keyword(y), ExprV::Keyword(z)) => {
                        lemma_cmp_str_trans(x, y, z, 0);
                    },
                    (ExprV::Array(x), ExprV::Array(y), ExprV::Array(z)) => {
                        lemma_cmp_seq_trans(x, y, z, 0);
                    },
                    (ExprV::Mapping(x), ExprV::Mapping(y), ExprV::Mapping(z)) => {
                        lemma_cmp_pairs_trans(x, y, z, 0);
                    },
                    (
                        ExprV::Call { function: f1, arguments: a1 },
                        ExprV::Call { function: f2, arguments: a2 },
                        ExprV::Call { function: f3, arguments: a3 },
                    ) => {
                        lemma_cmp_trans(*f1, *f2, *f3);
                        lemma_cmp_eq(*f1, *f2);
                        lemma_cmp_eq(*f2, *f3);
                        lemma_cmp_seq_trans(a1, a2, a3, 0);
                    },
                    (ExprV::Quote(x), ExprV::Quote(y), ExprV::Quote(z)) => {
                        lemma_cmp_trans(*x, *y, *z);
                    },
                    (ExprV::Deref(x), ExprV::Deref(y), ExprV::Deref(z)) => {
                        lemma_cmp_trans(*x, *y, *z);
                    },
                    (
                        ExprV::Function { env: e1, patterns: p1 },
                        ExprV::Function { env: e2, patterns: p2 },
                        ExprV::Function { env: e3, patterns: p3 },
                    ) => {
                        lemma_cmp_env_trans(e1, e2, e3, 0);
                        lemma_env_eq_subst(e1, e2);
                        lemma_env_eq_subst(e2, e3);
                        lemma_cmp_patterns_trans(p1, p2, p3, 0);
                    },
                    (ExprV::Module(x), ExprV::Module(y), ExprV::Module(z)) => {
                        lemma_cmp_env_trans(x, y, z, 0);
                    },
                    _ => {},
                }
            }
        }
    }
}

/// Environment entry sequences that compare equal are equal.
pub proof fn lemma_env_eq_subst(a: EnvV, b: EnvV)
    ensures
        cmp_env_from(a, b, 0) == Cmp::Eq ==> a == b,
{
    if cmp_env_from(a, b, 0) == Cmp::Eq {
        lemma_cmp_env_eq(a, b, 0);
        assert(a =~= b);
    }
}

pub proof fn lemma_cmp_seq_trans(a: Seq<ExprV>, b: Seq<ExprV>, c: Seq<ExprV>, i: int)
    ensures
        (0 <= i && cmp_seq_from(a, b, i) == Cmp::Lt && cmp_seq_from(b, c, i) == Cmp::Lt)
            ==> cmp_seq_from(a, c, i) == Cmp::Lt,
    decreases a, a.len() - i, 1nat,
{
    if 0 <= i && cmp_seq_from(a, b, i) == Cmp::Lt && cmp_seq_from(b, c, i) == Cmp::Lt {
        if i < a.len() && i < b.len() && i < c.len() {
            lemma_cmp_trans(a[i], b[i], c[i]);
            lemma_cmp_eq(a[i], b[i]);
            lemma_cmp_eq(b[i], c[i]);
            if cmp_expr(a[i], b[i]) == Cmp::Eq && cmp_expr(b[i], c[i]) == Cmp::Eq {
                lemma_cmp_seq_trans(a, b, c, i + 1);
            }
        }
    }
}

pub proof fn lemma_cmp_pairs_trans(
    a: Seq<(ExprV, ExprV)>,
    b: Seq<(ExprV, ExprV)>,
    c: Seq<(ExprV, ExprV)>,
    i: int,
)
    ensures
        (0 <= i && cmp_pairs_from(a, b, i) == Cmp::Lt && cmp_pairs_from(b, c, i) == Cmp::Lt)
            ==> cmp_pairs_from(a, c, i) == Cmp::Lt,
    decreases a, a.len() - i, 1nat,
{
    if 0 <= i && cmp_pairs_from(a, b, i) == Cmp::Lt && cmp_pairs_from(b, c, i) == Cmp::Lt {
        if i < a.len() && i < b.len() && i < c.len() {
            lemma_cmp_trans(a[i].0, b[i].0, c[i].0);
            lemma_cmp_eq(a[i].0, b[i].0);
            lemma_cmp_eq(b[i].0, c[i].0);
            lemma_cmp_trans(a[i].1, b[i].1, c[i].1);
            lemma_cmp_eq(a[i].1, b[i].1);
            lemma_cmp_eq(b[i].1, c[i].1);
            if cmp_expr(a[i].0, b[i].0) == Cmp::Eq && cmp_expr(b[i].0, c[i].0) == Cmp::Eq
                && cmp_expr(a[i].1, b[i].1) == Cmp::Eq && cmp_expr(b[i].1, c[i].1) == Cmp::Eq {
                lemma_cmp_pairs_trans(a, b, c, i + 1);
            }
        }
    }
}

pub proof fn lemma_cmp_env_trans(a: EnvV, b: EnvV, c: EnvV, i: int)
    ensures
        (0 <= i && cmp_env_from(a, b, i) == Cmp::Lt && cmp_env_from(b, c, i) == Cmp::Lt)
            ==> cmp_env_from(a, c, i) == Cmp::Lt,
    decreases a, a.len() - i, 1nat,
{
    if 0 <= i && cmp_env_from(a, b, i) == Cmp::Lt && cmp_env_from(b, c, i) == Cmp::Lt {
        if i < a.len() && i < b.len() && i < c.len() {
            lemma_cmp_str_trans(a[i].0, b[i].0, c[i].0, 0);
            lemma_str_eq_subst(a[i].0, b[i].0);
            lemma_str_eq_subst(b[i].0, c[i].0);
            lemma_cmp_trans(a[i].1, b[i].1, c[i].1);
            lemma_cmp_eq(a[i].1, b[i].1);
            lemma_cmp_eq(b[i].1, c[i].1);
            if cmp_str(a[i].0, b[i].0) == Cmp::Eq && cmp_str(b[i].0, c[i].0) == Cmp::Eq
                && cmp_expr(a[i].1, b[i].1) == Cmp::Eq && cmp_expr(b[i].1, c[i].1) == Cmp::Eq {
                lemma_cmp_env_trans(a, b, c, i + 1);
            }
        }
    }
}

/// Texts that compare equal are equal.
pub proof fn lemma_str_eq_subst(a: Seq<char>, b: Seq<char>)
    ensures
        cmp_str(a, b) == Cmp::Eq ==> a == b,
{
    if cmp_str(a, b) == Cmp::Eq {
        lemma_cmp_str_eq(a, b, 0);
        assert(a =~= b);
    }
}

pub proof fn lemma_cmp_patterns_trans(
    a: Seq<PatternV>,
    b: Seq<PatternV>,
    c: Seq<PatternV>,
    i: int,
)
    ensures
        (0 <= i && cmp_patterns_from(a, b, i) == Cmp::Lt && cmp_patterns_from(b, c, i) == Cmp::Lt)
            ==> cmp_patterns_from(a, c, i) == Cmp::Lt,
    decreases a, a.len() - i, 1nat,
{
    if 0 <= i && cmp_patterns_from(a, b, i) == Cmp::Lt && cmp_patterns_from(b, c, i) == Cmp::Lt {
        if i < a.len() && i < b.len() && i < c.len() {
            lemma_cmp_seq_trans(a[i].parameters, b[i].parameters, c[i].parameters, 0);
            lemma_seq_eq_subst(a[i].parameters, b[i].parameters);
            lemma_seq_eq_subst(b[i].parameters, c[i].parameters);
            lemma_cmp_seq_trans(a[i].body, b[i].body, c[i].body, 0);
            lemma_seq_eq_subst(a[i].body, b[i].body);
            lemma_seq_eq_subst(b[i].body, c[i].body);
            if cmp_seq_from(a[i].parameters, b[i].parameters, 0) == Cmp::Eq && cmp_seq_from(
                b[i].parameters,
                c[i].parameters,
                0,
            ) == Cmp::Eq && cmp_seq_from(a[i].body, b[i].body, 0) == Cmp::Eq && cmp_seq_from(
                b[i].body,
                c[i].body,
                0,
            ) == Cmp::Eq {
                lemma_cmp_patterns_trans(a, b, c, i + 1);
            }
        }
    }
}

/// Value sequences that compare equal are equal.
pub proof fn lemma_seq_eq_subst(a: Seq<ExprV>, b: Seq<ExprV>)
    ensures
        cmp_seq_from(a, b, 0) == Cmp::Eq ==> a == b,
{
    if cmp_seq_from(a, b, 0) == Cmp::Eq {
        lemma_cmp_seq_eq(a, b, 0);
        assert(a =~= b);
    }
}


/// Powers of ten grow with the exponent.
pub proof fn lemma_pow10_mono(m: nat, n: nat)
    requires
        m <= n,
    ensures
        pow10(m) <= pow10(n),
    decreases n,
{
    lemma_pow10_pos(m);
    if m < n {
        lemma_pow10_mono(m, (n - 1) as nat);
        lemma_pow10_pos((n - 1) as nat);
    }
}

/// The largest power of ten a comparison ever computes.
pub proof fn lemma_pow10_18()
    ensures
        pow10(18) == 1_000_000_000_000_000_000,
{
    reveal_with_fuel(pow10, 20);
}

/// Computes `10^n` for the clamped scale range.
pub fn pow10_x(n: u32) -> (r: i64)
    requires
        n <= 18,
    ensures
        r as int == pow10(n as nat),
        1 <= r <= 1_000_000_000_000_000_000,
    decreases n,
{
    proof {
        lemma_pow10_pos(n as nat);
        lemma_pow10_mono(n as nat, 18);
        lemma_pow10_18();
    }
    if n == 0 {
        1
    } else {
        let p = pow10_x(n - 1);
        proof {
            lemma_pow10_mono((n - 1) as nat, 17);
            reveal_with_fuel(pow10, 19);
        }
        10 * p
    }
}

/// The numerator and positive denominator of a numeric value.
pub(crate) fn num_parts(e: &Expression) -> (r: (i64, i64))
    ensures
        r.0 as int == e@.num_of(),
        r.1 as int == e@.den_of(),
        r.1 >= 1,
{
    match e {
        Expression::Integer(i) => (*i, 1),
        Expression::Ratio(n, d) => (*n, if *d >= 1 { *d } else { 1 }),
        _ => (0, 1),
    }
}

/// Whether a value takes part in numeric comparison.
pub(crate) fn is_numeric_x(e: &Expression) -> (r: bool)
    ensures
        r == e@.is_numeric(),
{
    match e {
        Expression::Integer(_) => true,
        Expression::Ratio(_, _) => true,
        _ => false,
    }
}

/// The variant rank, for executable dispatch.
fn rank_x(e: &Expression) -> (r: u32)
    ensures
        r as int == e@.rank(),
{
    match e {
        Expression::Nil => 0,
        Expression::Bool(_) => 1,
        Expression::Integer(_) => 2,
        Expression::Ratio(_, _) => 2,
        Expression::Float(_) => 3,
        Expression::String(_) => 4,
        Expression::Symbol(_) => 5,
        Expression::NamespacedSymbol(_) => 6,
        Expression::Keyword(_) => 7,
        Expression::Array(_) => 8,
        Expression::Mapping(_) => 9,
        Expression::Call { .. } => 10,
        Expression::Quote(_) => 11,
        Expression::Deref(_) => 12,
        Expression::Function { .. } => 13,
        Expression::IntrinsicFunction(_) => 14,
        Expression::NativeFunction(_) => 15,
        Expression::Atom(_) => 16,
        Expression::Channel(_) => 17,
        Expression::Module(_) => 18,
        Expression::NativeType(_) => 19,
    }
}

/// The declaration index of an intrinsic.
fn intrinsic_rank_x(i: &Intrinsic) -> (r: u32)
    ensures
        r as int == intrinsic_rank(*i),
{
    match i {
        Intrinsic::Add => 0,
        Intrinsic::Sub => 1,
        Intrinsic::Mul => 2,
        Intrinsic::Div => 3,
        Intrinsic::Equal => 4,
        Intrinsic::Less => 5,
        Intrinsic::LessEqual => 6,
        Intrinsic::Greater => 7,
        Intrinsic::GreaterEqual => 8,
        Intrinsic::If => 9,
        Intrinsic::When => 10,
        Intrinsic::Def => 11,
        Intrinsic::Fn => 12,
        Intrinsic::Defn => 13,
        Intrinsic::Quote => 14,
        Intrinsic::Eval => 15,
        Intrinsic::ReadString => 16,
        Intrinsic::Assert => 17,
        Intrinsic::Str => 18,
        Intrinsic::Assoc => 19,
        Intrinsic::Dissoc => 20,
        Intrinsic::Merge => 21,
        Intrinsic::Html => 22,
        Intrinsic::AtomNew => 23,
        Intrinsic::Reset => 24,
        Intrinsic::Swap => 25,
        Intrinsic::Chan => 26,
        Intrinsic::Put => 27,
        Intrinsic::Take => 28,
        Intrinsic::Spawn => 29,
    }
}


/// The product of two machine words fits the wide intermediate type.
pub proof fn lemma_prod_fits(a: int, b: int)
    requires
        -0x8000_0000_0000_0000 <= a <= 0x7fff_ffff_ffff_ffff,
        -0x8000_0000_0000_0000 <= b <= 0x7fff_ffff_ffff_ffff,
    ensures
        -0x8000_0000_0000_0000_0000_0000_0000_0000 <= a * b
            <= 0x7fff_ffff_ffff_ffff_ffff_ffff_ffff_ffff,
{
    assert(-0x8000_0000_0000_0000_0000_0000_0000_0000 <= a * b
        <= 0x7fff_ffff_ffff_ffff_ffff_ffff_ffff_ffff) by (nonlinear_arith)
        requires
            -0x8000_0000_0000_0000 <= a <= 0x7fff_ffff_ffff_ffff,
            -0x8000_0000_0000_0000 <= b <= 0x7fff_ffff_ffff_ffff,
    ;
}

fn cmp_of_i128(a: i128, b: i128) -> (r: Cmp)
    ensures
        r == cmp_int(a as int, b as int),
{
    if a < b {
        Cmp::Lt
    } else if a == b {
        Cmp::Eq
    } else {
        Cmp::Gt
    }
}

/// Compares two texts lexicographically by code point from position `i` on.
pub fn compare_text(a: &str, b: &str, i: usize) -> (r: Cmp)
    ensures
        r == cmp_str_from(a@, b@, i as int),
    decreases a@.len() + b@.len() - i,
{
    let la = a.unicode_len();
    let lb = b.unicode_len();
    if i >= la && i >= lb {
        Cmp::Eq
    } else if i >= la {
        Cmp::Lt
    } else if i >= lb {
        Cmp::Gt
    } else {
        let ca = a.get_char(i);
        let cb = b.get_char(i);
        if (ca as u32) < (cb as u32) {
            Cmp::Lt
        } else if (ca as u32) > (cb as u32) {
            Cmp::Gt
        } else {
            compare_text(a, b, i + 1)
        }
    }
}

/// Compares two values in the total order of the language.
pub fn compare(a: &Expression, b: &Expression) -> (r: Cmp)
    ensures
        r == cmp_expr(a@, b@),
    decreases *a, 0nat,
{
    if is_numeric_x(a) && is_numeric_x(b) {
        let (an, ad) = num_parts(a);
        let (bn, bd) = num_parts(b);
        proof {
            lemma_prod_fits(an as int, bd as int);
            lemma_prod_fits(bn as int, ad as int);
        }
        let c = cmp_of_i128((an as i128) * (bd as i128), (bn as i128) * (ad as i128));
        if !matches!(c, Cmp::Eq) {
            return c;
        }
        let fa: u32 = if matches!(a, Expression::Ratio(_, _)) { 1 } else { 0 };
        let fb: u32 = if matches!(b, Expression::Ratio(_, _)) { 1 } else { 0 };
        if fa < fb {
            return Cmp::Lt;
        }
        if fa > fb {
            return Cmp::Gt;
        }
        match (a, b) {
            (Expression::Ratio(n1, d1), Expression::Ratio(n2, d2)) => {
                if *d1 < *d2 {
                    Cmp::Lt
                } else if *d1 > *d2 {
                    Cmp::Gt
                } else if *n1 < *n2 {
                    Cmp::Lt
                } else if *n1 > *n2 {
                    Cmp::Gt
                } else {
                    Cmp::Eq
                }
            },
            _ => Cmp::Eq,
        }
    } else {
        let ra = rank_x(a);
        let rb = rank_x(b);
        if ra < rb {
            return Cmp::Lt;
        }
        if ra > rb {
            return Cmp::Gt;
        }
        match (a, b) {
            (Expression::Nil, Expression::Nil) => Cmp::Eq,
            (Expression::Bool(x), Expression::Bool(y)) => {
                let xi: u32 = if *x { 1 } else { 0 };
                let yi: u32 = if *y { 1 } else { 0 };
                if xi < yi {
                    Cmp::Lt
                } else if xi > yi {
                    Cmp::Gt
                } else {
                    Cmp::Eq
                }
            },
            (Expression::Float(x), Expression::Float(y)) => {
                let sx: u32 = if x.scale <= 18 { x.scale } else { 18 };
                let sy: u32 = if y.scale <= 18 { y.scale } else { 18 };
                let px = pow10_x(sx);
                let py = pow10_x(sy);
                proof {
                    lemma_prod_fits(x.mantissa as int, py as int);
                    lemma_prod_fits(y.mantissa as int, px as int);
                }
                let c = cmp_of_i128(
                    (x.mantissa as i128) * (py as i128),
                    (y.mantissa as i128) * (px as i128),
                );
                if !matches!(c, Cmp::Eq) {
                    c
                } else if x.scale < y.scale {
                    Cmp::Lt
                } else if x.scale > y.scale {
                    Cmp::Gt
                } else if x.mantissa < y.mantissa {
                    Cmp::Lt
                } else if x.mantissa > y.mantissa {
                    Cmp::Gt
                } else {
                    Cmp::Eq
                }
            },
            (Expression::String(x), Expression::String(y)) => compare_text(
                x.as_str(),
                y.as_str(),
                0,
            ),
            (Expression::Symbol(x), Expression::Symbol(y)) => compare_text(
                x.as_str(),
                y.as_str(),
                0,
            ),
            (Expression::NamespacedSymbol(x), Expression::NamespacedSymbol(y)) => compare_text(
                x.as_str(),
                y.as_str(),
                0,
            ),
            (Expression::Keyword(x), Expression::Keyword(y)) => compare_text(
                x.as_str(),
                y.as_str(),
                0,
            ),
            (Expression::Array(x), Expression::Array(y)) => compare_items(x, y, 0),
            (Expression::Mapping(x), Expression::Mapping(y)) => compare_entries(x, y, 0),
            (
                Expression::Call { function: f1, arguments: a1 },
                Expression::Call { function: f2, arguments: a2 },
            ) => {
                let c = compare(f1, f2);
                if !matches!(c, Cmp::Eq) {
                    c
                } else {
                    compare_items(a1, a2, 0)
                }
            },
            (Expression::Quote(x), Expression::Quote(y)) => compare(x, y),
            (Expression::Deref(x), Expression::Deref(y)) => compare(x, y),
            (
                Expression::Function { env: e1, patterns: p1 },
                Expression::Function { env: e2, patterns: p2 },
            ) => {
                let c = compare_bindings(&e1.entries, &e2.entries, 0);
                if !matches!(c, Cmp::Eq) {
                    c
                } else {
                    compare_clauses(p1, p2, 0)
                }
            },
            (Expression::IntrinsicFunction(x), Expression::IntrinsicFunction(y)) => {
                let rx = intrinsic_rank_x(x);
                let ry = intrinsic_rank_x(y);
                if rx < ry {
                    Cmp::Lt
                } else if rx > ry {
                    Cmp::Gt
                } else {
                    Cmp::Eq
                }
            },
            (Expression::NativeFunction(x), Expression::NativeFunction(y)) => {
                if *x < *y {
                    Cmp::Lt
                } else if *x > *y {
                    Cmp::Gt
                } else {
                    Cmp::Eq
                }
            },
            (Expression::Atom(x), Expression::Atom(y)) => {
                if *x < *y {
                    Cmp::Lt
                } else if *x > *y {
                    Cmp::Gt
                } else {
                    Cmp::Eq
                }
            },
            (Expression::Channel(x), Expression::Channel(y)) => {
                if *x < *y {
                    Cmp::Lt
                } else if *x > *y {
                    Cmp::Gt
                } else {
                    Cmp::Eq
                }
            },
            (Expression::Module(x), Expression::Module(y)) => compare_bindings(
                &x.entries,
                &y.entries,
                0,
            ),
            (Expression::NativeType(x), Expression::NativeType(y)) => {
                if *x < *y {
                    Cmp::Lt
                } else if *x > *y {
                    Cmp::Gt
                } else {
                    Cmp::Eq
                }
            },
            _ => Cmp::Eq,
        }
    }
}

/// Compares two value vectors lexicographically from position `i` on.
pub fn compare_items(a: &Vec<Expression>, b: &Vec<Expression>, i: usize) -> (r: Cmp)
    ensures
        r == cmp_seq_from(view_exprs(a@), view_exprs(b@), i as int),
    decreases *a, a.len() - i, 1nat,
{
    proof {
        lemma_view_exprs(a@);
        lemma_view_exprs(b@);
    }
    if i >= a.len() && i >= b.len() {
        Cmp::Eq
    } else if i >= a.len() {
        Cmp::Lt
    } else if i >= b.len() {
        Cmp::Gt
    } else {
        let c = compare(&a[i], &b[i]);
        if !matches!(c, Cmp::Eq) {
            c
        } else {
            compare_items(a, b, i + 1)
        }
    }
}

/// Compares two entry vectors lexicographically from position `i` on.
pub fn compare_entries(
    a: &Vec<(Expression, Expression)>,
    b: &Vec<(Expression, Expression)>,
    i: usize,
) -> (r: Cmp)
    ensures
        r == cmp_pairs_from(view_expr_pairs(a@), view_expr_pairs(b@), i as int),
    decreases *a, a.len() - i, 1nat,
{
    proof {
        lemma_view_expr_pairs(a@);
        lemma_view_expr_pairs(b@);
    }
    if i >= a.len() && i >= b.len() {
        Cmp::Eq
    } else if i >= a.len() {
        Cmp::Lt
    } else if i >= b.len() {
        Cmp::Gt
    } else {
        let c = compare(&a[i].0, &b[i].0);
        if !matches!(c, Cmp::Eq) {
            c
        } else {
            let c2 = compare(&a[i].1, &b[i].1);
            if !matches!(c2, Cmp::Eq) {
                c2
            } else {
                compare_entries(a, b, i + 1)
            }
        }
    }
}

/// Compares two binding vectors lexicographically from position `i` on.
pub fn compare_bindings(
    a: &Vec<(String, Expression)>,
    b: &Vec<(String, Expression)>,
    i: usize,
) -> (r: Cmp)
    ensures
        r == cmp_env_from(view_env_entries(a@), view_env_entries(b@), i as int),
    decreases *a, a.len() - i, 1nat,
{
    proof {
        lemma_view_env_entries(a@);
        lemma_view_env_entries(b@);
    }
    if i >= a.len() && i >= b.len() {
        Cmp::Eq
    } else if i >= a.len() {
        Cmp::Lt
    } else if i >= b.len() {
        Cmp::Gt
    } else {
        let c = compare_text(a[i].0.as_str(), b[i].0.as_str(), 0);
        if !matches!(c, Cmp::Eq) {
            c
        } else {
            let c2 = compare(&a[i].1, &b[i].1);
            if !matches!(c2, Cmp::Eq) {
                c2
            } else {
                compare_bindings(a, b, i + 1)
            }
        }
    }
}

/// Compares two clause vectors lexicographically from position `i` on.
pub fn compare_clauses(a: &Vec<Pattern>, b: &Vec<Pattern>, i: usize) -> (r: Cmp)
    ensures
        r == cmp_patterns_from(view_patterns(a@), view_patterns(b@), i as int),
    decreases *a, a.len() - i, 1nat,
{
    proof {
        lemma_view_patterns(a@);
        lemma_view_patterns(b@);
    }
    if i >= a.len() && i >= b.len() {
        Cmp::Eq
    } else if i >= a.len() {
        Cmp::Lt
    } else if i >= b.len() {
        Cmp::Gt
    } else {
        let c = compare_items(&a[i].parameters, &b[i].parameters, 0);
        if !matches!(c, Cmp::Eq) {
            c
        } else {
            let c2 = compare_items(&a[i].body, &b[i].body, 0);
            if !matches!(c2, Cmp::Eq) {
                c2
            } else {
                compare_clauses(a, b, i + 1)
            }
        }
    }
}

/// Structural equality of two values, decided through the total order.
pub fn expr_eq(a: &Expression, b: &Expression) -> (r: bool)
    ensures
        r == (a@ == b@),
{
    let c = compare(a, b);
    proof {
        lemma_cmp_eq(a@, b@);
        if a@ == b@ {
            lemma_cmp_refl(a@);
        }
    }
    matches!(c, Cmp::Eq)
}

} // verus!
