//! The value algebra shared by the reader and the evaluator, the token type,
//! the immutable environment, and the raised-effect record, together with the
//! mathematical model of each: a deep view mapping every executable value to
//! a ghost datatype over `Seq` and plain values.

use vstd::prelude::*;

verus! {

broadcast use vstd::std_specs::vec::group_vec_axioms, vstd::seq::group_seq_axioms;

/// A decimal literal held as a canonical mantissa and decimal scale: the
/// value is `mantissa / 10^scale`.  Canonical form keeps at least one
/// fractional digit and no trailing fractional zero beyond the first, so
/// equality of values is equality of fields.
#[derive(Debug, Clone, Copy, PartialEq, Eq, Structural)]
pub struct Float {
    pub mantissa: i64,
    pub scale: u32,
}

/// Largest decimal scale a `Float` may carry; keeps cross multiplication by
/// powers of ten inside `i128`.
pub const MAX_FLOAT_SCALE: u32 = 18;

impl Float {
    /// Canonical: at least one fractional digit; no trailing zero past the
    /// first fractional digit; scale small enough for exact comparison.
    pub open spec fn is_canonical(self) -> bool {
        &&& 1 <= self.scale <= MAX_FLOAT_SCALE
        &&& (self.scale == 1 || self.mantissa % 10 != 0)
    }
}

/// One lexical token of the reader syntax.
#[derive(Debug, Clone, PartialEq, Eq)]
pub enum Token {
    LeftParen,
    RightParen,
    LeftBracket,
    RightBracket,
    LeftBrace,
    RightBrace,
    Quote,
    Deref,
    Symbol(String),
    NamespacedSymbol(String),
    Keyword(String),
    String(String),
    Integer(i64),
    Float(Float),
    Ratio(i64, i64),
    /// A malformed lexeme (an unterminated string, an invalid numeric
    /// literal); the reader rejects it with a `"tokenize-error"` effect.
    Error(String),
}

/// The ghost mirror of `Token`, with text as `Seq<char>`.
#[verifier::ext_equal]
pub enum TokenV {
    LeftParen,
    RightParen,
    LeftBracket,
    RightBracket,
    LeftBrace,
    RightBrace,
    Quote,
    Deref,
    Symbol(Seq<char>),
    NamespacedSymbol(Seq<char>),
    Keyword(Seq<char>),
    String(Seq<char>),
    Integer(i64),
    Float(Float),
    Ratio(i64, i64),
    Error(Seq<char>),
}

impl View for Token {
    type V = TokenV;

    open spec fn view(&self) -> TokenV {
        match self {
            Token::LeftParen => TokenV::LeftParen,
            Token::RightParen => TokenV::RightParen,
            Token::LeftBracket => TokenV::LeftBracket,
            Token::RightBracket => TokenV::RightBracket,
            Token::LeftBrace => TokenV::LeftBrace,
            Token::RightBrace => TokenV::RightBrace,
            Token::Quote => TokenV::Quote,
            Token::Deref => TokenV::Deref,
            Token::Symbol(s) => TokenV::Symbol(s@),
            Token::NamespacedSymbol(s) => TokenV::NamespacedSymbol(s@),
            Token::Keyword(s) => TokenV::Keyword(s@),
            Token::String(s) => TokenV::String(s@),
            Token::Integer(i) => TokenV::Integer(*i),
            Token::Float(f) => TokenV::Float(*f),
            Token::Ratio(n, d) => TokenV::Ratio(*n, *d),
            Token::Error(s) => TokenV::Error(s@),
        }
    }
}

/// The synchronous core operations reachable from the base environment.
#[derive(Debug, Clone, Copy, PartialEq, Eq, Structural)]
pub enum Intrinsic {
    Add,
    Sub,
    Mul,
    Div,
    Equal,
    Less,
    LessEqual,
    Greater,
    GreaterEqual,
    If,
    When,
    Def,
    Fn,
    Defn,
    Quote,
    Eval,
    ReadString,
    Assert,
    Str,
    Assoc,
    Dissoc,
    Merge,
    Html,
    AtomNew,
    Reset,
    Swap,
    Chan,
    Put,
    Take,
    Spawn,
}

/// A parameter list paired with the body it guards: one clause of a function.
#[derive(Debug)]
pub struct Pattern {
    pub parameters: Vec<Expression>,
    pub body: Vec<Expression>,
}

/// An immutable, ordered mapping from name to expression.  Entries are kept
/// strictly sorted by name, so structural equality is map equality and
/// iteration order is deterministic.
#[derive(Debug)]
pub struct Environment {
    pub entries: Vec<(String, Expression)>,
}

/// The single tagged union of the language: both the abstract syntax produced
/// by the reader and the runtime value produced by the evaluator.
///
/// Every variant is deeply immutable except `Atom` and `Channel`, which are
/// identities referring to shared mutable state held in a `Store`.
#[derive(Debug)]
pub enum Expression {
    Nil,
    Bool(bool),
    Integer(i64),
    Float(Float),
    /// A reduced rational with denominator at least two; quotients that come
    /// out integral collapse to `Integer`.
    Ratio(i64, i64),
    String(String),
    Symbol(String),
    NamespacedSymbol(String),
    Keyword(String),
    Array(Vec<Expression>),
    /// An ordered mapping; entries strictly sorted by the total order on keys.
    Mapping(Vec<(Expression, Expression)>),
    Call { function: Box<Expression>, arguments: Vec<Expression> },
    Quote(Box<Expression>),
    Deref(Box<Expression>),
    Function { env: Environment, patterns: Vec<Pattern> },
    IntrinsicFunction(Intrinsic),
    /// An opaque handle to an asynchronous host operation; calling it is the
    /// sole suspension boundary between the interpreter and its host.
    NativeFunction(u64),
    /// The identity of a shared mutable cell in a `Store`.
    Atom(u64),
    /// The identity of a bounded FIFO channel in a `Store`.
    Channel(u64),
    /// A namespace: an environment frozen under a name.
    Module(Environment),
    /// An opaque handle to a host resource, compared by identity.
    NativeType(u64),
}

/// A non-local return: a tag, the environment at the raise site, and the
/// arguments of the raise.  It propagates to the top-level caller.
#[derive(Debug)]
pub struct RaisedEffect {
    pub environment: Environment,
    pub effect: String,
    pub arguments: Vec<Expression>,
}

/// The ghost mirror of `Environment`: a sequence of name/value entries.
pub type EnvV = Seq<(Seq<char>, ExprV)>;

/// The ghost mirror of `Pattern`.
#[verifier::ext_equal]
pub struct PatternV {
    pub parameters: Seq<ExprV>,
    pub body: Seq<ExprV>,
}

/// The ghost mirror of `Expression`: the mathematical value every contract
/// speaks about.
#[verifier::ext_equal]
pub enum ExprV {
    Nil,
    Bool(bool),
    Integer(i64),
    Float(Float),
    Ratio(i64, i64),
    String(Seq<char>),
    Symbol(Seq<char>),
    NamespacedSymbol(Seq<char>),
    Keyword(Seq<char>),
    Array(Seq<ExprV>),
    Mapping(Seq<(ExprV, ExprV)>),
    Call { function: Box<ExprV>, arguments: Seq<ExprV> },
    Quote(Box<ExprV>),
    Deref(Box<ExprV>),
    Function { env: EnvV, patterns: Seq<PatternV> },
    IntrinsicFunction(Intrinsic),
    NativeFunction(u64),
    Atom(u64),
    Channel(u64),
    Module(EnvV),
    NativeType(u64),
}

/// The ghost mirror of `RaisedEffect`.
#[verifier::ext_equal]
pub struct EffectV {
    pub environment: EnvV,
    pub effect: Seq<char>,
    pub arguments: Seq<ExprV>,
}

pub open spec fn view_expr(e: Expression) -> ExprV
    decreases e,
{
    match e {
        Expression::Nil => ExprV::Nil,
        Expression::Bool(b) => ExprV::Bool(b),
        Expression::Integer(i) => ExprV::Integer(i),
        Expression::Float(f) => ExprV::Float(f),
        Expression::Ratio(n, d) => ExprV::Ratio(n, d),
        Expression::String(s) => ExprV::String(s@),
        Expression::Symbol(s) => ExprV::Symbol(s@),
        Expression::NamespacedSymbol(s) => ExprV::NamespacedSymbol(s@),
        Expression::Keyword(s) => ExprV::Keyword(s@),
        Expression::Array(v) => ExprV::Array(view_exprs(v@)),
        Expression::Mapping(v) => ExprV::Mapping(view_expr_pairs(v@)),
        Expression::Call { function, arguments } => ExprV::Call {
            function: Box::new(view_expr(*function)),
            arguments: view_exprs(arguments@),
        },
        Expression::Quote(inner) => ExprV::Quote(Box::new(view_expr(*inner))),
        Expression::Deref(inner) => ExprV::Deref(Box::new(view_expr(*inner))),
        Expression::Function { env, patterns } => ExprV::Function {
            env: view_env_entries(env.entries@),
            patterns: view_patterns(patterns@),
        },
        Expression::IntrinsicFunction(i) => ExprV::IntrinsicFunction(i),
        Expression::NativeFunction(id) => ExprV::NativeFunction(id),
        Expression::Atom(id) => ExprV::Atom(id),
        Expression::Channel(id) => ExprV::Channel(id),
        Expression::Module(env) => ExprV::Module(view_env_entries(env.entries@)),
        Expression::NativeType(id) => ExprV::NativeType(id),
    }
}

pub open spec fn view_exprs(s: Seq<Expression>) -> Seq<ExprV>
    decreases s,
{
    if s.len() == 0 {
        Seq::empty()
    } else {
        view_exprs(s.drop_last()).push(view_expr(s.last()))
    }
}

pub open spec fn view_expr_pairs(s: Seq<(Expression, Expression)>) -> Seq<(ExprV, ExprV)>
    decreases s,
{
    if s.len() == 0 {
        Seq::empty()
    } else {
        view_expr_pairs(s.drop_last()).push(
            (view_expr(s.last().0), view_expr(s.last().1)),
        )
    }
}

pub open spec fn view_env_entries(s: Seq<(String, Expression)>) -> EnvV
    decreases s,
{
    if s.len() == 0 {
        Seq::empty()
    } else {
        view_env_entries(s.drop_last()).push((s.last().0@, view_expr(s.last().1)))
    }
}

pub open spec fn view_patterns(s: Seq<Pattern>) -> Seq<PatternV>
    decreases s,
{
    if s.len() == 0 {
        Seq::empty()
    } else {
        view_patterns(s.drop_last()).push(
            PatternV {
                parameters: view_exprs(s.last().parameters@),
                body: view_exprs(s.last().body@),
            },
        )
    }
}

impl View for Expression {
    type V = ExprV;

    open spec fn view(&self) -> ExprV {
        view_expr(*self)
    }
}

impl View for Pattern {
    type V = PatternV;

    open spec fn view(&self) -> PatternV {
        PatternV { parameters: view_exprs(self.parameters@), body: view_exprs(self.body@) }
    }
}

impl View for Environment {
    type V = EnvV;

    open spec fn view(&self) -> EnvV {
        view_env_entries(self.entries@)
    }
}

impl View for RaisedEffect {
    type V = EffectV;

    open spec fn view(&self) -> EffectV {
        EffectV {
            environment: self.environment@,
            effect: self.effect@,
            arguments: view_exprs(self.arguments@),
        }
    }
}

/// The sequence view acts pointwise.
pub proof fn lemma_view_exprs(s: Seq<Expression>)
    ensures
        view_exprs(s).len() == s.len(),
        forall|i: int| 0 <= i < s.len() ==> view_exprs(s)[i] == view_expr(s[i]),
    decreases s.len(),
{
    if s.len() > 0 {
        lemma_view_exprs(s.drop_last());
    }
}

/// The pair-sequence view acts pointwise.
pub proof fn lemma_view_expr_pairs(s: Seq<(Expression, Expression)>)
    ensures
        view_expr_pairs(s).len() == s.len(),
        forall|i: int| 0 <= i < s.len() ==> view_expr_pairs(s)[i]
            == (view_expr(s[i].0), view_expr(s[i].1)),
    decreases s.len(),
{
    if s.len() > 0 {
        lemma_view_expr_pairs(s.drop_last());
    }
}

/// The environment-entry view acts pointwise.
pub proof fn lemma_view_env_entries(s: Seq<(String, Expression)>)
    ensures
        view_env_entries(s).len() == s.len(),
        forall|i: int| 0 <= i < s.len() ==> view_env_entries(s)[i]
            == (s[i].0@, view_expr(s[i].1)),
    decreases s.len(),
{
    if s.len() > 0 {
        lemma_view_env_entries(s.drop_last());
    }
}

/// The pattern-sequence view acts pointwise.
pub proof fn lemma_view_patterns(s: Seq<Pattern>)
    ensures
        view_patterns(s).len() == s.len(),
        forall|i: int| 0 <= i < s.len() ==> view_patterns(s)[i] == s[i]@,
    decreases s.len(),
{
    if s.len() > 0 {
        lemma_view_patterns(s.drop_last());
    }
}

impl ExprV {
    /// The rank of the variant tag: the primary key of the total order on
    /// values.  `Integer` and `Ratio` share a rank: they compare by
    /// mathematical value.
    pub open spec fn rank(self) -> int {
        match self {
            ExprV::Nil => 0,
            ExprV::Bool(_) => 1,
            ExprV::Integer(_) => 2,
            ExprV::Ratio(_, _) => 2,
            ExprV::Float(_) => 3,
            ExprV::String(_) => 4,
            ExprV::Symbol(_) => 5,
            ExprV::NamespacedSymbol(_) => 6,
            ExprV::Keyword(_) => 7,
            ExprV::Array(_) => 8,
            ExprV::Mapping(_) => 9,
            ExprV::Call { .. } => 10,
            ExprV::Quote(_) => 11,
            ExprV::Deref(_) => 12,
            ExprV::Function { .. } => 13,
            ExprV::IntrinsicFunction(_) => 14,
            ExprV::NativeFunction(_) => 15,
            ExprV::Atom(_) => 16,
            ExprV::Channel(_) => 17,
            ExprV::Module(_) => 18,
            ExprV::NativeType(_) => 19,
        }
    }

    /// The variants that evaluate to themselves with the environment
    /// unchanged.
    pub open spec fn is_self_evaluating(self) -> bool {
        match self {
            ExprV::Symbol(_) => false,
            ExprV::NamespacedSymbol(_) => false,
            ExprV::Array(_) => false,
            ExprV::Mapping(_) => false,
            ExprV::Call { .. } => false,
            ExprV::Quote(_) => false,
            ExprV::Deref(_) => false,
            _ => true,
        }
    }

    /// Falsity: `nil` and `false` are falsy, every other value is truthy.
    pub open spec fn is_falsy(self) -> bool {
        self == ExprV::Nil || self == ExprV::Bool(false)
    }
}

impl Expression {
    /// Exposes falsity to executable code.
    pub fn falsy(&self) -> (r: bool)
        ensures
            r == self@.is_falsy(),
    {
        match self {
            Expression::Nil => true,
            Expression::Bool(b) => !*b,
            _ => false,
        }
    }
}

impl Environment {
    /// A fresh environment with no bindings.
    pub fn new() -> (r: Environment)
        ensures
            r@ =~= Seq::<(Seq<char>, ExprV)>::empty(),
    {
        Environment { entries: Vec::new() }
    }
}


/// Copies a vector of expressions, preserving the viewed values.
pub fn dup_items(v: &Vec<Expression>) -> (r: Vec<Expression>)
    ensures
        view_exprs(r@) == view_exprs(v@),
    decreases *v, 0nat,
{
    let mut out: Vec<Expression> = Vec::new();
    let mut i: usize = 0;
    while i < v.len()
        invariant
            i <= v.len(),
            out@.len() == i,
            forall|j: int| 0 <= j < i ==> out@[j]@ == v@[j]@,
        decreases v.len() - i,
    {
        out.push(v[i].duplicate());
        i = i + 1;
    }
    proof {
        lemma_view_exprs(out@);
        lemma_view_exprs(v@);
        assert(view_exprs(out@) =~= view_exprs(v@));
    }
    out
}

/// Copies a vector of entry pairs, preserving the viewed values.
pub fn dup_entries(v: &Vec<(Expression, Expression)>) -> (r: Vec<(Expression, Expression)>)
    ensures
        view_expr_pairs(r@) == view_expr_pairs(v@),
    decreases *v, 0nat,
{
    let mut out: Vec<(Expression, Expression)> = Vec::new();
    let mut i: usize = 0;
    while i < v.len()
        invariant
            i <= v.len(),
            out@.len() == i,
            forall|j: int| 0 <= j < i ==> out@[j].0@ == v@[j].0@ && out@[j].1@ == v@[j].1@,
        decreases v.len() - i,
    {
        out.push((v[i].0.duplicate(), v[i].1.duplicate()));
        i = i + 1;
    }
    proof {
        lemma_view_expr_pairs(out@);
        lemma_view_expr_pairs(v@);
        assert(view_expr_pairs(out@) =~= view_expr_pairs(v@));
    }
    out
}

/// Copies a vector of bindings, preserving the viewed values.
pub fn dup_bindings(v: &Vec<(String, Expression)>) -> (r: Vec<(String, Expression)>)
    ensures
        view_env_entries(r@) == view_env_entries(v@),
    decreases *v, 0nat,
{
    let mut out: Vec<(String, Expression)> = Vec::new();
    let mut i: usize = 0;
    while i < v.len()
        invariant
            i <= v.len(),
            out@.len() == i,
            forall|j: int| 0 <= j < i ==> out@[j].0@ == v@[j].0@ && out@[j].1@ == v@[j].1@,
        decreases v.len() - i,
    {
        out.push((v[i].0.clone(), v[i].1.duplicate()));
        i = i + 1;
    }
    proof {
        lemma_view_env_entries(out@);
        lemma_view_env_entries(v@);
        assert(view_env_entries(out@) =~= view_env_entries(v@));
    }
    out
}

/// Copies a vector of clauses, preserving the viewed values.
pub fn dup_clauses(v: &Vec<Pattern>) -> (r: Vec<Pattern>)
    ensures
        view_patterns(r@) == view_patterns(v@),
    decreases *v, 0nat,
{
    let mut out: Vec<Pattern> = Vec::new();
    let mut i: usize = 0;
    while i < v.len()
        invariant
            i <= v.len(),
            out@.len() == i,
            forall|j: int| 0 <= j < i ==> out@[j]@ == v@[j]@,
        decreases v.len() - i,
    {
        out.push(
            Pattern { parameters: dup_items(&v[i].parameters), body: dup_items(&v[i].body) },
        );
        i = i + 1;
    }
    proof {
        lemma_view_patterns(out@);
        lemma_view_patterns(v@);
        assert(view_patterns(out@) =~= view_patterns(v@));
    }
    out
}

impl Environment {
    /// Copies an environment, preserving the viewed value.
    pub fn duplicate(&self) -> (r: Environment)
        ensures
            r@ == self@,
        decreases *self,
    {
        Environment { entries: dup_bindings(&self.entries) }
    }
}

impl Expression {
    /// Copies a value, preserving the viewed value.  Values are deeply
    /// immutable, so a copy is indistinguishable from the original.
    pub fn duplicate(&self) -> (r: Expression)
        ensures
            r@ == self@,
        decreases *self, 1nat,
    {
        match self {
            Expression::Nil => Expression::Nil,
            Expression::Bool(b) => Expression::Bool(*b),
            Expression::Integer(i) => Expression::Integer(*i),
            Expression::Float(f) => Expression::Float(*f),
            Expression::Ratio(n, d) => Expression::Ratio(*n, *d),
            Expression::String(s) => Expression::String(s.clone()),
            Expression::Symbol(s) => Expression::Symbol(s.clone()),
            Expression::NamespacedSymbol(s) => Expression::NamespacedSymbol(s.clone()),
            Expression::Keyword(s) => Expression::Keyword(s.clone()),
            Expression::Array(v) => Expression::Array(dup_items(v)),
            Expression::Mapping(v) => Expression::Mapping(dup_entries(v)),
            Expression::Call { function, arguments } => Expression::Call {
                function: Box::new(function.duplicate()),
                arguments: dup_items(arguments),
            },
            Expression::Quote(inner) => Expression::Quote(Box::new(inner.duplicate())),
            Expression::Deref(inner) => Expression::Deref(Box::new(inner.duplicate())),
            Expression::Function { env, patterns } => Expression::Function {
                env: Environment { entries: dup_bindings(&env.entries) },
                patterns: dup_clauses(patterns),
            },
            Expression::IntrinsicFunction(i) => Expression::IntrinsicFunction(*i),
            Expression::NativeFunction(id) => Expression::NativeFunction(*id),
            Expression::Atom(id) => Expression::Atom(*id),
            Expression::Channel(id) => Expression::Channel(*id),
            Expression::Module(env) => Expression::Module(
                Environment { entries: dup_bindings(&env.entries) },
            ),
            Expression::NativeType(id) => Expression::NativeType(*id),
        }
    }
}

} // verus!
