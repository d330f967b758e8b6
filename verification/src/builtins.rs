//! The base environment: every core operation bound under its written name,
//! in sorted order, so the environment a program starts from is canonical.

use vstd::prelude::*;

use crate::expression::Environment;
use crate::expression::EnvV;
use crate::expression::ExprV;
use crate::expression::Expression;
use crate::expression::Intrinsic;
use crate::expression::lemma_view_env_entries;
use crate::expression::view_env_entries;

verus! {

broadcast use vstd::std_specs::vec::group_vec_axioms, vstd::seq::group_seq_axioms;

/// The number of core bindings.
pub const CORE_BINDINGS: usize = 30;

/// The base environment as a value: every core operation under its written
/// name, in sorted order.
pub open spec fn core_env() -> EnvV {
    seq![
        ("*"@, ExprV::IntrinsicFunction(Intrinsic::Mul)),
        ("+"@, ExprV::IntrinsicFunction(Intrinsic::Add)),
        ("-"@, ExprV::IntrinsicFunction(Intrinsic::Sub)),
        ("/"@, ExprV::IntrinsicFunction(Intrinsic::Div)),
        ("<"@, ExprV::IntrinsicFunction(Intrinsic::Less)),
        ("<="@, ExprV::IntrinsicFunction(Intrinsic::LessEqual)),
        ("="@, ExprV::IntrinsicFunction(Intrinsic::Equal)),
        (">"@, ExprV::IntrinsicFunction(Intrinsic::Greater)),
        (">="@, ExprV::IntrinsicFunction(Intrinsic::GreaterEqual)),
        ("assert"@, ExprV::IntrinsicFunction(Intrinsic::Assert)),
        ("assoc"@, ExprV::IntrinsicFunction(Intrinsic::Assoc)),
        ("atom"@, ExprV::IntrinsicFunction(Intrinsic::AtomNew)),
        ("chan"@, ExprV::IntrinsicFunction(Intrinsic::Chan)),
        ("def"@, ExprV::IntrinsicFunction(Intrinsic::Def)),
        ("defn"@, ExprV::IntrinsicFunction(Intrinsic::Defn)),
        ("dissoc"@, ExprV::IntrinsicFunction(Intrinsic::Dissoc)),
        ("eval"@, ExprV::IntrinsicFunction(Intrinsic::Eval)),
        ("fn"@, ExprV::IntrinsicFunction(Intrinsic::Fn)),
        ("html"@, ExprV::IntrinsicFunction(Intrinsic::Html)),
        ("if"@, ExprV::IntrinsicFunction(Intrinsic::If)),
        ("merge"@, ExprV::IntrinsicFunction(Intrinsic::Merge)),
        ("put!"@, ExprV::IntrinsicFunction(Intrinsic::Put)),
        ("quote"@, ExprV::IntrinsicFunction(Intrinsic::Quote)),
        ("read-string"@, ExprV::IntrinsicFunction(Intrinsic::ReadString)),
        ("reset!"@, ExprV::IntrinsicFunction(Intrinsic::Reset)),
        ("spawn"@, ExprV::IntrinsicFunction(Intrinsic::Spawn)),
        ("str"@, ExprV::IntrinsicFunction(Intrinsic::Str)),
        ("swap!"@, ExprV::IntrinsicFunction(Intrinsic::Swap)),
        ("take!"@, ExprV::IntrinsicFunction(Intrinsic::Take)),
        ("when"@, ExprV::IntrinsicFunction(Intrinsic::When)),
    ]
}

/// The `io` namespace of the interactive front end: its own name, and the
/// `read-file` native under handle `0`.
pub open spec fn io_env() -> EnvV {
    seq![
        ("*name*"@, ExprV::String("io"@)),
        ("read-file"@, ExprV::NativeFunction(0)),
    ]
}

/// The base environment of the language: arithmetic, comparison, control,
/// binding and abstraction, quotation and evaluation, text and hypertext,
/// collections, atoms, channels and task spawning, each under its name.
pub fn environment() -> (r: Environment)
    ensures
        r@ == core_env(),
        r@.len() == CORE_BINDINGS as int,
        r@[0] == ("*"@, ExprV::IntrinsicFunction(Intrinsic::Mul)),
        r@[1] == ("+"@, ExprV::IntrinsicFunction(Intrinsic::Add)),
        r@[2] == ("-"@, ExprV::IntrinsicFunction(Intrinsic::Sub)),
        r@[3] == ("/"@, ExprV::IntrinsicFunction(Intrinsic::Div)),
        r@[4] == ("<"@, ExprV::IntrinsicFunction(Intrinsic::Less)),
        r@[5] == ("<="@, ExprV::IntrinsicFunction(Intrinsic::LessEqual)),
        r@[6] == ("="@, ExprV::IntrinsicFunction(Intrinsic::Equal)),
        r@[7] == (">"@, ExprV::IntrinsicFunction(Intrinsic::Greater)),
        r@[8] == (">="@, ExprV::IntrinsicFunction(Intrinsic::GreaterEqual)),
        r@[9] == ("assert"@, ExprV::IntrinsicFunction(Intrinsic::Assert)),
        r@[10] == ("assoc"@, ExprV::IntrinsicFunction(Intrinsic::Assoc)),
        r@[11] == ("atom"@, ExprV::IntrinsicFunction(Intrinsic::AtomNew)),
        r@[12] == ("chan"@, ExprV::IntrinsicFunction(Intrinsic::Chan)),
        r@[13] == ("def"@, ExprV::IntrinsicFunction(Intrinsic::Def)),
        r@[14] == ("defn"@, ExprV::IntrinsicFunction(Intrinsic::Defn)),
        r@[15] == ("dissoc"@, ExprV::IntrinsicFunction(Intrinsic::Dissoc)),
        r@[16] == ("eval"@, ExprV::IntrinsicFunction(Intrinsic::Eval)),
        r@[17] == ("fn"@, ExprV::IntrinsicFunction(Intrinsic::Fn)),
        r@[18] == ("html"@, ExprV::IntrinsicFunction(Intrinsic::Html)),
        r@[19] == ("if"@, ExprV::IntrinsicFunction(Intrinsic::If)),
        r@[20] == ("merge"@, ExprV::IntrinsicFunction(Intrinsic::Merge)),
        r@[21] == ("put!"@, ExprV::IntrinsicFunction(Intrinsic::Put)),
        r@[22] == ("quote"@, ExprV::IntrinsicFunction(Intrinsic::Quote)),
        r@[23] == ("read-string"@, ExprV::IntrinsicFunction(Intrinsic::ReadString)),
        r@[24] == ("reset!"@, ExprV::IntrinsicFunction(Intrinsic::Reset)),
        r@[25] == ("spawn"@, ExprV::IntrinsicFunction(Intrinsic::Spawn)),
        r@[26] == ("str"@, ExprV::IntrinsicFunction(Intrinsic::Str)),
        r@[27] == ("swap!"@, ExprV::IntrinsicFunction(Intrinsic::Swap)),
        r@[28] == ("take!"@, ExprV::IntrinsicFunction(Intrinsic::Take)),
        r@[29] == ("when"@, ExprV::IntrinsicFunction(Intrinsic::When)),
{
    let mut entries: Vec<(String, Expression)> = Vec::new();
    entries.push(("*".to_owned(), Expression::IntrinsicFunction(Intrinsic::Mul)));
    entries.push(("+".to_owned(), Expression::IntrinsicFunction(Intrinsic::Add)));
    entries.push(("-".to_owned(), Expression::IntrinsicFunction(Intrinsic::Sub)));
    entries.push(("/".to_owned(), Expression::IntrinsicFunction(Intrinsic::Div)));
    entries.push(("<".to_owned(), Expression::IntrinsicFunction(Intrinsic::Less)));
    entries.push(("<=".to_owned(), Expression::IntrinsicFunction(Intrinsic::LessEqual)));
    entries.push(("=".to_owned(), Expression::IntrinsicFunction(Intrinsic::Equal)));
    entries.push((">".to_owned(), Expression::IntrinsicFunction(Intrinsic::Greater)));
    entries.push((">=".to_owned(), Expression::IntrinsicFunction(Intrinsic::GreaterEqual)));
    entries.push(("assert".to_owned(), Expression::IntrinsicFunction(Intrinsic::Assert)));
    entries.push(("assoc".to_owned(), Expression::IntrinsicFunction(Intrinsic::Assoc)));
    entries.push(("atom".to_owned(), Expression::IntrinsicFunction(Intrinsic::AtomNew)));
    entries.push(("chan".to_owned(), Expression::IntrinsicFunction(Intrinsic::Chan)));
    entries.push(("def".to_owned(), Expression::IntrinsicFunction(Intrinsic::Def)));
    entries.push(("defn".to_owned(), Expression::IntrinsicFunction(Intrinsic::Defn)));
    entries.push(("dissoc".to_owned(), Expression::IntrinsicFunction(Intrinsic::Dissoc)));
    entries.push(("eval".to_owned(), Expression::IntrinsicFunction(Intrinsic::Eval)));
    entries.push(("fn".to_owned(), Expression::IntrinsicFunction(Intrinsic::Fn)));
    entries.push(("html".to_owned(), Expression::IntrinsicFunction(Intrinsic::Html)));
    entries.push(("if".to_owned(), Expression::IntrinsicFunction(Intrinsic::If)));
    entries.push(("merge".to_owned(), Expression::IntrinsicFunction(Intrinsic::Merge)));
    entries.push(("put!".to_owned(), Expression::IntrinsicFunction(Intrinsic::Put)));
    entries.push(("quote".to_owned(), Expression::IntrinsicFunction(Intrinsic::Quote)));
    entries.push(("read-string".to_owned(), Expression::IntrinsicFunction(Intrinsic::ReadString)));
    entries.push(("reset!".to_owned(), Expression::IntrinsicFunction(Intrinsic::Reset)));
    entries.push(("spawn".to_owned(), Expression::IntrinsicFunction(Intrinsic::Spawn)));
    entries.push(("str".to_owned(), Expression::IntrinsicFunction(Intrinsic::Str)));
    entries.push(("swap!".to_owned(), Expression::IntrinsicFunction(Intrinsic::Swap)));
    entries.push(("take!".to_owned(), Expression::IntrinsicFunction(Intrinsic::Take)));
    entries.push(("when".to_owned(), Expression::IntrinsicFunction(Intrinsic::When)));
    proof {
        lemma_view_env_entries(entries@);
        assert(view_env_entries(entries@) =~= core_env());
    }
    Environment { entries }
}

/// The environment the interactive front end starts from: the core bindings,
/// the module's own name under `*name*`, and an `io` namespace whose
/// `read-file` native the host performs when it observes the `"native"`
/// effect carrying handle `0`.
pub fn repl_environment() -> (r: Environment)
    ensures
        r@ == crate::environment::env_insert_v(
            crate::environment::env_insert_v(core_env(), "*name*"@, ExprV::String("repl"@)),
            "io"@,
            ExprV::Module(io_env()),
        ),
{
    let base = environment();
    let named = base.insert("*name*", &Expression::String("repl".to_owned()));
    let mut io_entries: Vec<(String, Expression)> = Vec::new();
    io_entries.push(("*name*".to_owned(), Expression::String("io".to_owned())));
    io_entries.push(("read-file".to_owned(), Expression::NativeFunction(0)));
    proof {
        lemma_view_env_entries(io_entries@);
        assert(view_env_entries(io_entries@) =~= io_env());
    }
    let io = Expression::Module(Environment { entries: io_entries });
    named.insert("io", &io)
}

} // verus!
