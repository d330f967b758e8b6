//! A verified core for a homoiconic, Lisp-family expression language:
//! lexical analysis, reader syntax parsing, an algebraic value model with a
//! total order, an immutable environment, pattern-matched function dispatch,
//! an effect-raising evaluator, and deterministic cooperative concurrency
//! primitives (atoms, channels, spawned tasks).

pub mod builtins;
pub mod environment;
pub mod effect;
pub mod evaluator;
pub mod expression;
pub mod laws;
pub mod matcher;
pub mod numerics;
pub mod order;
pub mod parser;
pub mod reader;
pub mod render;
pub mod store;
pub mod tokenizer;
pub mod valmap;

pub use builtins::environment;
pub use builtins::repl_environment;
pub use evaluator::DEFAULT_FUEL;
pub use evaluator::MAIN_TASK;
pub use evaluator::drain_tasks;
pub use evaluator::evaluate;
pub use evaluator::evaluate_expressions;
pub use evaluator::evaluate_source;
pub use evaluator::evaluate_source_with;
pub use evaluator::evaluate_with;
pub use expression::Environment;
pub use expression::Expression;
pub use expression::Float;
pub use expression::Intrinsic;
pub use expression::Pattern;
pub use expression::RaisedEffect;
pub use expression::Token;
pub use matcher::pattern_match;
pub use parser::parse;
pub use parser::parse_module;
pub use order::Cmp;
pub use order::compare;
pub use order::expr_eq;
pub use reader::StdinIterator;
pub use render::render;
pub use render::render_effect;
pub use store::Store;
pub use tokenizer::tokenize;
