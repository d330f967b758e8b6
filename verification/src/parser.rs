//! The reader: recursive descent over the token stream, yielding one
//! expression or the ordered sequence of top-level expressions.  The
//! executable parser is proved to produce exactly the expression of the
//! specification-level parser.

use vstd::prelude::*;

use crate::expression::Environment;
use crate::expression::ExprV;
use crate::expression::Expression;
use crate::expression::RaisedEffect;
use crate::expression::Token;
use crate::expression::TokenV;
use crate::expression::lemma_view_exprs;
use crate::expression::view_exprs;
use crate::expression::view_expr_pairs;
use crate::effect::raise;
use crate::tokenizer::lemma_view_tokens;
use crate::tokenizer::view_tokens;
use crate::valmap::MapV;
use crate::valmap::map_insert;
use crate::valmap::map_insert_v;

verus! {

broadcast use vstd::std_specs::vec::group_vec_axioms, vstd::seq::group_seq_axioms;

/// The expression a bare symbol denotes: the literals `true`, `false` and
/// `nil` read as themselves, everything else reads as a symbol.
pub open spec fn sym_expr(text: Seq<char>) -> ExprV {
    if text == "true"@ {
        ExprV::Bool(true)
    } else if text == "false"@ {
        ExprV::Bool(false)
    } else if text == "nil"@ {
        ExprV::Nil
    } else {
        ExprV::Symbol(text)
    }
}

/// The closing delimiter for each bracketed form.
pub open spec fn closer_of(kind: u8) -> TokenV {
    if kind == 0 {
        TokenV::RightParen
    } else if kind == 1 {
        TokenV::RightBracket
    } else {
        TokenV::RightBrace
    }
}

/// The mapping a brace form denotes: entries written into an empty mapping
/// left to right, so a repeated key keeps its last value.
pub open spec fn entries_to_map(ps: Seq<(ExprV, ExprV)>) -> MapV
    decreases ps.len(),
{
    if ps.len() == 0 {
        Seq::empty()
    } else {
        map_insert_v(entries_to_map(ps.drop_last()), ps.last().0, ps.last().1)
    }
}

/// Parses one expression at position `i`; yields the expression and the
/// position after it, or nothing when the stream is malformed there.
pub open spec fn parse_at(toks: Seq<TokenV>, i: int) -> Option<(ExprV, int)>
    decreases toks.len() - i, 0nat,
{
    if i < 0 || i >= toks.len() {
        None
    } else {
        match toks[i] {
            TokenV::Symbol(s) => Some((sym_expr(s), i + 1)),
            TokenV::NamespacedSymbol(s) => Some((ExprV::NamespacedSymbol(s), i + 1)),
            TokenV::Keyword(s) => Some((ExprV::Keyword(s), i + 1)),
            TokenV::String(s) => Some((ExprV::String(s), i + 1)),
            TokenV::Integer(v) => Some((ExprV::Integer(v), i + 1)),
            TokenV::Float(f) => Some((ExprV::Float(f), i + 1)),
            TokenV::Ratio(n, d) => Some((ExprV::Ratio(n, d), i + 1)),
            TokenV::LeftParen => match parse_at(toks, i + 1) {
                Some((f, j)) => if j <= i + 1 || j > toks.len() {
                    None
                } else {
                    match parse_many(toks, j, 0) {
                        Some((args, k)) => Some(
                            (ExprV::Call { function: Box::new(f), arguments: args }, k),
                        ),
                        None => None,
                    }
                },
                None => None,
            },
            TokenV::LeftBracket => match parse_many(toks, i + 1, 1) {
                Some((items, k)) => Some((ExprV::Array(items), k)),
                None => None,
            },
            TokenV::LeftBrace => match parse_entries(toks, i + 1) {
                Some((ps, k)) => Some((ExprV::Mapping(entries_to_map(ps)), k)),
                None => None,
            },
            TokenV::Quote => match parse_at(toks, i + 1) {
                Some((e, j)) => Some((ExprV::Quote(Box::new(e)), j)),
                None => None,
            },
            TokenV::Deref => match parse_at(toks, i + 1) {
                Some((e, j)) => Some((ExprV::Deref(Box::new(e)), j)),
                None => None,
            },
            _ => None,
        }
    }
}

/// Parses expressions until the closing delimiter of the given kind.
pub open spec fn parse_many(toks: Seq<TokenV>, i: int, kind: u8) -> Option<(Seq<ExprV>, int)>
    decreases toks.len() - i, 1nat,
{
    if i < 0 || i >= toks.len() {
        None
    } else if toks[i] == closer_of(kind) {
        Some((Seq::empty(), i + 1))
    } else {
        match parse_at(toks, i) {
            Some((e, j)) => if j <= i || j > toks.len() {
                None
            } else {
                match parse_many(toks, j, kind) {
                    Some((rest, k)) => Some((seq![e] + rest, k)),
                    None => None,
                }
            },
            None => None,
        }
    }
}

/// Parses key and value expressions until the closing brace.
pub open spec fn parse_entries(toks: Seq<TokenV>, i: int) -> Option<(Seq<(ExprV, ExprV)>, int)>
    decreases toks.len() - i, 1nat,
{
    if i < 0 || i >= toks.len() {
        None
    } else if toks[i] == TokenV::RightBrace {
        Some((Seq::empty(), i + 1))
    } else {
        match parse_at(toks, i) {
            Some((key, j)) => if j <= i || j > toks.len() {
                None
            } else {
                match parse_at(toks, j) {
                    Some((value, k)) => if k <= j || k > toks.len() {
                        None
                    } else {
                        match parse_entries(toks, k) {
                            Some((rest, m)) => Some((seq![(key, value)] + rest, m)),
                            None => None,
                        }
                    },
                    None => None,
                }
            },
            None => None,
        }
    }
}

/// The ordered sequence of top-level expressions, when the whole stream
/// parses.
pub open spec fn parse_module_at(toks: Seq<TokenV>, i: int) -> Option<Seq<ExprV>>
    decreases toks.len() - i,
{
    if i < 0 || i > toks.len() {
        None
    } else if i == toks.len() {
        Some(Seq::empty())
    } else {
        match parse_at(toks, i) {
            Some((e, j)) => if j <= i || j > toks.len() {
                None
            } else {
                match parse_module_at(toks, j) {
                    Some(rest) => Some(seq![e] + rest),
                    None => None,
                }
            },
            None => None,
        }
    }
}

/// Parses one expression at position `i`, in executable form.
fn parse_at_x(toks: &Vec<Token>, i: usize) -> (r: Option<(Expression, usize)>)
    ensures
        match r {
            Some(p) => parse_at(view_tokens(toks@), i as int) == Some((p.0@, p.1 as int)) && i
                < p.1 <= toks@.len(),
            None => parse_at(view_tokens(toks@), i as int) is None,
        },
    decreases toks@.len() - i, 0nat,
{
    proof {
        lemma_view_tokens(toks@);
    }
    if i >= toks.len() {
        return None;
    }
    match &toks[i] {
        Token::Symbol(s) => {
            let text: &str = s.as_str();
            proof {
                crate::order::lemma_str_eq_subst(s@, "true"@);
                crate::order::lemma_str_eq_subst(s@, "false"@);
                crate::order::lemma_str_eq_subst(s@, "nil"@);
                if s@ == "true"@ {
                    crate::order::lemma_cmp_str_refl(s@, 0);
                }
                if s@ == "false"@ {
                    crate::order::lemma_cmp_str_refl(s@, 0);
                }
                if s@ == "nil"@ {
                    crate::order::lemma_cmp_str_refl(s@, 0);
                }
            }
            let e = if matches!(crate::order::compare_text(text, "true", 0), crate::order::Cmp::Eq) {
                Expression::Bool(true)
            } else if matches!(
                crate::order::compare_text(text, "false", 0),
                crate::order::Cmp::Eq,
            ) {
                Expression::Bool(false)
            } else if matches!(crate::order::compare_text(text, "nil", 0), crate::order::Cmp::Eq) {
                Expression::Nil
            } else {
                Expression::Symbol(s.clone())
            };
            Some((e, i + 1))
        },
        Token::NamespacedSymbol(s) => Some((Expression::NamespacedSymbol(s.clone()), i + 1)),
        Token::Keyword(s) => Some((Expression::Keyword(s.clone()), i + 1)),
        Token::String(s) => Some((Expression::String(s.clone()), i + 1)),
        Token::Integer(v) => Some((Expression::Integer(*v), i + 1)),
        Token::Float(f) => Some((Expression::Float(*f), i + 1)),
        Token::Ratio(n, d) => Some((Expression::Ratio(*n, *d), i + 1)),
        Token::LeftParen => {
            match parse_at_x(toks, i + 1) {
                Some((f, j)) => {
                    match parse_many_x(toks, j, 0) {
                        Some((args, k)) => Some(
                            (Expression::Call { function: Box::new(f), arguments: args }, k),
                        ),
                        None => None,
                    }
                },
                None => None,
            }
        },
        Token::LeftBracket => {
            match parse_many_x(toks, i + 1, 1) {
                Some((items, k)) => Some((Expression::Array(items), k)),
                None => None,
            }
        },
        Token::LeftBrace => {
            match parse_entries_x(toks, i + 1) {
                Some((entries, k)) => Some((Expression::Mapping(fold_entries(&entries)), k)),
                None => None,
            }
        },
        Token::Quote => {
            match parse_at_x(toks, i + 1) {
                Some((e, j)) => Some((Expression::Quote(Box::new(e)), j)),
                None => None,
            }
        },
        Token::Deref => {
            match parse_at_x(toks, i + 1) {
                Some((e, j)) => Some((Expression::Deref(Box::new(e)), j)),
                None => None,
            }
        },
        _ => None,
    }
}

/// Parses expressions until the closing delimiter, in executable form; the
/// resulting vector views to the parsed sequence.
fn parse_many_x(toks: &Vec<Token>, i: usize, kind: u8) -> (r: Option<(Vec<Expression>, usize)>)
    ensures
        match r {
            Some(p) => {
                &&& parse_many(view_tokens(toks@), i as int, kind) matches Some(q)
                &&& q.0 == view_exprs(p.0@)
                &&& q.1 == p.1 as int
                &&& i < p.1 <= toks@.len()
            },
            None => parse_many(view_tokens(toks@), i as int, kind) is None,
        },
    decreases toks@.len() - i, 1nat,
{
    proof {
        lemma_view_tokens(toks@);
    }
    if i >= toks.len() {
        return None;
    }
    let is_closer = match &toks[i] {
        Token::RightParen => kind == 0,
        Token::RightBracket => kind == 1,
        Token::RightBrace => kind >= 2,
        _ => false,
    };
    proof {
        assert(is_closer == (view_tokens(toks@)[i as int] == closer_of(kind)));
    }
    if is_closer {
        let out: Vec<Expression> = Vec::new();
        proof {
            assert(view_exprs(out@) =~= Seq::<ExprV>::empty());
        }
        return Some((out, i + 1));
    }
    match parse_at_x(toks, i) {
        Some((e, j)) => {
            match parse_many_x(toks, j, kind) {
                Some((rest, k)) => {
                    let mut out: Vec<Expression> = Vec::new();
                    out.push(e);
                    let ghost first = out@;
                    let mut rest2 = rest;
                    let ghost rv = rest2@;
                    out.append(&mut rest2);
                    proof {
                        lemma_view_exprs(out@);
                        lemma_view_exprs(first);
                        lemma_view_exprs(rv);
                        assert(view_exprs(out@) =~= seq![first[0]@] + view_exprs(rv));
                    }
                    Some((out, k))
                },
                None => None,
            }
        },
        None => None,
    }
}

/// Parses key and value expressions until the closing brace, in executable
/// form, writing each pair into the mapping in reading order.
fn parse_entries_x(toks: &Vec<Token>, i: usize) -> (r: Option<
    (Vec<(Expression, Expression)>, usize),
>)
    ensures
        match r {
            Some(p) => {
                &&& parse_entries(view_tokens(toks@), i as int) matches Some(q)
                &&& q.0 == view_expr_pairs(p.0@)
                &&& q.1 == p.1 as int
                &&& i < p.1 <= toks@.len()
            },
            None => parse_entries(view_tokens(toks@), i as int) is None,
        },
    decreases toks@.len() - i, 1nat,
{
    proof {
        lemma_view_tokens(toks@);
    }
    if i >= toks.len() {
        return None;
    }
    if matches!(&toks[i], Token::RightBrace) {
        let out: Vec<(Expression, Expression)> = Vec::new();
        proof {
            assert(view_expr_pairs(out@) =~= Seq::<(ExprV, ExprV)>::empty());
        }
        return Some((out, i + 1));
    }
    match parse_at_x(toks, i) {
        Some((key, j)) => {
            match parse_at_x(toks, j) {
                Some((value, k)) => {
                    match parse_entries_x(toks, k) {
                        Some((rest, m)) => {
                            let mut out: Vec<(Expression, Expression)> = Vec::new();
                            out.push((key, value));
                            let ghost first = out@;
                            let mut rest2 = rest;
                            let ghost rv = rest2@;
                            out.append(&mut rest2);
                            proof {
                                crate::expression::lemma_view_expr_pairs(out@);
                                crate::expression::lemma_view_expr_pairs(first);
                                crate::expression::lemma_view_expr_pairs(rv);
                                assert(view_expr_pairs(out@) =~= seq![
                                    (first[0].0@, first[0].1@),
                                ] + view_expr_pairs(rv));
                            }
                            Some((out, m))
                        },
                        None => None,
                    }
                },
                None => None,
            }
        },
        None => None,
    }
}

/// Folds an entry vector into a mapping, in reading order.
fn fold_entries(entries: &Vec<(Expression, Expression)>) -> (r: Vec<(Expression, Expression)>)
    ensures
        view_expr_pairs(r@) == entries_to_map(view_expr_pairs(entries@)),
{
    proof {
        crate::expression::lemma_view_expr_pairs(entries@);
    }
    let ghost ps = view_expr_pairs(entries@);
    let mut out: Vec<(Expression, Expression)> = Vec::new();
    proof {
        assert(view_expr_pairs(out@) =~= Seq::<(ExprV, ExprV)>::empty());
        assert(ps.subrange(0, 0) =~= Seq::<(ExprV, ExprV)>::empty());
    }
    let mut i: usize = 0;
    while i < entries.len()
        invariant
            i <= entries@.len(),
            ps == view_expr_pairs(entries@),
            ps.len() == entries@.len(),
            forall|j: int| 0 <= j < ps.len() ==> ps[j] == (entries@[j].0@, entries@[j].1@),
            view_expr_pairs(out@) == entries_to_map(ps.subrange(0, i as int)),
        decreases entries@.len() - i,
    {
        proof {
            assert(ps.subrange(0, i as int + 1).drop_last() =~= ps.subrange(0, i as int));
            assert(ps.subrange(0, i as int + 1).last() == ps[i as int]);
        }
        out = map_insert(&out, &entries[i].0, &entries[i].1);
        i = i + 1;
    }
    proof {
        assert(ps.subrange(0, entries@.len() as int) =~= ps);
    }
    out
}


/// Whether a token stream holds a malformed lexeme.
pub open spec fn has_error_token(toks: Seq<TokenV>) -> bool {
    exists|i: int| 0 <= i < toks.len() && toks[i] is Error
}

/// The tag a failed parse raises: a malformed lexeme surfaces as
/// `"tokenize-error"`, any other failure as `"parse-error"`.
pub open spec fn parse_fail_tag(toks: Seq<TokenV>) -> Seq<char> {
    if has_error_token(toks) {
        "tokenize-error"@
    } else {
        "parse-error"@
    }
}

/// Finds the message of the first malformed lexeme, if any.
fn find_error_token(tokens: &Vec<Token>) -> (r: Option<String>)
    ensures
        r is Some <==> has_error_token(view_tokens(tokens@)),
{
    proof {
        lemma_view_tokens(tokens@);
    }
    let mut i: usize = 0;
    while i < tokens.len()
        invariant
            i <= tokens@.len(),
            forall|j: int| 0 <= j < i ==> !(view_tokens(tokens@)[j] is Error),
            view_tokens(tokens@).len() == tokens@.len(),
            forall|j: int| 0 <= j < tokens@.len() ==> view_tokens(tokens@)[j] == tokens@[j]@,
        decreases tokens@.len() - i,
    {
        if let Token::Error(m) = &tokens[i] {
            proof {
                assert(view_tokens(tokens@)[i as int] is Error);
            }
            return Some(m.clone());
        }
        i = i + 1;
    }
    None
}

/// The effect a failed parse raises, with the exact tag of `parse_fail_tag`.
fn parse_failure(tokens: &Vec<Token>) -> (r: RaisedEffect)
    ensures
        r@.effect == parse_fail_tag(view_tokens(tokens@)),
{
    let env = Environment::new();
    match find_error_token(tokens) {
        Some(m) => raise(&env, "tokenize-error", m.as_str()),
        None => raise(&env, "parse-error", "unexpected or missing token"),
    }
}

/// Parses one expression from the front of the token stream; unexpected or
/// missing tokens surface as a `"parse-error"` effect, malformed lexemes as
/// `"tokenize-error"`.
pub fn parse(tokens: &Vec<Token>) -> (r: Result<Expression, RaisedEffect>)
    ensures
        match r {
            Ok(e) => parse_at(view_tokens(tokens@), 0) matches Some(p) && p.0 == e@,
            Err(eff) => parse_at(view_tokens(tokens@), 0) is None && eff@.effect
                == parse_fail_tag(view_tokens(tokens@)),
        },
{
    match parse_at_x(tokens, 0) {
        Some((e, _)) => Ok(e),
        None => Err(parse_failure(tokens)),
    }
}

/// Parses the ordered sequence of top-level expressions of a whole stream.
pub fn parse_module(tokens: &Vec<Token>) -> (r: Result<Vec<Expression>, RaisedEffect>)
    ensures
        match r {
            Ok(es) => parse_module_at(view_tokens(tokens@), 0) == Some(view_exprs(es@)),
            Err(eff) => parse_module_at(view_tokens(tokens@), 0) is None && eff@.effect
                == parse_fail_tag(view_tokens(tokens@)),
        },
{
    let ghost toks = view_tokens(tokens@);
    proof {
        lemma_view_tokens(tokens@);
    }
    let mut out: Vec<Expression> = Vec::new();
    let mut i: usize = 0;
    proof {
        assert(view_exprs(out@) =~= Seq::<ExprV>::empty());
    }
    while i < tokens.len()
        invariant
            i <= tokens@.len(),
            toks == view_tokens(tokens@),
            toks.len() == tokens@.len(),
            match parse_module_at(toks, i as int) {
                Some(rest) => parse_module_at(toks, 0) == Some(view_exprs(out@) + rest),
                None => parse_module_at(toks, 0) is None,
            },
        decreases tokens@.len() - i,
    {
        match parse_at_x(tokens, i) {
            Some((e, j)) => {
                let ghost pre = out@;
                out.push(e);
                proof {
                    lemma_view_exprs(out@);
                    lemma_view_exprs(pre);
                    assert(view_exprs(out@) =~= view_exprs(pre) + seq![e@]);
                    if parse_module_at(toks, j as int) is Some {
                        let rest = parse_module_at(toks, j as int)->Some_0;
                        assert(parse_module_at(toks, i as int) == Some(seq![e@] + rest));
                        assert(view_exprs(pre) + (seq![e@] + rest) =~= view_exprs(out@) + rest);
                    }
                }
                i = j;
            },
            None => {
                return Err(parse_failure(tokens));
            },
        }
    }
    proof {
        assert(parse_module_at(toks, tokens@.len() as int) == Some(Seq::<ExprV>::empty()));
        assert(view_exprs(out@) + Seq::<ExprV>::empty() =~= view_exprs(out@));
    }
    Ok(out)
}


/// Every mapping the reader builds is strictly sorted by key.
pub proof fn lemma_entries_to_map_sorted(ps: Seq<(ExprV, ExprV)>)
    ensures
        crate::valmap::map_sorted(entries_to_map(ps)),
    decreases ps.len(),
{
    if ps.len() > 0 {
        lemma_entries_to_map_sorted(ps.drop_last());
        crate::valmap::lemma_insert_sorted(
            entries_to_map(ps.drop_last()),
            ps.last().0,
            ps.last().1,
        );
    }
}

} // verus!
