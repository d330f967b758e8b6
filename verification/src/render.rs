//! The display form of values: scalars as read, strings quoted and escaped,
//! arrays bracketed, mappings braced in key order, calls parenthesised.  The
//! executable renderer is proved to produce exactly the text of the
//! specification-level renderer.

use vstd::prelude::*;

use crate::expression::ExprV;
use crate::expression::Expression;
use crate::expression::Float;
use crate::expression::Pattern;
use crate::expression::PatternV;
use crate::expression::lemma_view_expr_pairs;
use crate::expression::lemma_view_exprs;
use crate::expression::lemma_view_patterns;
use crate::expression::view_exprs;
use crate::expression::view_expr_pairs;
use crate::expression::view_patterns;
use crate::tokenizer::string_of;

verus! {

broadcast use vstd::std_specs::vec::group_vec_axioms, vstd::seq::group_seq_axioms;

/// The character of a decimal digit.
pub open spec fn digit_char(d: int) -> char {
    (('0' as u8) + d) as char
}

/// The decimal digits of a number, most significant first.
pub open spec fn dec_digits(n: nat) -> Seq<char>
    decreases n,
{
    if n < 10 {
        seq![digit_char(n as int)]
    } else {
        dec_digits(n / 10).push(digit_char((n % 10) as int))
    }
}

/// The display form of a signed integer.
pub open spec fn int_text(i: int) -> Seq<char> {
    if i < 0 {
        seq!['-'] + dec_digits((-i) as nat)
    } else {
        dec_digits(i as nat)
    }
}

/// The digits of a decimal mantissa, padded with leading zeros so a digit
/// stands before the point.
pub open spec fn padded_digits(m: nat, scale: nat) -> Seq<char>
    decreases scale,
{
    if scale == 0 {
        dec_digits(m)
    } else {
        let rest = padded_digits(m, (scale - 1) as nat);
        if rest.len() <= scale {
            seq!['0'] + rest
        } else {
            rest
        }
    }
}

/// The display form of a decimal: sign, integer part, point, fraction.
pub open spec fn float_text(f: Float) -> Seq<char> {
    let m = f.mantissa as int;
    let sc = f.scale as nat;
    let mag = if m < 0 {
        (-m) as nat
    } else {
        m as nat
    };
    let ds = padded_digits(mag, sc);
    let whole = ds.subrange(0, ds.len() - sc);
    let frac = ds.subrange(ds.len() - sc, ds.len() as int);
    let body = whole + seq!['.'] + frac;
    if m < 0 {
        seq!['-'] + body
    } else {
        body
    }
}

/// A string body with the reader escapes reapplied.
pub open spec fn escape_text(s: Seq<char>) -> Seq<char>
    decreases s.len(),
{
    if s.len() == 0 {
        Seq::empty()
    } else {
        let rest = escape_text(s.drop_last());
        let c = s.last();
        if c == '"' {
            rest + seq!['\\', '"']
        } else if c == '\\' {
            rest + seq!['\\', '\\']
        } else if c == '\n' {
            rest + seq!['\\', 'n']
        } else if c == '\t' {
            rest + seq!['\\', 't']
        } else {
            rest.push(c)
        }
    }
}

/// The display form of a value.
pub open spec fn render_spec(e: ExprV) -> Seq<char>
    decreases e, 0nat,
{
    match e {
        ExprV::Nil => "nil"@,
        ExprV::Bool(b) => if b {
            "true"@
        } else {
            "false"@
        },
        ExprV::Integer(i) => int_text(i as int),
        ExprV::Float(f) => float_text(f),
        ExprV::Ratio(n, d) => int_text(n as int) + seq!['/'] + int_text(d as int),
        ExprV::String(s) => seq!['"'] + escape_text(s) + seq!['"'],
        ExprV::Symbol(s) => s,
        ExprV::NamespacedSymbol(s) => s,
        ExprV::Keyword(s) => s,
        ExprV::Array(items) => seq!['['] + render_items(items, ", "@) + seq![']'],
        ExprV::Mapping(entries) => seq!['{'] + render_pairs(entries) + seq!['}'],
        ExprV::Call { function, arguments } => seq!['('] + render_spec(*function)
            + render_prefixed(arguments, " "@) + seq![')'],
        ExprV::Quote(inner) => seq!['\''] + render_spec(*inner),
        ExprV::Deref(inner) => seq!['@'] + render_spec(*inner),
        ExprV::Function { env, patterns } => "(fn"@ + render_clauses(patterns) + seq![')'],
        ExprV::IntrinsicFunction(_) => "#intrinsic"@,
        ExprV::NativeFunction(_) => "#native"@,
        ExprV::Atom(_) => "#atom"@,
        ExprV::Channel(_) => "#channel"@,
        ExprV::Module(_) => "#module"@,
        ExprV::NativeType(_) => "#native-type"@,
    }
}

/// Renders a sequence of values with a separator between neighbours.
pub open spec fn render_items(items: Seq<ExprV>, sep: Seq<char>) -> Seq<char>
    decreases items, items.len(), 1nat,
{
    if items.len() == 0 {
        Seq::empty()
    } else if items.len() == 1 {
        render_spec(items[0])
    } else {
        render_spec(items[0]) + sep + render_items(items.drop_first(), sep)
    }
}

/// Renders every value with the separator before it.
pub open spec fn render_prefixed(items: Seq<ExprV>, sep: Seq<char>) -> Seq<char>
    decreases items, items.len(), 1nat,
{
    if items.len() == 0 {
        Seq::empty()
    } else {
        sep + render_spec(items[0]) + render_prefixed(items.drop_first(), sep)
    }
}

/// Renders the entries of a mapping as `k v` pairs separated by commas.
pub open spec fn render_pairs(entries: Seq<(ExprV, ExprV)>) -> Seq<char>
    decreases entries, entries.len(), 1nat,
{
    if entries.len() == 0 {
        Seq::empty()
    } else if entries.len() == 1 {
        render_spec(entries[0].0) + seq![' '] + render_spec(entries[0].1)
    } else {
        render_spec(entries[0].0) + seq![' '] + render_spec(entries[0].1) + ", "@
            + render_pairs(entries.drop_first())
    }
}

/// Renders the clauses of a function: each parameter list then its body.
pub open spec fn render_clauses(patterns: Seq<PatternV>) -> Seq<char>
    decreases patterns, patterns.len(), 1nat,
{
    if patterns.len() == 0 {
        Seq::empty()
    } else {
        " ["@ + render_items(patterns[0].parameters, " "@) + seq![']'] + render_prefixed(
            patterns[0].body,
            " "@,
        ) + render_clauses(patterns.drop_first())
    }
}


/// The decimal digits of a number, in executable form.
fn dec_digits_x(n: u64) -> (r: Vec<char>)
    ensures
        r@ == dec_digits(n as nat),
    decreases n,
{
    if n < 10 {
        let c: char = (48u8 + (n as u8)) as char;
        let mut out: Vec<char> = Vec::new();
        out.push(c);
        proof {
            assert(out@ =~= seq![digit_char(n as int)]);
        }
        out
    } else {
        let mut out = dec_digits_x(n / 10);
        let c: char = (48u8 + ((n % 10) as u8)) as char;
        out.push(c);
        out
    }
}

/// The magnitude of a machine integer, in executable form.
fn magnitude_x(i: i64) -> (r: u64)
    ensures
        r as int == if i < 0 {
            -(i as int)
        } else {
            i as int
        },
{
    if i < 0 {
        (-(i as i128)) as u64
    } else {
        i as u64
    }
}

/// The display form of a signed integer, in executable form.
fn int_text_x(i: i64) -> (r: Vec<char>)
    ensures
        r@ == int_text(i as int),
{
    let mag = magnitude_x(i);
    let ds = dec_digits_x(mag);
    if i < 0 {
        let mut out: Vec<char> = Vec::new();
        out.push('-');
        let ghost first = out@;
        let mut ds2 = ds;
        let ghost dv = ds2@;
        out.append(&mut ds2);
        proof {
            assert(out@ =~= seq!['-'] + dv);
        }
        out
    } else {
        ds
    }
}

/// The padded digits of a decimal mantissa, in executable form.
fn padded_digits_x(m: u64, sc: u32) -> (r: Vec<char>)
    ensures
        r@ == padded_digits(m as nat, sc as nat),
        r@.len() > sc,
    decreases sc,
{
    proof {
        lemma_padded_len(m as nat, sc as nat);
    }
    if sc == 0 {
        dec_digits_x(m)
    } else {
        let rest = padded_digits_x(m, sc - 1);
        if rest.len() <= sc as usize {
            let mut out = rest;
            let ghost rv = out@;
            out.insert(0, '0');
            proof {
                assert(out@ =~= seq!['0'] + rv);
            }
            out
        } else {
            rest
        }
    }
}

/// Padded digits stand at least one place before the point.
proof fn lemma_padded_len(m: nat, sc: nat)
    ensures
        padded_digits(m, sc).len() > sc,
    decreases sc,
{
    if sc == 0 {
        lemma_dec_digits_len(m);
    } else {
        lemma_padded_len(m, (sc - 1) as nat);
    }
}

/// A number has at least one digit.
proof fn lemma_dec_digits_len(n: nat)
    ensures
        dec_digits(n).len() >= 1,
    decreases n,
{
    if n >= 10 {
        lemma_dec_digits_len(n / 10);
    }
}

/// The display form of a decimal, in executable form.
fn float_text_x(f: &Float) -> (r: Vec<char>)
    ensures
        r@ == float_text(*f),
{
    let mag = magnitude_x(f.mantissa);
    let ds = padded_digits_x(mag, f.scale);
    let cut = ds.len() - (f.scale as usize);
    let mut out = ds;
    let ghost dv = out@;
    out.insert(cut, '.');
    proof {
        assert(out@ =~= dv.subrange(0, cut as int) + seq!['.'] + dv.subrange(
            cut as int,
            dv.len() as int,
        ));
    }
    if f.mantissa < 0 {
        let mut signed: Vec<char> = Vec::new();
        signed.push('-');
        let ghost bv = out@;
        signed.append(&mut out);
        proof {
            assert(signed@ =~= seq!['-'] + bv);
        }
        signed
    } else {
        out
    }
}

/// The escaped body of a string, in executable form.
fn escape_text_x(s: &str) -> (r: Vec<char>)
    ensures
        r@ == escape_text(s@),
{
    let n = s.unicode_len();
    let mut out: Vec<char> = Vec::new();
    let mut i: usize = 0;
    proof {
        assert(out@ =~= escape_text(s@.subrange(0, 0)));
    }
    while i < n
        invariant
            i <= n,
            n == s@.len(),
            out@ == escape_text(s@.subrange(0, i as int)),
        decreases n - i,
    {
        proof {
            assert(s@.subrange(0, i as int + 1).drop_last() =~= s@.subrange(0, i as int));
            assert(s@.subrange(0, i as int + 1).last() == s@[i as int]);
        }
        let c = s.get_char(i);
        if c == '"' {
            out.push('\\');
            out.push('"');
        } else if c == '\\' {
            out.push('\\');
            out.push('\\');
        } else if c == '\n' {
            out.push('\\');
            out.push('n');
        } else if c == '\t' {
            out.push('\\');
            out.push('t');
        } else {
            out.push(c);
        }
        i = i + 1;
        proof {
            assert(out@ =~= escape_text(s@.subrange(0, i as int)));
        }
    }
    proof {
        assert(s@.subrange(0, n as int) =~= s@);
    }
    out
}

/// Appends text to a character buffer.
fn append_text(out: &mut Vec<char>, text: &str)
    ensures
        final(out)@ == old(out)@ + text@,
{
    let mut cs = crate::tokenizer::chars_of(text);
    let ghost cv = cs@;
    out.append(&mut cs);
    proof {
        assert(final(out)@ =~= old(out)@ + cv);
    }
}

/// The display form of a value, as characters.
pub fn render_chars(e: &Expression) -> (r: Vec<char>)
    ensures
        r@ == render_spec(e@),
    decreases *e, 0nat,
{
    match e {
        Expression::Nil => crate::tokenizer::chars_of("nil"),
        Expression::Bool(b) => if *b {
            crate::tokenizer::chars_of("true")
        } else {
            crate::tokenizer::chars_of("false")
        },
        Expression::Integer(i) => int_text_x(*i),
        Expression::Float(f) => float_text_x(f),
        Expression::Ratio(n, d) => {
            let mut out = int_text_x(*n);
            out.push('/');
            let ghost pre = out@;
            let mut den = int_text_x(*d);
            let ghost dv = den@;
            out.append(&mut den);
            proof {
                assert(out@ =~= int_text(*n as int) + seq!['/'] + int_text(*d as int));
            }
            out
        },
        Expression::String(s) => {
            let mut out: Vec<char> = Vec::new();
            out.push('"');
            let mut body = escape_text_x(s.as_str());
            let ghost bv = body@;
            out.append(&mut body);
            out.push('"');
            proof {
                assert(out@ =~= seq!['"'] + escape_text(s@) + seq!['"']);
            }
            out
        },
        Expression::Symbol(s) => crate::tokenizer::chars_of(s.as_str()),
        Expression::NamespacedSymbol(s) => crate::tokenizer::chars_of(s.as_str()),
        Expression::Keyword(s) => crate::tokenizer::chars_of(s.as_str()),
        Expression::Array(items) => {
            let mut out: Vec<char> = Vec::new();
            out.push('[');
            let mut body = render_items_x(items, 0, ", ");
            let ghost bv = body@;
            out.append(&mut body);
            out.push(']');
            proof {
                lemma_view_exprs(items@);
                assert(view_exprs(items@).skip(0) =~= view_exprs(items@));
                assert(out@ =~= seq!['['] + bv + seq![']']);
            }
            out
        },
        Expression::Mapping(entries) => {
            let mut out: Vec<char> = Vec::new();
            out.push('{');
            let mut body = render_pairs_x(entries, 0);
            let ghost bv = body@;
            out.append(&mut body);
            out.push('}');
            proof {
                lemma_view_expr_pairs(entries@);
                assert(view_expr_pairs(entries@).skip(0) =~= view_expr_pairs(entries@));
                assert(out@ =~= seq!['{'] + bv + seq!['}']);
            }
            out
        },
        Expression::Call { function, arguments } => {
            let mut out: Vec<char> = Vec::new();
            out.push('(');
            let mut head = render_chars(function);
            let ghost hv = head@;
            out.append(&mut head);
            let mut body = render_prefixed_x(arguments, 0, " ");
            let ghost bv = body@;
            out.append(&mut body);
            out.push(')');
            proof {
                lemma_view_exprs(arguments@);
                assert(view_exprs(arguments@).skip(0) =~= view_exprs(arguments@));
                assert(out@ =~= seq!['('] + hv + bv + seq![')']);
            }
            out
        },
        Expression::Quote(inner) => {
            let mut out: Vec<char> = Vec::new();
            out.push('\'');
            let mut body = render_chars(inner);
            let ghost bv = body@;
            out.append(&mut body);
            proof {
                assert(out@ =~= seq!['\''] + bv);
            }
            out
        },
        Expression::Deref(inner) => {
            let mut out: Vec<char> = Vec::new();
            out.push('@');
            let mut body = render_chars(inner);
            let ghost bv = body@;
            out.append(&mut body);
            proof {
                assert(out@ =~= seq!['@'] + bv);
            }
            out
        },
        Expression::Function { env, patterns } => {
            let mut out = crate::tokenizer::chars_of("(fn");
            let ghost pre = out@;
            let mut body = render_clauses_x(patterns, 0);
            let ghost bv = body@;
            out.append(&mut body);
            out.push(')');
            proof {
                lemma_view_patterns(patterns@);
                assert(view_patterns(patterns@).skip(0) =~= view_patterns(patterns@));
                assert(out@ =~= "(fn"@ + bv + seq![')']);
            }
            out
        },
        Expression::IntrinsicFunction(_) => crate::tokenizer::chars_of("#intrinsic"),
        Expression::NativeFunction(_) => crate::tokenizer::chars_of("#native"),
        Expression::Atom(_) => crate::tokenizer::chars_of("#atom"),
        Expression::Channel(_) => crate::tokenizer::chars_of("#channel"),
        Expression::Module(_) => crate::tokenizer::chars_of("#module"),
        Expression::NativeType(_) => crate::tokenizer::chars_of("#native-type"),
    }
}

/// Renders the items from position `i` on, separated, in executable form.
fn render_items_x(items: &Vec<Expression>, i: usize, sep: &str) -> (r: Vec<char>)
    requires
        i <= items@.len(),
    ensures
        r@ == render_items(view_exprs(items@).skip(i as int), sep@),
    decreases *items, items@.len() - i, 1nat,
{
    proof {
        lemma_view_exprs(items@);
        assert(view_exprs(items@).skip(i as int).len() == items@.len() - i);
    }
    let ghost tail = view_exprs(items@).skip(i as int);
    if i >= items.len() {
        Vec::new()
    } else if i + 1 == items.len() {
        let out = render_chars(&items[i]);
        proof {
            assert(tail[0] == view_exprs(items@)[i as int]);
        }
        out
    } else {
        let mut out = render_chars(&items[i]);
        append_text(&mut out, sep);
        let mut rest = render_items_x(items, i + 1, sep);
        let ghost rv = rest@;
        out.append(&mut rest);
        proof {
            assert(tail[0] == view_exprs(items@)[i as int]);
            assert(tail.drop_first() =~= view_exprs(items@).skip(i as int + 1));
            assert(out@ =~= render_spec(tail[0]) + sep@ + rv);
        }
        out
    }
}

/// Renders each item with the separator before it, in executable form.
fn render_prefixed_x(items: &Vec<Expression>, i: usize, sep: &str) -> (r: Vec<char>)
    requires
        i <= items@.len(),
    ensures
        r@ == render_prefixed(view_exprs(items@).skip(i as int), sep@),
    decreases *items, items@.len() - i, 1nat,
{
    proof {
        lemma_view_exprs(items@);
        assert(view_exprs(items@).skip(i as int).len() == items@.len() - i);
    }
    let ghost tail = view_exprs(items@).skip(i as int);
    if i >= items.len() {
        Vec::new()
    } else {
        let mut out = crate::tokenizer::chars_of(sep);
        let mut head = render_chars(&items[i]);
        let ghost hv = head@;
        out.append(&mut head);
        let mut rest = render_prefixed_x(items, i + 1, sep);
        let ghost rv = rest@;
        out.append(&mut rest);
        proof {
            assert(tail[0] == view_exprs(items@)[i as int]);
            assert(tail.drop_first() =~= view_exprs(items@).skip(i as int + 1));
            assert(out@ =~= sep@ + hv + rv);
        }
        out
    }
}

/// Renders the entries from position `i` on, in executable form.
fn render_pairs_x(entries: &Vec<(Expression, Expression)>, i: usize) -> (r: Vec<char>)
    requires
        i <= entries@.len(),
    ensures
        r@ == render_pairs(view_expr_pairs(entries@).skip(i as int)),
    decreases *entries, entries@.len() - i, 1nat,
{
    proof {
        lemma_view_expr_pairs(entries@);
        assert(view_expr_pairs(entries@).skip(i as int).len() == entries@.len() - i);
    }
    let ghost tail = view_expr_pairs(entries@).skip(i as int);
    if i >= entries.len() {
        Vec::new()
    } else {
        let mut out = render_chars(&entries[i].0);
        out.push(' ');
        let mut v = render_chars(&entries[i].1);
        let ghost vv = v@;
        out.append(&mut v);
        proof {
            assert(tail[0] == view_expr_pairs(entries@)[i as int]);
        }
        if i + 1 == entries.len() {
            proof {
                assert(out@ =~= render_spec(tail[0].0) + seq![' '] + render_spec(tail[0].1));
            }
            out
        } else {
            append_text(&mut out, ", ");
            let mut rest = render_pairs_x(entries, i + 1);
            let ghost rv = rest@;
            out.append(&mut rest);
            proof {
                assert(tail.drop_first() =~= view_expr_pairs(entries@).skip(i as int + 1));
                assert(out@ =~= render_spec(tail[0].0) + seq![' '] + render_spec(tail[0].1)
                    + ", "@ + rv);
            }
            out
        }
    }
}

/// Renders the clauses from position `i` on, in executable form.
fn render_clauses_x(patterns: &Vec<Pattern>, i: usize) -> (r: Vec<char>)
    requires
        i <= patterns@.len(),
    ensures
        r@ == render_clauses(view_patterns(patterns@).skip(i as int)),
    decreases *patterns, patterns@.len() - i, 1nat,
{
    proof {
        lemma_view_patterns(patterns@);
        assert(view_patterns(patterns@).skip(i as int).len() == patterns@.len() - i);
    }
    let ghost tail = view_patterns(patterns@).skip(i as int);
    if i >= patterns.len() {
        Vec::new()
    } else {
        let mut out = crate::tokenizer::chars_of(" [");
        let mut ps = render_items_x(&patterns[i].parameters, 0, " ");
        let ghost pv = ps@;
        out.append(&mut ps);
        out.push(']');
        let mut body = render_prefixed_x(&patterns[i].body, 0, " ");
        let ghost bv = body@;
        out.append(&mut body);
        let mut rest = render_clauses_x(patterns, i + 1);
        let ghost rv = rest@;
        out.append(&mut rest);
        proof {
            assert(tail[0] == view_patterns(patterns@)[i as int]);
            assert(tail.drop_first() =~= view_patterns(patterns@).skip(i as int + 1));
            assert(view_exprs(patterns@[i as int].parameters@).skip(0) =~= view_exprs(
                patterns@[i as int].parameters@,
            ));
            assert(view_exprs(patterns@[i as int].body@).skip(0) =~= view_exprs(
                patterns@[i as int].body@,
            ));
            assert(out@ =~= " ["@ + pv + seq![']'] + bv + rv);
        }
        out
    }
}

/// The display form of a value.
pub fn render(e: &Expression) -> (r: String)
    ensures
        r@ == render_spec(e@),
{
    let cs = render_chars(e);
    string_of(&cs)
}


/// The display form of a raised effect: the tag, then each argument.
pub open spec fn render_effect_spec(e: crate::expression::EffectV) -> Seq<char> {
    e.effect + render_prefixed(e.arguments, " "@)
}

/// The display form of a raised effect.
pub fn render_effect(e: &crate::expression::RaisedEffect) -> (r: String)
    ensures
        r@ == render_effect_spec(e@),
{
    let mut out = crate::tokenizer::chars_of(e.effect.as_str());
    let mut body = render_prefixed_x(&e.arguments, 0, " ");
    let ghost bv = body@;
    out.append(&mut body);
    proof {
        lemma_view_exprs(e.arguments@);
        assert(view_exprs(e.arguments@).skip(0) =~= view_exprs(e.arguments@));
        assert(out@ =~= e.effect@ + bv);
    }
    crate::tokenizer::string_of(&out)
}

} // verus!
