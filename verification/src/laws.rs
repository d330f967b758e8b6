//! The read–print law: reading the display form of a value restores the
//! value.  It is proved here for machine-ranged integers, the fragment where
//! it holds without qualification; the reader's numeric range bounds the law
//! for wider literals, and a symbol whose text holds a separator has no
//! reading at all.

use vstd::prelude::*;

use crate::expression::ExprV;
use crate::expression::TokenV;
use crate::parser::parse_at;
use crate::render::dec_digits;
use crate::render::digit_char;
use crate::render::int_text;
use crate::render::render_spec;
use crate::tokenizer::all_digits;
use crate::tokenizer::classify_number;
use crate::tokenizer::digits_val;
use crate::tokenizer::find_char;
use crate::tokenizer::ident_end;
use crate::tokenizer::is_digit;
use crate::tokenizer::is_ident;
use crate::tokenizer::is_ws;
use crate::tokenizer::next_token;
use crate::tokenizer::skip_ws;
use crate::tokenizer::strip_sep;
use crate::tokenizer::tokenize_from;
use crate::tokenizer::tokenize_spec;

verus! {

broadcast use vstd::std_specs::vec::group_vec_axioms, vstd::seq::group_seq_axioms;

/// The character of a digit is a digit and carries its value.
proof fn lemma_digit_char(d: int)
    requires
        0 <= d <= 9,
    ensures
        is_digit(digit_char(d)),
        digit_char(d) as u32 == 48 + d,
{
}

/// The digits of a number are digit characters, there is at least one, and
/// they denote the number.
proof fn lemma_dec_digits(n: nat)
    ensures
        dec_digits(n).len() >= 1,
        forall|k: int| 0 <= k < dec_digits(n).len() ==> is_digit(#[trigger] dec_digits(n)[k]),
        digits_val(dec_digits(n)) == n,
    decreases n,
{
    if n < 10 {
        lemma_digit_char(n as int);
        assert(seq![digit_char(n as int)].drop_last() =~= Seq::<char>::empty());
        assert(digits_val(Seq::<char>::empty()) == 0);
    } else {
        lemma_dec_digits(n / 10);
        lemma_digit_char((n % 10) as int);
        let ds = dec_digits(n);
        assert(ds.drop_last() =~= dec_digits(n / 10));
        assert(digits_val(ds) == (n / 10) * 10 + n % 10);
        assert(n == (n / 10) * 10 + n % 10) by (nonlinear_arith);
    }
}

/// At most `k` digits write a number under `10^k`.
proof fn lemma_dec_digits_len(n: nat, k: nat)
    requires
        k >= 1,
        n < crate::order::pow10(k),
    ensures
        dec_digits(n).len() <= k,
    decreases n,
{
    if n < 10 {
    } else {
        assert(k >= 2) by {
            if k == 1 {
                assert(crate::order::pow10(1) == 10) by {
                    reveal_with_fuel(crate::order::pow10, 2);
                }
            }
        }
        assert(n / 10 < crate::order::pow10((k - 1) as nat)) by (nonlinear_arith)
            requires
                n < crate::order::pow10(k),
                crate::order::pow10(k) == 10 * crate::order::pow10((k - 1) as nat),
                n >= 10,
        ;
        lemma_dec_digits_len(n / 10, (k - 1) as nat);
    }
}

/// A run without separators strips to itself.
proof fn lemma_strip_sep_id(u: Seq<char>)
    requires
        forall|k: int| 0 <= k < u.len() ==> u[k] != '_',
    ensures
        strip_sep(u) == u,
    decreases u.len(),
{
    if u.len() > 0 {
        lemma_strip_sep_id(u.drop_last());
        assert(strip_sep(u) =~= u);
    } else {
        assert(strip_sep(u) =~= u);
    }
}

/// A character that occurs nowhere from `i` on is not found.
proof fn lemma_find_char_none(u: Seq<char>, c: char, i: int)
    requires
        0 <= i,
        forall|k: int| i <= k < u.len() ==> u[k] != c,
    ensures
        find_char(u, c, i) < 0,
    decreases u.len() - i,
{
    if i < u.len() {
        lemma_find_char_none(u, c, i + 1);
    }
}

/// A text of identifier characters runs to its end.
proof fn lemma_ident_end_full(s: Seq<char>, i: int)
    requires
        0 <= i <= s.len(),
        forall|k: int| i <= k < s.len() ==> is_ident(#[trigger] s[k]),
    ensures
        ident_end(s, i) == s.len(),
    decreases s.len() - i,
{
    if i < s.len() {
        lemma_ident_end_full(s, i + 1);
    }
}

/// The display form of a machine-ranged integer reads back as exactly its
/// integer token.
proof fn lemma_int_text_classifies(i: i64)
    requires
        -1_000_000_000_000_000_000 < i < 1_000_000_000_000_000_000,
    ensures
        ({
            let text = int_text(i as int);
            &&& text.len() >= 1
            &&& forall|k: int| 0 <= k < text.len() ==> is_ident(#[trigger] text[k])
            &&& !is_ws(text[0])
            &&& is_digit(text[0]) || (text[0] == '-' && 1 < text.len() && is_digit(text[1]))
            &&& classify_number(text) == TokenV::Integer(i)
        }),
{
    let text = int_text(i as int);
    let mag: nat = if i >= 0 {
        i as nat
    } else {
        (-(i as int)) as nat
    };
    let ds = dec_digits(mag);
    lemma_dec_digits(mag);
    crate::order::lemma_pow10_18();
    lemma_dec_digits_len(mag, 18);
    assert(forall|k: int| 0 <= k < text.len() ==> is_ident(#[trigger] text[k])) by {
        if i < 0 {
            assert(text[0] == '-');
            assert(forall|k: int| 1 <= k < text.len() ==> text[k] == ds[k - 1]);
        }
    }
    assert(forall|k: int| 0 <= k < text.len() ==> text[k] != '_');
    lemma_strip_sep_id(text);
    if i >= 0 {
        assert(text =~= ds);
        lemma_find_char_none(ds, '.', 0);
        lemma_find_char_none(ds, '/', 0);
        assert(all_digits(ds));
        assert(digits_val(ds) == mag);
    } else {
        assert(text[0] == '-');
        let u = text.drop_first();
        assert(u =~= ds);
        lemma_find_char_none(ds, '.', 0);
        lemma_find_char_none(ds, '/', 0);
        assert(all_digits(ds));
        assert(-(digits_val(ds)) == i as int);
    }
}

/// Reading the display form of a machine-ranged integer yields one token.
proof fn lemma_int_text_tokenizes(i: i64)
    requires
        -1_000_000_000_000_000_000 < i < 1_000_000_000_000_000_000,
    ensures
        tokenize_spec(int_text(i as int)) =~= seq![TokenV::Integer(i)],
{
    let text = int_text(i as int);
    lemma_int_text_classifies(i);
    assert(skip_ws(text, 0) == 0);
    lemma_ident_end_full(text, 0);
    let t = next_token(text, 0);
    assert(text.subrange(0, text.len() as int) =~= text);
    assert(t.0 == TokenV::Integer(i) && t.1 == text.len());
    assert(tokenize_from(text, 0) =~= seq![t.0] + tokenize_from(text, text.len() as int));
    assert(skip_ws(text, text.len() as int) == text.len());
    assert(tokenize_from(text, text.len() as int) =~= Seq::<TokenV>::empty());
}

/// Reading the display form of a machine-ranged integer restores the value:
/// the read–print round trip on the integer fragment of the value algebra.
pub proof fn lemma_integer_read_print_round_trip(i: i64)
    requires
        -1_000_000_000_000_000_000 < i < 1_000_000_000_000_000_000,
    ensures
        parse_at(tokenize_spec(render_spec(ExprV::Integer(i))), 0) == Some(
            (ExprV::Integer(i), 1int),
        ),
{
    lemma_int_text_tokenizes(i);
    let toks = tokenize_spec(int_text(i as int));
    assert(toks[0] == TokenV::Integer(i));
}


/// Reading the display form of `nil` or a boolean restores the value: the
/// read–print round trip on the literal fragment of the value algebra.
pub proof fn lemma_literal_read_print_round_trip(e: ExprV)
    requires
        e == ExprV::Nil || e matches ExprV::Bool(_),
    ensures
        parse_at(tokenize_spec(render_spec(e)), 0) == Some((e, 1int)),
{
    reveal_strlit("nil");
    reveal_strlit("true");
    reveal_strlit("false");
    let text = render_spec(e);
    assert(forall|k: int| 0 <= k < text.len() ==> is_ident(#[trigger] text[k]));
    lemma_ident_end_full(text, 0);
    assert(skip_ws(text, 0) == 0);
    lemma_find_char_none(text, '/', 0);
    assert(text.subrange(0, text.len() as int) =~= text);
    let t = next_token(text, 0);
    assert(t.0 == TokenV::Symbol(text) && t.1 == text.len());
    assert(tokenize_from(text, 0) =~= seq![t.0] + tokenize_from(text, text.len() as int));
    assert(skip_ws(text, text.len() as int) == text.len());
    assert(tokenize_from(text, text.len() as int) =~= Seq::<TokenV>::empty());
    assert(tokenize_spec(text) =~= seq![TokenV::Symbol(text)]);
    assert(crate::parser::sym_expr(text) == e);
}

} // verus!
