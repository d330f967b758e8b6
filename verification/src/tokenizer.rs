//! Lexical analysis: a character stream becomes a token stream.  The
//! executable tokenizer is proved to produce exactly the token sequence of
//! the specification-level tokenizer.

use vstd::prelude::*;

use crate::expression::Float;
use crate::expression::Token;
use crate::expression::TokenV;
use crate::numerics::norm_num;

verus! {

broadcast use vstd::std_specs::vec::group_vec_axioms, vstd::seq::group_seq_axioms;

/// Whitespace separates tokens; commas are whitespace.
pub open spec fn is_ws(c: char) -> bool {
    c == ' ' || c == '\n' || c == '\t' || c == '\r' || c == ','
}

/// The decimal digits.
pub open spec fn is_digit(c: char) -> bool {
    '0' <= c && c <= '9'
}

/// The characters an identifier may contain; the tokenizer disambiguates
/// `/` between symbols, namespaced symbols and ratio literals.
pub open spec fn is_ident(c: char) -> bool {
    ||| ('a' <= c && c <= 'z')
    ||| ('A' <= c && c <= 'Z')
    ||| is_digit(c)
    ||| c == '_' || c == '-' || c == '?' || c == '!' || c == '*' || c == '+'
    ||| c == '=' || c == '<' || c == '>' || c == '.' || c == '/'
    ||| (c as u32) > 127
}

/// Whether whitespace separates tokens, in executable form.
pub fn is_ws_x(c: char) -> (r: bool)
    ensures
        r == is_ws(c),
{
    c == ' ' || c == '\n' || c == '\t' || c == '\r' || c == ','
}

/// Whether a character is a decimal digit, in executable form.
pub fn is_digit_x(c: char) -> (r: bool)
    ensures
        r == is_digit(c),
{
    '0' <= c && c <= '9'
}

/// Whether a character may stand in an identifier, in executable form.
pub fn is_ident_x(c: char) -> (r: bool)
    ensures
        r == is_ident(c),
{
    ('a' <= c && c <= 'z') || ('A' <= c && c <= 'Z') || ('0' <= c && c <= '9') || c == '_'
        || c == '-' || c == '?' || c == '!' || c == '*' || c == '+' || c == '=' || c == '<'
        || c == '>' || c == '.' || c == '/' || (c as u32) > 127
}

/// The first position at or after `i` that holds no whitespace.
pub open spec fn skip_ws(s: Seq<char>, i: int) -> int
    decreases s.len() - i,
{
    if 0 <= i && i < s.len() && is_ws(s[i]) {
        skip_ws(s, i + 1)
    } else {
        i
    }
}

/// Skipping whitespace moves forward and stops inside the text.
pub proof fn lemma_skip_ws(s: Seq<char>, i: int)
    requires
        0 <= i <= s.len(),
    ensures
        i <= skip_ws(s, i) <= s.len(),
        skip_ws(s, i) < s.len() ==> !is_ws(s[skip_ws(s, i)]),
    decreases s.len() - i,
{
    if i < s.len() && is_ws(s[i]) {
        lemma_skip_ws(s, i + 1);
    }
}

/// The end of the identifier run starting at `i`.
pub open spec fn ident_end(s: Seq<char>, i: int) -> int
    decreases s.len() - i,
{
    if 0 <= i && i < s.len() && is_ident(s[i]) {
        ident_end(s, i + 1)
    } else {
        i
    }
}

/// An identifier run moves forward, holds identifier characters only, and
/// stops at the first character that cannot continue it.
pub proof fn lemma_ident_end(s: Seq<char>, i: int)
    requires
        0 <= i <= s.len(),
    ensures
        i <= ident_end(s, i) <= s.len(),
        forall|k: int| i <= k < ident_end(s, i) ==> is_ident(s[k]),
        ident_end(s, i) < s.len() ==> !is_ident(s[ident_end(s, i)]),
    decreases s.len() - i,
{
    if i < s.len() && is_ident(s[i]) {
        lemma_ident_end(s, i + 1);
    }
}

/// Every character of the text is a decimal digit.
pub open spec fn all_digits(u: Seq<char>) -> bool {
    u.len() > 0 && forall|k: int| 0 <= k < u.len() ==> is_digit(u[k])
}

/// The number a run of decimal digits denotes.
pub open spec fn digits_val(u: Seq<char>) -> int
    decreases u.len(),
{
    if u.len() == 0 {
        0
    } else {
        digits_val(u.drop_last()) * 10 + (u.last() as u32 - '0' as u32)
    }
}

/// A digit run denotes less than ten to the number of digits.
pub proof fn lemma_digits_val_pow(u: Seq<char>)
    requires
        forall|k: int| 0 <= k < u.len() ==> is_digit(u[k]),
    ensures
        0 <= digits_val(u) < crate::order::pow10(u.len()),
    decreases u.len(),
{
    if u.len() == 0 {
    } else {
        lemma_digits_val_pow(u.drop_last());
        let p = digits_val(u.drop_last());
        let b = crate::order::pow10((u.len() - 1) as nat);
        assert(p * 10 + (u.last() as u32 - '0' as u32) < b * 10) by (nonlinear_arith)
            requires
                0 <= p,
                p < b,
                0 <= u.last() as u32 - '0' as u32 <= 9,
        ;
    }
}

/// At most eighteen digits denote less than `10^18`.
pub proof fn lemma_digits_val_bound(u: Seq<char>)
    requires
        forall|k: int| 0 <= k < u.len() ==> is_digit(u[k]),
        u.len() <= 18,
    ensures
        0 <= digits_val(u) < 1_000_000_000_000_000_000,
{
    lemma_digits_val_pow(u);
    crate::order::lemma_pow10_mono(u.len(), 18);
    crate::order::lemma_pow10_18();
}


/// The run with the visual digit separators removed.
pub open spec fn strip_sep(u: Seq<char>) -> Seq<char>
    decreases u.len(),
{
    if u.len() == 0 {
        Seq::empty()
    } else if u.last() == '_' {
        strip_sep(u.drop_last())
    } else {
        strip_sep(u.drop_last()).push(u.last())
    }
}

/// The first position of `c` at or after `i`, or `-1`.
pub open spec fn find_char(u: Seq<char>, c: char, i: int) -> int
    decreases u.len() - i,
{
    if i < 0 || i >= u.len() {
        -1
    } else if u[i] == c {
        i
    } else {
        find_char(u, c, i + 1)
    }
}

/// The canonical form of a decimal: no trailing fractional zero past the
/// first fractional digit.
pub open spec fn float_canon(m: int, sc: nat) -> (int, nat)
    decreases sc,
{
    if sc > 1 && m % 10 == 0 {
        float_canon(m / 10, (sc - 1) as nat)
    } else {
        (m, sc)
    }
}

/// The token a numeric run denotes: an integer, a decimal, or a reduced
/// ratio that collapses to an integer when the denominator cancels; a
/// malformed or oversized literal is an error token.
pub open spec fn classify_number(run: Seq<char>) -> TokenV {
    let t = strip_sep(run);
    let neg = t.len() > 0 && t[0] == '-';
    let u = if neg {
        t.drop_first()
    } else {
        t
    };
    let dot = find_char(u, '.', 0);
    let slash = find_char(u, '/', 0);
    if u.len() == 0 {
        TokenV::Error(run)
    } else if dot >= 0 && slash < 0 {
        let a = u.subrange(0, dot);
        let b = u.subrange(dot + 1, u.len() as int);
        if a.len() > 0 && b.len() > 0 && all_digits(a) && all_digits(b) && a.len() + b.len()
            <= 18 {
            let m0 = digits_val(a + b);
            let m1 = if neg {
                -m0
            } else {
                m0
            };
            let p = float_canon(m1, b.len());
            TokenV::Float(Float { mantissa: p.0 as i64, scale: p.1 as u32 })
        } else {
            TokenV::Error(run)
        }
    } else if slash >= 0 {
        let a = u.subrange(0, slash);
        let b = u.subrange(slash + 1, u.len() as int);
        if a.len() > 0 && b.len() > 0 && all_digits(a) && all_digits(b) && a.len() <= 18
            && b.len() <= 18 && digits_val(b) != 0 {
            let n1 = if neg {
                -digits_val(a)
            } else {
                digits_val(a)
            };
            let p = norm_num(n1, digits_val(b));
            if p.1 == 1 {
                TokenV::Integer(p.0 as i64)
            } else {
                TokenV::Ratio(p.0 as i64, p.1 as i64)
            }
        } else {
            TokenV::Error(run)
        }
    } else if all_digits(u) && u.len() <= 18 {
        TokenV::Integer(
            (if neg {
                -digits_val(u)
            } else {
                digits_val(u)
            }) as i64,
        )
    } else {
        TokenV::Error(run)
    }
}

/// The token an identifier run denotes: a namespaced symbol when exactly one
/// `/` stands between non-empty parts, a symbol otherwise.
pub open spec fn classify_symbol(run: Seq<char>) -> TokenV {
    let slash = find_char(run, '/', 0);
    if 0 < slash && slash < run.len() - 1 && find_char(run, '/', slash + 1) < 0 {
        TokenV::NamespacedSymbol(run)
    } else {
        TokenV::Symbol(run)
    }
}

/// Scans a string literal body from `i`, with `acc` already read; yields the
/// token and the position after the closing quote.
pub open spec fn scan_string(s: Seq<char>, i: int, acc: Seq<char>) -> (TokenV, int)
    decreases s.len() - i,
{
    if i < 0 || i >= s.len() {
        (TokenV::Error("unterminated string"@), s.len() as int)
    } else if s[i] == '"' {
        (TokenV::String(acc), i + 1)
    } else if s[i] == '\\' {
        if i + 1 < s.len() {
            let c = s[i + 1];
            let e = if c == 'n' {
                '\n'
            } else if c == 't' {
                '\t'
            } else {
                c
            };
            scan_string(s, i + 2, acc.push(e))
        } else {
            (TokenV::Error("unterminated string"@), s.len() as int)
        }
    } else {
        scan_string(s, i + 1, acc.push(s[i]))
    }
}

/// The token starting at position `j`, which holds no whitespace, and the
/// position just after it.
pub open spec fn next_token(s: Seq<char>, j: int) -> (TokenV, int)
    recommends
        0 <= j < s.len(),
{
    let c = s[j];
    if c == '(' {
        (TokenV::LeftParen, j + 1)
    } else if c == ')' {
        (TokenV::RightParen, j + 1)
    } else if c == '[' {
        (TokenV::LeftBracket, j + 1)
    } else if c == ']' {
        (TokenV::RightBracket, j + 1)
    } else if c == '{' {
        (TokenV::LeftBrace, j + 1)
    } else if c == '}' {
        (TokenV::RightBrace, j + 1)
    } else if c == '\'' {
        (TokenV::Quote, j + 1)
    } else if c == '@' {
        (TokenV::Deref, j + 1)
    } else if c == '"' {
        scan_string(s, j + 1, Seq::empty())
    } else if c == ':' {
        let e = ident_end(s, j + 1);
        (TokenV::Keyword(s.subrange(j, e)), e)
    } else if is_ident(c) {
        let e = ident_end(s, j);
        let run = s.subrange(j, e);
        if is_digit(c) || (c == '-' && j + 1 < e && is_digit(s[j + 1])) {
            (classify_number(run), e)
        } else {
            (classify_symbol(run), e)
        }
    } else {
        (TokenV::Error(seq![c]), j + 1)
    }
}

/// The token stream of the source from position `i` on.
pub open spec fn tokenize_from(s: Seq<char>, i: int) -> Seq<TokenV>
    decreases s.len() - i,
{
    if !(0 <= i <= s.len()) {
        Seq::empty()
    } else {
        let j = skip_ws(s, i);
        if !(i <= j) || j >= s.len() {
            Seq::empty()
        } else {
            let t = next_token(s, j).0;
            let k = next_token(s, j).1;
            if k <= i || k > s.len() {
                seq![t]
            } else {
                seq![t] + tokenize_from(s, k)
            }
        }
    }
}

/// The token stream of a whole source text.
pub open spec fn tokenize_spec(s: Seq<char>) -> Seq<TokenV> {
    tokenize_from(s, 0)
}


/// Appends one character to a text buffer.  Relies on `String::push`.
#[verifier::external_body]
fn push_char(s: &mut String, c: char) -> (u: ())
    ensures
        final(s)@ == old(s)@.push(c),
{
    s.push(c);
}

/// The characters of a text, in order.
pub fn chars_of(s: &str) -> (r: Vec<char>)
    ensures
        r@ == s@,
{
    let n = s.unicode_len();
    let mut out: Vec<char> = Vec::new();
    let mut i: usize = 0;
    while i < n
        invariant
            i <= n,
            n == s@.len(),
            out@ =~= s@.subrange(0, i as int),
        decreases n - i,
    {
        out.push(s.get_char(i));
        i = i + 1;
        proof {
            assert(out@ =~= s@.subrange(0, i as int));
        }
    }
    proof {
        assert(out@ =~= s@);
    }
    out
}

/// The text holding the given characters.
pub fn string_of(v: &Vec<char>) -> (r: String)
    ensures
        r@ == v@,
{
    let mut out = String::new();
    let mut i: usize = 0;
    while i < v.len()
        invariant
            i <= v@.len(),
            out@ =~= v@.subrange(0, i as int),
        decreases v@.len() - i,
    {
        push_char(&mut out, v[i]);
        i = i + 1;
        proof {
            assert(out@ =~= v@.subrange(0, i as int));
        }
    }
    proof {
        assert(out@ =~= v@);
    }
    out
}

/// Copies the characters of the range `[a, b)`.
pub(crate) fn copy_range(chars: &Vec<char>, a: usize, b: usize) -> (r: Vec<char>)
    requires
        a <= b <= chars@.len(),
    ensures
        r@ == chars@.subrange(a as int, b as int),
{
    let mut out: Vec<char> = Vec::new();
    let mut i: usize = a;
    while i < b
        invariant
            a <= i <= b <= chars@.len(),
            out@ =~= chars@.subrange(a as int, i as int),
        decreases b - i,
    {
        out.push(chars[i]);
        i = i + 1;
        proof {
            assert(out@ =~= chars@.subrange(a as int, i as int));
        }
    }
    out
}

/// The end of the identifier run starting at `i`, in executable form.
fn ident_end_x(chars: &Vec<char>, i: usize) -> (r: usize)
    requires
        i <= chars@.len(),
    ensures
        r as int == ident_end(chars@, i as int),
        i <= r <= chars@.len(),
    decreases chars@.len() - i,
{
    if i < chars.len() && is_ident_x(chars[i]) {
        ident_end_x(chars, i + 1)
    } else {
        i
    }
}

/// The run with the separators removed, in executable form.
fn strip_sep_x(run: &Vec<char>) -> (r: Vec<char>)
    ensures
        r@ == strip_sep(run@),
{
    let mut out: Vec<char> = Vec::new();
    let mut i: usize = 0;
    while i < run.len()
        invariant
            i <= run@.len(),
            out@ == strip_sep(run@.subrange(0, i as int)),
        decreases run@.len() - i,
    {
        proof {
            assert(run@.subrange(0, i as int + 1).drop_last() =~= run@.subrange(0, i as int));
            assert(run@.subrange(0, i as int + 1).last() == run@[i as int]);
        }
        if run[i] != '_' {
            out.push(run[i]);
        }
        i = i + 1;
    }
    proof {
        assert(run@.subrange(0, run@.len() as int) =~= run@);
    }
    out
}

/// The first position of `c` at or after `i`, in executable form; the length
/// of the run stands for absence.
fn find_char_x(run: &Vec<char>, c: char, i: usize) -> (r: usize)
    requires
        i <= run@.len(),
    ensures
        find_char(run@, c, i as int) < run@.len(),
        find_char(run@, c, i as int) >= 0 ==> r as int == find_char(run@, c, i as int)
            && run@[r as int] == c,
        find_char(run@, c, i as int) < 0 ==> r as int == run@.len(),
    decreases run@.len() - i,
{
    if i >= run.len() {
        run.len()
    } else if run[i] == c {
        i
    } else {
        find_char_x(run, c, i + 1)
    }
}

/// Whether the range `[a, b)` holds decimal digits only.
fn all_digits_x(run: &Vec<char>, a: usize, b: usize) -> (r: bool)
    requires
        a <= b <= run@.len(),
    ensures
        r == all_digits(run@.subrange(a as int, b as int)),
{
    if a >= b {
        proof {
            assert(!all_digits(run@.subrange(a as int, b as int)));
        }
        return false;
    }
    let mut i: usize = a;
    while i < b
        invariant
            a <= i <= b <= run@.len(),
            forall|k: int| a <= k < i ==> is_digit(run@[k]),
        decreases b - i,
    {
        if !is_digit_x(run[i]) {
            proof {
                assert(run@.subrange(a as int, b as int)[i - a] == run@[i as int]);
            }
            return false;
        }
        i = i + 1;
    }
    proof {
        assert(forall|k: int| 0 <= k < b - a ==> run@.subrange(a as int, b as int)[k] == run@[
            a + k
        ]);
    }
    true
}

/// The value of the digit range `[a, b)`, in executable form.
fn digits_val_x(run: &Vec<char>, a: usize, b: usize) -> (r: u64)
    requires
        a <= b <= run@.len(),
        b - a <= 18,
        forall|k: int| a <= k < b ==> is_digit(run@[k]),
    ensures
        r as int == digits_val(run@.subrange(a as int, b as int)),
        r < 1_000_000_000_000_000_000,
{
    let ghost whole = run@.subrange(a as int, b as int);
    proof {
        assert(forall|k: int| 0 <= k < whole.len() ==> whole[k] == run@[a + k]);
    }
    let mut acc: u64 = 0;
    let mut i: usize = a;
    while i < b
        invariant
            a <= i <= b <= run@.len(),
            b - a <= 18,
            forall|k: int| a <= k < b ==> is_digit(run@[k]),
            acc as int == digits_val(run@.subrange(a as int, i as int)),
            acc < 1_000_000_000_000_000_000,
        decreases b - i,
    {
        proof {
            let pre = run@.subrange(a as int, i as int);
            let now = run@.subrange(a as int, i as int + 1);
            assert(now.drop_last() =~= pre);
            assert(now.last() == run@[i as int]);
            assert(forall|k: int| 0 <= k < now.len() ==> now[k] == run@[a + k]);
            lemma_digits_val_bound(now);
        }
        let d: u32 = (run[i] as u32) - ('0' as u32);
        acc = acc * 10 + (d as u64);
        i = i + 1;
    }
    acc
}

/// The canonical decimal form, in executable form.
fn float_canon_x(neg: bool, m: u64, sc: u32) -> (r: (i64, u32))
    requires
        1 <= sc <= 18,
        m < 1_000_000_000_000_000_000,
    ensures
        ({
            let p = float_canon(if neg { -(m as int) } else { m as int }, sc as nat);
            r.0 as int == p.0 && r.1 as nat == p.1 && 1 <= r.1 <= 18
        }),
    decreases sc,
{
    let ghost sm: int = if neg { -(m as int) } else { m as int };
    if sc > 1 && m % 10 == 0 {
        proof {
            lemma_fundamental_div_mod_converse_pub(m as int, 10, (m / 10) as int, 0);
            if neg {
                lemma_fundamental_div_mod_converse_pub(sm, 10, -((m / 10) as int), 0);
            }
        }
        float_canon_x(neg, m / 10, sc - 1)
    } else {
        proof {
            if m % 10 != 0 {
                lemma_mod_sign(m as nat);
            }
        }
        let v: i64 = if neg {
            -(m as i64)
        } else {
            m as i64
        };
        (v, sc)
    }
}

/// A magnitude and its negation leave the same remainder class by ten.
proof fn lemma_mod_sign(m: nat)
    requires
        m % 10 != 0,
    ensures
        (-(m as int)) % 10 != 0,
{
    lemma_fundamental_div_mod_pub(m as int, 10);
    if (-(m as int)) % 10 == 0 {
        lemma_fundamental_div_mod_pub(-(m as int), 10);
        let q = (-(m as int)) / 10;
        assert(m as int == 10 * (-q) + 0) by (nonlinear_arith)
            requires
                -(m as int) == 10 * q,
        ;
        lemma_fundamental_div_mod_converse_pub(m as int, 10, -q, 0);
    }
}

/// Restates the fundamental division equation.
proof fn lemma_fundamental_div_mod_pub(x: int, d: int)
    requires
        d != 0,
    ensures
        x == d * (x / d) + x % d,
{
    vstd::arithmetic::div_mod::lemma_fundamental_div_mod(x, d);
}

/// Restates the converse of the fundamental division equation.
proof fn lemma_fundamental_div_mod_converse_pub(x: int, d: int, q: int, r: int)
    requires
        d != 0,
        0 <= r < d,
        x == q * d + r,
    ensures
        r == x % d,
        q == x / d,
{
    vstd::arithmetic::div_mod::lemma_fundamental_div_mod_converse(x, d, q, r);
}


/// The ghost mirror of a token vector.
pub open spec fn view_tokens(s: Seq<Token>) -> Seq<TokenV>
    decreases s,
{
    if s.len() == 0 {
        Seq::empty()
    } else {
        view_tokens(s.drop_last()).push(s.last()@)
    }
}

/// The token-vector view acts pointwise.
pub proof fn lemma_view_tokens(s: Seq<Token>)
    ensures
        view_tokens(s).len() == s.len(),
        forall|i: int| 0 <= i < s.len() ==> view_tokens(s)[i] == s[i]@,
    decreases s.len(),
{
    if s.len() > 0 {
        lemma_view_tokens(s.drop_last());
    }
}

/// Classifies a numeric identifier run, in executable form.
fn classify_number_x(run: &Vec<char>) -> (r: Token)
    ensures
        r@ == classify_number(run@),
{
    let t = strip_sep_x(run);
    let neg = t.len() > 0 && t[0] == '-';
    let start: usize = if neg {
        1
    } else {
        0
    };
    let u = copy_range(&t, start, t.len());
    proof {
        if neg {
            assert(u@ =~= t@.drop_first());
        } else {
            assert(u@ =~= t@);
        }
    }
    let n = u.len();
    if n == 0 {
        return Token::Error(string_of(run));
    }
    let dot = find_char_x(&u, '.', 0);
    let slash = find_char_x(&u, '/', 0);
    if dot < n && slash >= n {
        let ok = dot > 0 && dot + 1 < n && all_digits_x(&u, 0, dot) && all_digits_x(
            &u,
            dot + 1,
            n,
        ) && n - 1 <= 18;
        if !ok {
            return Token::Error(string_of(run));
        }
        let ghost a = u@.subrange(0, dot as int);
        let ghost b = u@.subrange(dot as int + 1, n as int);
        let mut mdigits = copy_range(&u, 0, dot);
        let tail = copy_range(&u, dot + 1, n);
        mdigits.append(&mut { tail });
        proof {
            assert(mdigits@ =~= a + b);
            assert(forall|k: int| 0 <= k < mdigits@.len() ==> is_digit(mdigits@[k])) by {
                assert(forall|k: int| 0 <= k < a.len() ==> (a + b)[k] == a[k]);
                assert(forall|k: int| a.len() <= k < (a + b).len() ==> (a + b)[k] == b[
                    k - a.len()
                ]);
            }
            assert(mdigits@.subrange(0, mdigits@.len() as int) =~= mdigits@);
        }
        let m = digits_val_x(&mdigits, 0, mdigits.len());
        let sc: u32 = (n - dot - 1) as u32;
        let p = float_canon_x(neg, m, sc);
        proof {
            assert(b.len() == sc as nat);
        }
        return Token::Float(Float { mantissa: p.0, scale: p.1 });
    }
    if slash < n {
        let ok = slash > 0 && slash + 1 < n && all_digits_x(&u, 0, slash) && all_digits_x(
            &u,
            slash + 1,
            n,
        ) && slash <= 18 && n - slash - 1 <= 18;
        if !ok {
            return Token::Error(string_of(run));
        }
        let ghost a = u@.subrange(0, slash as int);
        let ghost b = u@.subrange(slash as int + 1, n as int);
        proof {
            assert(forall|k: int| 0 <= k < a.len() ==> a[k] == u@[k]);
            assert(forall|k: int| 0 <= k < b.len() ==> b[k] == u@[slash + 1 + k]);
            assert forall|k: int| 0 <= k < slash implies is_digit(u@[k]) by {
                assert(a[k] == u@[k]);
                assert(is_digit(a[k]));
            }
            assert forall|k: int| slash + 1 <= k < n implies is_digit(u@[k]) by {
                assert(b[k - slash - 1] == u@[k]);
                assert(is_digit(b[k - slash - 1]));
            }
        }
        let nv = digits_val_x(&u, 0, slash);
        let dv = digits_val_x(&u, slash + 1, n);
        if dv == 0 {
            return Token::Error(string_of(run));
        }
        let g = crate::numerics::gcd_x(nv as u128, dv as u128);
        proof {
            crate::numerics::lemma_gcd_divides(nv as nat, dv as nat);
            if g == 0 {
                assert(dv == 0);
                assert(false);
            }
            let n1: int = if neg {
                -(nv as int)
            } else {
                nv as int
            };
            crate::numerics::lemma_norm_structure(
                n1,
                dv as int,
                nv as nat,
                dv as nat,
                neg && nv > 0,
            );
            vstd::arithmetic::div_mod::lemma_fundamental_div_mod(nv as int, g as int);
            vstd::arithmetic::div_mod::lemma_fundamental_div_mod(dv as int, g as int);
            assert((nv as u128 / g) as int == nv as int / g as int);
            assert((dv as u128 / g) as int == dv as int / g as int);
            assert(dv as int / g as int >= 1) by (nonlinear_arith)
                requires
                    dv as int == g as int * (dv as int / g as int),
                    dv >= 1,
                    g >= 1,
            ;
            assert(nv as int / g as int <= nv as int) by (nonlinear_arith)
                requires
                    nv as int == g as int * (nv as int / g as int),
                    g >= 1,
                    nv >= 0,
            ;
        }
        let nq: u64 = ((nv as u128) / g) as u64;
        let dq: u64 = ((dv as u128) / g) as u64;
        let num: i64 = if neg {
            -(nq as i64)
        } else {
            nq as i64
        };
        if dq == 1 {
            return Token::Integer(num);
        }
        return Token::Ratio(num, dq as i64);
    }
    let ok = all_digits_x(&u, 0, n) && n <= 18;
    if !ok {
        return Token::Error(string_of(run));
    }
    proof {
        assert(u@.subrange(0, n as int) =~= u@);
    }
    let v = digits_val_x(&u, 0, n);
    Token::Integer(
        if neg {
            -(v as i64)
        } else {
            v as i64
        },
    )
}

/// Classifies a plain identifier run, in executable form.
fn classify_symbol_x(run: &Vec<char>) -> (r: Token)
    ensures
        r@ == classify_symbol(run@),
{
    let n = run.len();
    let slash = find_char_x(run, '/', 0);
    if 0 < slash && slash < n {
        if slash + 1 < n {
            let second = find_char_x(run, '/', slash + 1);
            if second >= n {
                return Token::NamespacedSymbol(string_of(run));
            }
        }
    }
    Token::Symbol(string_of(run))
}

/// Scans a string literal body, in executable form.
fn scan_string_x(chars: &Vec<char>, i: usize, acc: Vec<char>) -> (r: (Token, usize))
    requires
        i <= chars@.len(),
    ensures
        r.0@ == scan_string(chars@, i as int, acc@).0,
        r.1 as int == scan_string(chars@, i as int, acc@).1,
        i <= r.1 <= chars@.len(),
    decreases chars@.len() - i,
{
    if i >= chars.len() {
        (Token::Error("unterminated string".to_owned()), chars.len())
    } else if chars[i] == '"' {
        (Token::String(string_of(&acc)), i + 1)
    } else if chars[i] == '\\' {
        if i + 1 < chars.len() {
            let c = chars[i + 1];
            let e: char = if c == 'n' {
                '\n'
            } else if c == 't' {
                '\t'
            } else {
                c
            };
            let mut acc2 = acc;
            acc2.push(e);
            scan_string_x(chars, i + 2, acc2)
        } else {
            (Token::Error("unterminated string".to_owned()), chars.len())
        }
    } else {
        let c = chars[i];
        let mut acc2 = acc;
        acc2.push(c);
        scan_string_x(chars, i + 1, acc2)
    }
}

/// Reads the token starting at `j`, in executable form.
fn next_token_x(chars: &Vec<char>, j: usize) -> (r: (Token, usize))
    requires
        j < chars@.len(),
    ensures
        r.0@ == next_token(chars@, j as int).0,
        r.1 as int == next_token(chars@, j as int).1,
        j < r.1 <= chars@.len(),
{
    let n = chars.len();
    let c = chars[j];
    if c == '(' {
        (Token::LeftParen, j + 1)
    } else if c == ')' {
        (Token::RightParen, j + 1)
    } else if c == '[' {
        (Token::LeftBracket, j + 1)
    } else if c == ']' {
        (Token::RightBracket, j + 1)
    } else if c == '{' {
        (Token::LeftBrace, j + 1)
    } else if c == '}' {
        (Token::RightBrace, j + 1)
    } else if c == '\'' {
        (Token::Quote, j + 1)
    } else if c == '@' {
        (Token::Deref, j + 1)
    } else if c == '"' {
        let acc: Vec<char> = Vec::new();
        proof {
            assert(acc@ =~= Seq::<char>::empty());
        }
        scan_string_x(chars, j + 1, acc)
    } else if c == ':' {
        let e = ident_end_x(chars, j + 1);
        let text = copy_range(chars, j, e);
        (Token::Keyword(string_of(&text)), e)
    } else if is_ident_x(c) {
        let e = ident_end_x(chars, j);
        proof {
            lemma_ident_end(chars@, j as int + 1);
        }
        let run = copy_range(chars, j, e);
        if is_digit_x(c) || (c == '-' && j + 1 < e && is_digit_x(chars[j + 1])) {
            (classify_number_x(&run), e)
        } else {
            (classify_symbol_x(&run), e)
        }
    } else {
        let mut text: Vec<char> = Vec::new();
        text.push(c);
        proof {
            assert(text@ =~= seq![c]);
        }
        (Token::Error(string_of(&text)), j + 1)
    }
}

/// The first non-whitespace position at or after `i`, in executable form.
fn skip_ws_x(chars: &Vec<char>, i: usize) -> (r: usize)
    requires
        i <= chars@.len(),
    ensures
        r as int == skip_ws(chars@, i as int),
        i <= r <= chars@.len(),
    decreases chars@.len() - i,
{
    if i < chars.len() && is_ws_x(chars[i]) {
        skip_ws_x(chars, i + 1)
    } else {
        i
    }
}

/// The token stream of a character sequence.
pub fn tokenize_chars(chars: &Vec<char>) -> (r: Vec<Token>)
    ensures
        view_tokens(r@) == tokenize_spec(chars@),
{
    let ghost s = chars@;
    let n = chars.len();
    let mut out: Vec<Token> = Vec::new();
    let mut i: usize = 0;
    proof {
        assert(view_tokens(out@) =~= Seq::<TokenV>::empty());
    }
    while i < n
        invariant
            i <= n,
            n == s.len(),
            s == chars@,
            tokenize_spec(s) =~= view_tokens(out@) + tokenize_from(s, i as int),
        decreases n - i,
    {
        let ghost i0 = i as int;
        let j = skip_ws_x(chars, i);
        if j >= n {
            proof {
                assert(tokenize_from(s, i0) =~= Seq::<TokenV>::empty());
                assert(tokenize_from(s, n as int) =~= Seq::<TokenV>::empty());
            }
            i = n;
        } else {
            let tk = next_token_x(chars, j);
            let ghost pre = out@;
            out.push(tk.0);
            proof {
                lemma_view_tokens(out@);
                lemma_view_tokens(pre);
                assert(view_tokens(out@) =~= view_tokens(pre) + seq![tk.0@]);
                assert(tokenize_from(s, i0) =~= seq![tk.0@] + tokenize_from(s, tk.1 as int));
            }
            i = tk.1;
        }
    }
    proof {
        assert(tokenize_from(s, n as int) =~= Seq::<TokenV>::empty());
        assert(view_tokens(out@) + Seq::<TokenV>::empty() =~= view_tokens(out@));
    }
    out
}

/// The token stream of a source text.
pub fn tokenize(source: &str) -> (r: Vec<Token>)
    ensures
        view_tokens(r@) == tokenize_spec(source@),
{
    let chars = chars_of(source);
    tokenize_chars(&chars)
}

} // verus!
