//! String-literal escaping for the generated-code dialect.
//!
//! A canonical module path is embedded in generated code as a quoted string
//! literal.  Quotes, backslashes and every character outside the printable
//! ASCII range are escaped, so the literal always denotes exactly the
//! original path.

use vstd::prelude::*;
use crate::numeral::{digit_val, hex_rep, is_hex_digit, lemma_hex_rep_digits, push_hex};
use crate::text::push_char;

verus! {

/// The escape of one character.
pub open spec fn escape_char(c: char) -> Seq<char> {
    if c == '"' {
        seq!['\\', '"']
    } else if c == '\\' {
        seq!['\\', '\\']
    } else if c == '\n' {
        seq!['\\', 'n']
    } else if c == '\r' {
        seq!['\\', 'r']
    } else if c == '\t' {
        seq!['\\', 't']
    } else if 32 <= c as u32 <= 126 {
        seq![c]
    } else {
        seq!['\\', 'u', '{'] + hex_rep((c as u32) as nat) + seq!['}']
    }
}

/// The escaped body of a string literal for `s`.
pub open spec fn escape_seq(s: Seq<char>) -> Seq<char>
    decreases s.len(),
{
    if s.len() == 0 {
        Seq::empty()
    } else {
        escape_char(s[0]) + escape_seq(s.skip(1))
    }
}

/// The complete string literal for `s`: quote, escaped body, quote.
pub open spec fn literal_spec(s: Seq<char>) -> Seq<char> {
    seq!['"'] + escape_seq(s) + seq!['"']
}

/// Escaping one more character extends the escaped body at the end.
pub proof fn lemma_escape_seq_snoc(s: Seq<char>, c: char)
    ensures
        escape_seq(s.push(c)) == escape_seq(s) + escape_char(c),
    decreases s.len(),
{
    if s.len() == 0 {
        assert(s.push(c).skip(1) =~= Seq::<char>::empty());
        assert(s.push(c)[0] == c);
        assert(escape_seq(s.push(c)) == escape_char(c) + escape_seq(s.push(c).skip(1)));
        assert(escape_char(c) + escape_seq(Seq::<char>::empty()) =~= escape_seq(s) + escape_char(
            c,
        ));
    } else {
        assert(s.push(c).skip(1) =~= s.skip(1).push(c));
        lemma_escape_seq_snoc(s.skip(1), c);
        assert(s.push(c)[0] == s[0]);
        assert(escape_seq(s.push(c)) == escape_char(s[0]) + (escape_seq(s.skip(1)) + escape_char(c)));
        assert(escape_char(s[0]) + (escape_seq(s.skip(1)) + escape_char(c)) =~= escape_seq(s)
            + escape_char(c));
    }
}

/// The sequence of code points a consumer of the generated code reads back
/// from an escaped literal body: literal characters stand for themselves,
/// two-character escapes for the escaped character, and `\u{...}` escapes
/// for the code point between the braces.
pub open spec fn unescape_seq(s: Seq<char>) -> Seq<nat>
    decreases s.len(), 1int,
{
    if s.len() == 0 {
        Seq::empty()
    } else if s[0] != '\\' {
        seq![(s[0] as u32) as nat] + unescape_seq(s.skip(1))
    } else if s.len() == 1 {
        Seq::empty()
    } else if s[1] == '"' {
        seq![('"' as u32) as nat] + unescape_seq(s.skip(2))
    } else if s[1] == '\\' {
        seq![('\\' as u32) as nat] + unescape_seq(s.skip(2))
    } else if s[1] == 'n' {
        seq![('\n' as u32) as nat] + unescape_seq(s.skip(2))
    } else if s[1] == 'r' {
        seq![('\r' as u32) as nat] + unescape_seq(s.skip(2))
    } else if s[1] == 't' {
        seq![('\t' as u32) as nat] + unescape_seq(s.skip(2))
    } else if s[1] == 'u' && s.len() >= 3 && s[2] == '{' {
        unescape_code(s.skip(3), 0)
    } else {
        Seq::empty()
    }
}

/// Reads the hexadecimal digits of a `\u{...}` escape up to the closing
/// brace, then continues with the rest of the body.
pub open spec fn unescape_code(s: Seq<char>, acc: nat) -> Seq<nat>
    decreases s.len(), 0int,
{
    if s.len() == 0 {
        Seq::empty()
    } else if s[0] == '}' {
        seq![acc] + unescape_seq(s.skip(1))
    } else {
        unescape_code(s.skip(1), acc * 16 + digit_val(s[0]))
    }
}

/// The code points of `s` itself.
pub open spec fn code_points(s: Seq<char>) -> Seq<nat> {
    Seq::new(s.len(), |k: int| (s[k] as u32) as nat)
}

/// Builds the quoted, escaped string literal that embeds `s` in generated
/// code.
pub fn string_literal(s: &str) -> (r: String)
    ensures
        r@ == literal_spec(s@),
{
    broadcast use vstd::string::axiom_spec_iter;

    let mut out = String::new();
    push_char(&mut out, '"');
    for c in it: s.chars()
        invariant
            it.seq() == s@,
            out@ == seq!['"'] + escape_seq(s@.take(it.index())),
    {
        proof {
            assert(s@.take(it.index() + 1) =~= s@.take(it.index()).push(c));
            lemma_escape_seq_snoc(s@.take(it.index()), c);
        }
        let v: u32 = c as u32;
        if c == '"' {
            push_char(&mut out, '\\');
            push_char(&mut out, '"');
        } else if c == '\\' {
            push_char(&mut out, '\\');
            push_char(&mut out, '\\');
        } else if c == '\n' {
            push_char(&mut out, '\\');
            push_char(&mut out, 'n');
        } else if c == '\r' {
            push_char(&mut out, '\\');
            push_char(&mut out, 'r');
        } else if c == '\t' {
            push_char(&mut out, '\\');
            push_char(&mut out, 't');
        } else if 32 <= v && v <= 126 {
            push_char(&mut out, c);
        } else {
            push_char(&mut out, '\\');
            push_char(&mut out, 'u');
            push_char(&mut out, '{');
            push_hex(&mut out, v);
            push_char(&mut out, '}');
        }
        proof {
            assert(out@ =~= seq!['"'] + escape_seq(s@.take(it.index() + 1)));
        }
    }
    proof {
        assert(s@.take(s@.len() as int) =~= s@);
    }
    push_char(&mut out, '"');
    proof {
        assert(out@ =~= literal_spec(s@));
    }
    out
}

/// Folding hexadecimal digits into an accumulator, as the consumer of a
/// code-point escape reads them, most significant first.
pub open spec fn hex_fold(acc: nat, d: Seq<char>) -> nat
    decreases d.len(),
{
    if d.len() == 0 {
        acc
    } else {
        hex_fold(acc * 16 + digit_val(d[0]), d.skip(1))
    }
}

/// One more digit at the end scales the folded value by sixteen.
pub proof fn lemma_hex_fold_snoc(acc: nat, d: Seq<char>, c: char)
    ensures
        hex_fold(acc, d.push(c)) == hex_fold(acc, d) * 16 + digit_val(c),
    decreases d.len(),
{
    if d.len() == 0 {
        assert(d.push(c)[0] == c);
        assert(d.push(c).skip(1) =~= Seq::<char>::empty());
        assert(hex_fold(acc, d.push(c)) == hex_fold(acc * 16 + digit_val(c), d.push(c).skip(1)));
        assert(hex_fold(acc * 16 + digit_val(c), d.push(c).skip(1)) == acc * 16 + digit_val(c));
        assert(hex_fold(acc, d) == acc);
    } else {
        assert(d.push(c)[0] == d[0]);
        assert(d.push(c).skip(1) =~= d.skip(1).push(c));
        lemma_hex_fold_snoc(acc * 16 + digit_val(d[0]), d.skip(1), c);
        assert(hex_fold(acc, d.push(c)) == hex_fold(
            acc * 16 + digit_val(d[0]),
            d.skip(1).push(c),
        ));
        assert(hex_fold(acc, d) == hex_fold(acc * 16 + digit_val(d[0]), d.skip(1)));
    }
}

/// The scale that the digits of `n` contribute: sixteen to their count.
pub open spec fn hex_scale(n: nat) -> nat
    decreases n,
{
    if n < 16 {
        16
    } else {
        16 * hex_scale(n / 16)
    }
}

/// Folding the digits of `n` onto `acc` yields `acc` shifted past them,
/// plus `n`: with an empty accumulator, exactly `n`.
pub proof fn lemma_hex_fold_rep(n: nat, acc: nat)
    ensures
        hex_fold(acc, hex_rep(n)) == acc * hex_scale(n) + n,
    decreases n,
{
    if n < 16 {
        let c = crate::numeral::digit_char(n);
        assert(hex_rep(n) == seq![c]);
        assert(hex_rep(n).skip(1) =~= Seq::<char>::empty());
        assert(hex_rep(n)[0] == c);
        assert(digit_val(c) == n);
        assert(hex_fold(acc, hex_rep(n)) == hex_fold(acc * 16 + digit_val(c), hex_rep(n).skip(1)));
        assert(hex_fold(acc * 16 + digit_val(c), hex_rep(n).skip(1)) == acc * 16 + n);
        assert(hex_scale(n) == 16);
    } else {
        let c = crate::numeral::digit_char(n % 16);
        assert(hex_rep(n) == hex_rep(n / 16).push(c));
        lemma_hex_fold_rep(n / 16, acc);
        lemma_hex_fold_snoc(acc, hex_rep(n / 16), c);
        assert(digit_val(c) == n % 16);
        assert(hex_fold(acc, hex_rep(n)) == hex_fold(acc, hex_rep(n / 16)) * 16 + n % 16);
        assert(hex_fold(acc, hex_rep(n)) == (acc * hex_scale(n / 16) + n / 16) * 16 + n % 16);
        assert((acc * hex_scale(n / 16) + n / 16) * 16 == acc * hex_scale(n / 16) * 16 + (n / 16)
            * 16);
        assert(acc * hex_scale(n / 16) * 16 == acc * (16 * hex_scale(n / 16))) by (nonlinear_arith);
        assert((n / 16) * 16 + n % 16 == n);
    }
}

/// Reading an all-digit run up to a closing brace yields the folded value,
/// then continues with the rest.
pub proof fn lemma_unescape_code_digits(d: Seq<char>, t: Seq<char>, acc: nat)
    requires
        forall|k: int| 0 <= k < d.len() ==> is_hex_digit(#[trigger] d[k]),
    ensures
        unescape_code(d + seq!['}'] + t, acc) == seq![hex_fold(acc, d)] + unescape_seq(t),
    decreases d.len(),
{
    let s = d + seq!['}'] + t;
    if d.len() == 0 {
        assert(s[0] == '}');
        assert(s.skip(1) =~= t);
    } else {
        assert(s[0] == d[0]);
        assert(is_hex_digit(d[0]));
        assert(s[0] != '}');
        assert(s.skip(1) =~= d.skip(1) + seq!['}'] + t);
        lemma_unescape_code_digits(d.skip(1), t, acc * 16 + digit_val(d[0]));
    }
}

/// Round trip: unescaping the escaped body of `s` yields exactly the code
/// points of `s`.
pub proof fn lemma_unescape_escape(s: Seq<char>)
    ensures
        unescape_seq(escape_seq(s)) == code_points(s),
    decreases s.len(),
{
    if s.len() == 0 {
        assert(unescape_seq(escape_seq(s)) =~= code_points(s));
    } else {
        let c = s[0];
        let e0 = escape_char(c);
        let rest = escape_seq(s.skip(1));
        let w = escape_seq(s);
        lemma_unescape_escape(s.skip(1));
        assert(w == e0 + rest);
        if c == '"' || c == '\\' || c == '\n' || c == '\r' || c == '\t' {
            assert(w[0] == '\\');
            assert(w[1] == e0[1]);
            assert(w.skip(2) =~= rest);
            assert(unescape_seq(w) == seq![(c as u32) as nat] + unescape_seq(rest));
        } else if 32 <= c as u32 <= 126 {
            assert(w[0] == c);
            assert(w[0] != '\\');
            assert(w.skip(1) =~= rest);
            assert(unescape_seq(w) == seq![(c as u32) as nat] + unescape_seq(rest));
        } else {
            let v = (c as u32) as nat;
            lemma_hex_rep_digits(v);
            assert(e0 =~= seq!['\\', 'u', '{'] + (hex_rep(v) + seq!['}']));
            assert(w[0] == '\\');
            assert(w[1] == 'u');
            assert(w[2] == '{');
            assert(w.len() >= 3);
            assert(w.skip(3) =~= hex_rep(v) + seq!['}'] + rest);
            lemma_unescape_code_digits(hex_rep(v), rest, 0);
            lemma_hex_fold_rep(v, 0);
            assert(hex_fold(0, hex_rep(v)) == v);
            assert(unescape_seq(w) == seq![v] + unescape_seq(rest));
        }
        assert(seq![(c as u32) as nat] + code_points(s.skip(1)) =~= code_points(s));
    }
}

/// Round trip through the whole literal: between the enclosing quotes, the
/// escaped body reads back as exactly the embedded string.
pub proof fn lemma_literal_round_trip(s: Seq<char>)
    ensures
        literal_spec(s).len() >= 2,
        literal_spec(s).first() == '"',
        literal_spec(s).last() == '"',
        unescape_seq(literal_spec(s).subrange(1, literal_spec(s).len() - 1)) == code_points(s),
{
    assert(literal_spec(s).subrange(1, literal_spec(s).len() - 1) =~= escape_seq(s));
    lemma_unescape_escape(s);
}

/// The escaped body determines the embedded string: distinct strings have
/// distinct literals.
pub proof fn lemma_escape_injective(s1: Seq<char>, s2: Seq<char>)
    requires
        escape_seq(s1) == escape_seq(s2),
    ensures
        s1 == s2,
{
    lemma_unescape_escape(s1);
    lemma_unescape_escape(s2);
    assert(code_points(s1) == code_points(s2));
    assert(code_points(s1).len() == s1.len());
    assert(code_points(s2).len() == s2.len());
    assert forall|k: int| 0 <= k < s1.len() implies s1[k] == s2[k] by {
        let a = s1[k];
        let b = s2[k];
        assert(code_points(s1)[k] == (a as u32) as nat);
        assert(code_points(s2)[k] == (b as u32) as nat);
        assert(a as u32 == b as u32);
        vstd::utf8::char_u32_cast(a, a as u32);
        vstd::utf8::char_u32_cast(b, b as u32);
        assert(a == b);
    }
    assert(s1 =~= s2);
}

/// Every double quote of the embedded string appears backslash-escaped in
/// the literal body.
pub proof fn lemma_quote_escaped(s: Seq<char>)
    requires
        exists|j: int| 0 <= j < s.len() && s[j] == '"',
    ensures
        exists|k: int|
            {
                &&& 0 <= k
                &&& k + 1 < escape_seq(s).len()
                &&& escape_seq(s)[k] == '\\'
                &&& (#[trigger] escape_seq(s)[k + 1]) == '"'
            },
    decreases s.len(),
{
    let j = choose|j: int| 0 <= j < s.len() && s[j] == '"';
    let e0 = escape_char(s[0]);
    let w = escape_seq(s);
    assert(w == e0 + escape_seq(s.skip(1)));
    if s[0] == '"' {
        assert(w[0] == '\\');
        assert(w[1] == '"');
        assert(0int + 1 < w.len() && w[0int] == '\\' && w[0int + 1] == '"');
    } else {
        assert(s.skip(1)[j - 1] == '"');
        lemma_quote_escaped(s.skip(1));
        let k0 = choose|k: int|
            {
                &&& 0 <= k
                &&& k + 1 < escape_seq(s.skip(1)).len()
                &&& escape_seq(s.skip(1))[k] == '\\'
                &&& (#[trigger] escape_seq(s.skip(1))[k + 1]) == '"'
            };
        let k = e0.len() + k0;
        assert(w[k] == '\\');
        assert(w[k + 1] == '"');
        assert(0 <= k && k + 1 < w.len() && w[k] == '\\' && w[k + 1] == '"');
    }
}

} // verus!
