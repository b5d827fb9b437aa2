//! Decimal and hexadecimal digit sequences for non-negative integers,
//! together with the recovery lemmas that make numbers embedded in generated
//! text unambiguous.

use vstd::prelude::*;
use crate::text::push_char;

verus! {

/// The character for a single decimal or hexadecimal digit value.
pub open spec fn digit_char(d: nat) -> char
    recommends
        d < 16,
{
    if d < 10 {
        ((48 + d) as u8) as char
    } else {
        ((87 + d) as u8) as char
    }
}

/// The decimal digits of `n`, most significant first, with no leading zeros.
pub open spec fn dec_rep(n: nat) -> Seq<char>
    decreases n,
{
    if n < 10 {
        seq![digit_char(n)]
    } else {
        dec_rep(n / 10).push(digit_char(n % 10))
    }
}

/// The hexadecimal digits of `n`, most significant first, no leading zeros.
pub open spec fn hex_rep(n: nat) -> Seq<char>
    decreases n,
{
    if n < 16 {
        seq![digit_char(n)]
    } else {
        hex_rep(n / 16).push(digit_char(n % 16))
    }
}

/// Whether `c` is a decimal digit character.
pub open spec fn is_dec_digit(c: char) -> bool {
    48 <= c as u32 <= 57
}

/// Whether `c` is a digit character produced by `digit_char`: `0`-`9` or
/// `a`-`f`.
pub open spec fn is_hex_digit(c: char) -> bool {
    is_dec_digit(c) || (97 <= c as u32 <= 102)
}

/// The value of a digit character, inverse of `digit_char`.
pub open spec fn digit_val(c: char) -> nat {
    if 48 <= c as u32 <= 57 {
        (c as u32 - 48) as nat
    } else if 97 <= c as u32 <= 102 {
        (c as u32 - 87) as nat
    } else {
        0
    }
}

/// A decimal representation is non-empty and all decimal digits.
pub proof fn lemma_dec_rep_digits(n: nat)
    ensures
        dec_rep(n).len() >= 1,
        forall|k: int| 0 <= k < dec_rep(n).len() ==> is_dec_digit(#[trigger] dec_rep(n)[k]),
    decreases n,
{
    if n >= 10 {
        lemma_dec_rep_digits(n / 10);
    }
}

/// A hexadecimal representation is non-empty and all digit characters.
pub proof fn lemma_hex_rep_digits(n: nat)
    ensures
        hex_rep(n).len() >= 1,
        forall|k: int| 0 <= k < hex_rep(n).len() ==> is_hex_digit(#[trigger] hex_rep(n)[k]),
    decreases n,
{
    if n >= 16 {
        lemma_hex_rep_digits(n / 16);
    }
}

/// Distinct numbers have distinct decimal representations.
pub proof fn lemma_dec_rep_injective(m: nat, n: nat)
    requires
        dec_rep(m) == dec_rep(n),
    ensures
        m == n,
    decreases m,
{
    lemma_dec_rep_digits(m);
    lemma_dec_rep_digits(n);
    if m < 10 && n < 10 {
        assert(dec_rep(m)[0] == digit_char(m));
        assert(dec_rep(n)[0] == digit_char(n));
        assert(digit_char(m) == digit_char(n));
    } else if m < 10 {
        assert(dec_rep(n).len() >= 2) by {
            lemma_dec_rep_digits(n / 10);
        }
    } else if n < 10 {
        assert(dec_rep(m).len() >= 2) by {
            lemma_dec_rep_digits(m / 10);
        }
    } else {
        assert(dec_rep(m) == dec_rep(m / 10).push(digit_char(m % 10)));
        assert(dec_rep(n) == dec_rep(n / 10).push(digit_char(n % 10)));
        assert(dec_rep(m).last() == digit_char(m % 10));
        assert(dec_rep(n).last() == digit_char(n % 10));
        assert(digit_char(m % 10) == digit_char(n % 10));
        assert(m % 10 == n % 10);
        assert(dec_rep(m).drop_last() =~= dec_rep(m / 10));
        assert(dec_rep(n).drop_last() =~= dec_rep(n / 10));
        lemma_dec_rep_injective(m / 10, n / 10);
    }
}

/// The maximal run of decimal digits at the end of `s`.
pub open spec fn trailing_digits(s: Seq<char>) -> Seq<char>
    decreases s.len(),
{
    if s.len() > 0 && is_dec_digit(s.last()) {
        trailing_digits(s.drop_last()).push(s.last())
    } else {
        Seq::empty()
    }
}

/// Appending an all-digit suffix after a sequence that ends in a non-digit
/// makes that suffix exactly the trailing digit run.
pub proof fn lemma_trailing_digits_concat(a: Seq<char>, d: Seq<char>)
    requires
        a.len() > 0,
        !is_dec_digit(a.last()),
        forall|k: int| 0 <= k < d.len() ==> is_dec_digit(#[trigger] d[k]),
    ensures
        trailing_digits(a + d) == d,
    decreases d.len(),
{
    if d.len() == 0 {
        assert(a + d =~= a);
        assert(trailing_digits(a) =~= d);
    } else {
        assert((a + d).last() == d.last());
        assert((a + d).drop_last() =~= a + d.drop_last());
        lemma_trailing_digits_concat(a, d.drop_last());
        assert(trailing_digits(a + d) =~= d.drop_last().push(d.last()));
        assert(d.drop_last().push(d.last()) =~= d);
    }
}

/// Appends the decimal digits of `n` to `out`.
pub fn push_dec(out: &mut String, n: usize)
    ensures
        final(out)@ == old(out)@ + dec_rep(n as nat),
    decreases n,
{
    if n >= 10 {
        push_dec(out, n / 10);
    }
    let d: u8 = (n % 10) as u8 + 48;
    push_char(out, d as char);
    proof {
        if n < 10 {
            assert(final(out)@ =~= old(out)@ + dec_rep(n as nat));
        } else {
            assert((n as nat) / 10 == (n / 10) as nat);
            assert((n as nat) % 10 == (n % 10) as nat);
            assert(final(out)@ =~= old(out)@ + dec_rep(n as nat));
        }
    }
}

/// Appends the hexadecimal digits of `n` to `out`.
pub fn push_hex(out: &mut String, n: u32)
    ensures
        final(out)@ == old(out)@ + hex_rep(n as nat),
    decreases n,
{
    if n >= 16 {
        push_hex(out, n / 16);
    }
    let r: u32 = n % 16;
    let d: u8 = if r < 10 {
        r as u8 + 48
    } else {
        r as u8 + 87
    };
    push_char(out, d as char);
    proof {
        if n < 16 {
            assert(final(out)@ =~= old(out)@ + hex_rep(n as nat));
        } else {
            assert((n as nat) / 16 == (n / 16) as nat);
            assert((n as nat) % 16 == (n % 16) as nat);
            assert(final(out)@ =~= old(out)@ + hex_rep(n as nat));
        }
    }
}

} // verus!
