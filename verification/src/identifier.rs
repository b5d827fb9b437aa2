//! Mangled identifiers, synthetic asset keys and import lines.
//!
//! Every accepted call mints one number `i`.  The identifier, the asset key
//! and the import line of that call all embed the decimal digits of `i`, and
//! `i` can be recovered from each of them, so identifiers and keys minted for
//! distinct numbers never collide.

use vstd::prelude::*;
use crate::component::ComponentType;
use crate::numeral::{
    dec_rep,
    hex_rep,
    is_dec_digit,
    is_hex_digit,
    lemma_dec_rep_digits,
    lemma_dec_rep_injective,
    lemma_hex_rep_digits,
    lemma_trailing_digits_concat,
    push_dec,
    push_hex,
    trailing_digits,
};
use crate::text::push_char;
use vstd::string::StringExecFns;

verus! {

/// Whether `c` may stand for itself inside a mangled identifier.
pub open spec fn is_plain_ident_char(c: char) -> bool {
    ||| is_dec_digit(c)
    ||| (65 <= c as u32 <= 90)
    ||| (97 <= c as u32 <= 122)
}

/// Whether `c` may appear anywhere in an identifier of the generated-code
/// dialect: letters, digits, underscore, dollar.
pub open spec fn is_ident_char(c: char) -> bool {
    ||| is_plain_ident_char(c)
    ||| c == '_'
    ||| c == '$'
}

/// The encoding of one tag character: letters and digits stand for
/// themselves, anything else becomes a `$`-delimited hexadecimal escape.
pub open spec fn encode_char(c: char) -> Seq<char> {
    if is_plain_ident_char(c) {
        seq![c]
    } else {
        seq!['$'] + hex_rep((c as u32) as nat) + seq!['$']
    }
}

/// The encoding of a whole tag.
pub open spec fn encode_seq(s: Seq<char>) -> Seq<char>
    decreases s.len(),
{
    if s.len() == 0 {
        Seq::empty()
    } else {
        encode_char(s[0]) + encode_seq(s.skip(1))
    }
}

/// The mangled identifier for tag `tag` and uniqueness number `i`: the
/// reserved marker, the encoded tag, an underscore, the decimal digits of
/// `i`, and a closing double underscore.
pub open spec fn mangle_spec(tag: Seq<char>, i: nat) -> Seq<char> {
    "__LOADER_TREE__"@ + encode_seq(tag) + seq!['_'] + dec_rep(i) + seq!['_', '_']
}

/// The synthetic module specifier registered for uniqueness number `i`.
pub open spec fn asset_key_spec(i: nat) -> Seq<char> {
    "COMPONENT_"@ + dec_rep(i)
}

/// The import line generated for one call: it binds the mangled identifier
/// to the synthetic specifier of the same number.
pub open spec fn import_line_spec(kind: ComponentType, i: nat) -> Seq<char> {
    "import * as "@ + mangle_spec(kind.name_spec(), i) + " from \""@ + asset_key_spec(i)
        + "\";\n"@
}

/// Encoding one more character extends the encoding at the end.
pub proof fn lemma_encode_seq_snoc(s: Seq<char>, c: char)
    ensures
        encode_seq(s.push(c)) == encode_seq(s) + encode_char(c),
    decreases s.len(),
{
    if s.len() == 0 {
        assert(s.push(c).skip(1) =~= Seq::<char>::empty());
        assert(s.push(c)[0] == c);
        assert(encode_seq(s.push(c)) == encode_char(c) + encode_seq(s.push(c).skip(1)));
        assert(encode_char(c) + encode_seq(Seq::<char>::empty()) =~= encode_seq(s) + encode_char(
            c,
        ));
    } else {
        assert(s.push(c).skip(1) =~= s.skip(1).push(c));
        lemma_encode_seq_snoc(s.skip(1), c);
        assert(s.push(c)[0] == s[0]);
        assert(encode_seq(s.push(c)) == encode_char(s[0]) + (encode_seq(s.skip(1)) + encode_char(
            c,
        )));
        assert(encode_char(s[0]) + (encode_seq(s.skip(1)) + encode_char(c)) =~= encode_seq(s)
            + encode_char(c));
    }
}

/// The digits of `i` are recoverable from the mangled identifier: they are
/// the trailing digit run once the closing underscores are removed.
pub proof fn lemma_mangle_number(tag: Seq<char>, i: nat)
    ensures
        mangle_spec(tag, i).len() >= 2,
        trailing_digits(
            mangle_spec(tag, i).take(mangle_spec(tag, i).len() - 2),
        ) == dec_rep(i),
{
    let head = "__LOADER_TREE__"@ + encode_seq(tag) + seq!['_'];
    let m = mangle_spec(tag, i);
    lemma_dec_rep_digits(i);
    assert(head.last() == '_');
    assert(!is_dec_digit('_'));
    assert(m =~= (head + dec_rep(i)) + seq!['_', '_']);
    assert(m.take(m.len() - 2) =~= head + dec_rep(i));
    lemma_trailing_digits_concat(head, dec_rep(i));
}

/// Identifiers mangled for distinct numbers differ, whatever the tags are.
pub proof fn lemma_mangle_distinct(tag1: Seq<char>, i1: nat, tag2: Seq<char>, i2: nat)
    requires
        i1 != i2,
    ensures
        mangle_spec(tag1, i1) != mangle_spec(tag2, i2),
{
    if mangle_spec(tag1, i1) == mangle_spec(tag2, i2) {
        lemma_mangle_number(tag1, i1);
        lemma_mangle_number(tag2, i2);
        lemma_dec_rep_injective(i1, i2);
    }
}

/// The digits of `i` are recoverable from the asset key as its trailing
/// digit run.
pub proof fn lemma_asset_key_number(i: nat)
    ensures
        trailing_digits(asset_key_spec(i)) == dec_rep(i),
{
    reveal_strlit("COMPONENT_");
    lemma_dec_rep_digits(i);
    assert("COMPONENT_"@.last() == '_');
    lemma_trailing_digits_concat("COMPONENT_"@, dec_rep(i));
}

/// Asset keys registered for distinct numbers differ.
pub proof fn lemma_asset_key_distinct(i1: nat, i2: nat)
    requires
        i1 != i2,
    ensures
        asset_key_spec(i1) != asset_key_spec(i2),
{
    if asset_key_spec(i1) == asset_key_spec(i2) {
        lemma_asset_key_number(i1);
        lemma_asset_key_number(i2);
        lemma_dec_rep_injective(i1, i2);
    }
}

/// The identifier bound by one call's import and the asset key registered
/// by the same call carry the digits of the same minted number: each
/// determines `i`, so the two sides of a generated import line can never
/// fall out of step.
pub proof fn lemma_identifier_and_key_share_number(kind: ComponentType, i: nat)
    ensures
        mangle_spec(kind.name_spec(), i).len() >= 2,
        trailing_digits(
            mangle_spec(kind.name_spec(), i).take(mangle_spec(kind.name_spec(), i).len() - 2),
        ) == dec_rep(i),
        trailing_digits(asset_key_spec(i)) == dec_rep(i),
{
    lemma_mangle_number(kind.name_spec(), i);
    lemma_asset_key_number(i);
}

/// A mangled identifier is well formed in the generated-code dialect: it is
/// non-empty, every character is a letter, digit, underscore or dollar, and
/// it starts with the reserved marker, which no user-authored identifier
/// carries.
pub proof fn lemma_mangle_identifier(tag: Seq<char>, i: nat)
    ensures
        mangle_spec(tag, i).len() > 0,
        forall|k: int|
            0 <= k < mangle_spec(tag, i).len() ==> is_ident_char(#[trigger] mangle_spec(tag, i)[k]),
        mangle_spec(tag, i).take("__LOADER_TREE__"@.len() as int) == "__LOADER_TREE__"@,
{
    reveal_strlit("__LOADER_TREE__");
    let p = "__LOADER_TREE__"@;
    let e = encode_seq(tag);
    let d = dec_rep(i);
    let m = mangle_spec(tag, i);
    lemma_dec_rep_digits(i);
    lemma_encode_seq_ident_chars(tag);
    assert(forall|k: int| 0 <= k < p.len() ==> is_ident_char(#[trigger] p[k]));
    assert forall|k: int| 0 <= k < m.len() implies is_ident_char(#[trigger] m[k]) by {
        if k < p.len() {
            assert(m[k] == p[k]);
        } else if k < p.len() + e.len() {
            assert(m[k] == e[k - p.len()]);
        } else if k < p.len() + e.len() + 1 {
            assert(m[k] == '_');
        } else if k < p.len() + e.len() + 1 + d.len() {
            assert(m[k] == d[k - p.len() - e.len() - 1]);
            assert(is_dec_digit(m[k]));
        } else {
            assert(m[k] == '_');
        }
    }
    assert(m.take(p.len() as int) =~= p);
}

/// Every character of an encoded tag is a letter, digit or dollar.
pub proof fn lemma_encode_seq_ident_chars(s: Seq<char>)
    ensures
        forall|k: int|
            0 <= k < encode_seq(s).len() ==> is_ident_char(#[trigger] encode_seq(s)[k]),
    decreases s.len(),
{
    if s.len() > 0 {
        lemma_encode_seq_ident_chars(s.skip(1));
        let e0 = encode_char(s[0]);
        assert forall|k: int| 0 <= k < e0.len() implies is_ident_char(#[trigger] e0[k]) by {
            if !is_plain_ident_char(s[0]) {
                lemma_hex_rep_digits((s[0] as u32) as nat);
                let h = hex_rep((s[0] as u32) as nat);
                if k == 0 || k == e0.len() - 1 {
                    assert(e0[k] == '$');
                } else {
                    assert(e0[k] == h[k - 1]);
                    assert(is_hex_digit(h[k - 1]));
                }
            }
        }
        assert forall|k: int| 0 <= k < encode_seq(s).len() implies is_ident_char(
            #[trigger] encode_seq(s)[k],
        ) by {
            if k < e0.len() {
                assert(encode_seq(s)[k] == e0[k]);
            } else {
                assert(encode_seq(s)[k] == encode_seq(s.skip(1))[k - e0.len()]);
            }
        }
    }
}

/// Builds the mangled identifier for `name` and `i`.
pub fn mangle(name: &str, i: usize) -> (r: String)
    ensures
        r@ == mangle_spec(name@, i as nat),
{
    broadcast use vstd::string::axiom_spec_iter;

    let mut out: String = "__LOADER_TREE__".to_owned();
    for c in it: name.chars()
        invariant
            it.seq() == name@,
            out@ == "__LOADER_TREE__"@ + encode_seq(name@.take(it.index())),
    {
        proof {
            assert(name@.take(it.index() + 1) =~= name@.take(it.index()).push(c));
            lemma_encode_seq_snoc(name@.take(it.index()), c);
        }
        let v: u32 = c as u32;
        if (48 <= v && v <= 57) || (65 <= v && v <= 90) || (97 <= v && v <= 122) {
            push_char(&mut out, c);
        } else {
            push_char(&mut out, '$');
            push_hex(&mut out, v);
            push_char(&mut out, '$');
        }
        proof {
            assert(out@ =~= "__LOADER_TREE__"@ + encode_seq(name@.take(it.index() + 1)));
        }
    }
    proof {
        assert(name@.take(name@.len() as int) =~= name@);
    }
    push_char(&mut out, '_');
    push_dec(&mut out, i);
    let r = out.concat("__");
    proof {
        reveal_strlit("__");
        assert("__"@ =~= seq!['_', '_']);
        assert(r@ =~= mangle_spec(name@, i as nat));
    }
    r
}

/// Builds the synthetic asset key for `i`.
pub fn asset_key(i: usize) -> (r: String)
    ensures
        r@ == asset_key_spec(i as nat),
{
    let mut out: String = "COMPONENT_".to_owned();
    push_dec(&mut out, i);
    out
}

} // verus!
