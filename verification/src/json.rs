//! The wire encoding shared by the message codec and the envelope layer:
//! a deterministic JSON dialect. The printer emits compact JSON; the
//! parser accepts it back, with whitespace between tokens, and follows a
//! single deterministic decode path. Parsing and printing are specified
//! over character sequences and proved to invert each other.

use crate::text::{dec_rep, digit_val, is_dec_digit};
use vstd::prelude::*;

verus! {

// ---------------------------------------------------------------------
// whitespace
// ---------------------------------------------------------------------
/// Whether a character is insignificant whitespace between tokens.
pub open spec fn is_ws(c: char) -> bool {
    c == ' ' || c == '\n' || c == '\t' || c == '\r'
}

/// The input with its leading whitespace removed.
pub open spec fn sp_ws(s: Seq<char>) -> Seq<char>
    decreases s.len(),
{
    if s.len() > 0 && is_ws(s[0]) {
        sp_ws(s.skip(1))
    } else {
        s
    }
}

/// Skipping whitespace never lengthens the input, and an input that
/// starts with none is untouched.
pub proof fn lemma_sp_ws_len(s: Seq<char>)
    ensures
        sp_ws(s).len() <= s.len(),
        s.len() > 0 && !is_ws(s[0]) ==> sp_ws(s) == s,
        s.len() == 0 ==> sp_ws(s) == s,
    decreases s.len(),
{
    if s.len() > 0 && is_ws(s[0]) {
        lemma_sp_ws_len(s.skip(1));
    }
}


/// Leading whitespace is skipped through to what follows it.
pub proof fn lemma_sp_ws_prefix(ws: Seq<char>, rest: Seq<char>)
    requires
        forall|i: int| 0 <= i < ws.len() ==> is_ws(#[trigger] ws[i]),
    ensures
        sp_ws(ws + rest) == sp_ws(rest),
    decreases ws.len(),
{
    if ws.len() == 0 {
        assert(ws + rest =~= rest);
    } else {
        assert((ws + rest)[0] == ws[0]);
        assert((ws + rest).skip(1) =~= ws.skip(1) + rest);
        assert(forall|i: int|
            0 <= i < ws.skip(1).len() ==> is_ws(#[trigger] ws.skip(1)[i])) by {
            assert(forall|i: int|
                0 <= i < ws.skip(1).len() ==> #[trigger] ws.skip(1)[i] == ws[i + 1]);
        }
        lemma_sp_ws_prefix(ws.skip(1), rest);
    }
}

// ---------------------------------------------------------------------
// fixed tokens
// ---------------------------------------------------------------------
/// Whether `pat` sits at the front of `s`.
pub open spec fn starts_with(s: Seq<char>, pat: Seq<char>) -> bool {
    pat.len() <= s.len() && s.subrange(0, pat.len() as int) == pat
}

/// A pattern at the front of a concatenation is consumed exactly.
pub proof fn lemma_starts_with_concat(pat: Seq<char>, rest: Seq<char>)
    ensures
        starts_with(pat + rest, pat),
        (pat + rest).skip(pat.len() as int) == rest,
{
    assert((pat + rest).subrange(0, pat.len() as int) =~= pat);
    assert((pat + rest).skip(pat.len() as int) =~= rest);
}

/// Consumes a fixed token at the front.
pub open spec fn sp_tok(s: Seq<char>, pat: Seq<char>) -> Option<Seq<char>> {
    if starts_with(s, pat) {
        Some(s.skip(pat.len() as int))
    } else {
        None
    }
}

// ---------------------------------------------------------------------
// strings
// ---------------------------------------------------------------------
/// The escape of one character inside a quoted string: quotes and
/// backslashes get a backslash, everything else stands for itself.
pub open spec fn esc_char(c: char) -> Seq<char> {
    if c == '"' || c == '\\' {
        seq!['\\', c]
    } else {
        seq![c]
    }
}

/// The escaped body of a quoted string.
pub open spec fn esc(s: Seq<char>) -> Seq<char>
    decreases s.len(),
{
    if s.len() == 0 {
        Seq::empty()
    } else {
        esc_char(s[0]) + esc(s.skip(1))
    }
}

/// A quoted, escaped string.
pub open spec fn pr_string(s: Seq<char>) -> Seq<char> {
    seq!['"'] + esc(s) + seq!['"']
}

/// Parses a quoted-string body up to and including the closing quote:
/// the unescaped characters, and what follows. A lone backslash or an
/// unknown escape fails; the input ending before the closing quote
/// fails.
pub open spec fn sp_string_body(s: Seq<char>) -> Option<(Seq<char>, Seq<char>)>
    decreases s.len(),
{
    if s.len() == 0 {
        None
    } else if s[0] == '"' {
        Some((Seq::empty(), s.skip(1)))
    } else if s[0] == '\\' {
        if s.len() >= 2 && (s[1] == '"' || s[1] == '\\') {
            match sp_string_body(s.skip(2)) {
                Some((v, r)) => Some((seq![s[1]] + v, r)),
                None => None,
            }
        } else if s.len() >= 2 && s[1] == 'n' {
            match sp_string_body(s.skip(2)) {
                Some((v, r)) => Some((seq!['\n'] + v, r)),
                None => None,
            }
        } else if s.len() >= 2 && s[1] == 't' {
            match sp_string_body(s.skip(2)) {
                Some((v, r)) => Some((seq!['\t'] + v, r)),
                None => None,
            }
        } else if s.len() >= 2 && s[1] == 'r' {
            match sp_string_body(s.skip(2)) {
                Some((v, r)) => Some((seq!['\r'] + v, r)),
                None => None,
            }
        } else if s.len() >= 2 && s[1] == '/' {
            match sp_string_body(s.skip(2)) {
                Some((v, r)) => Some((seq!['/'] + v, r)),
                None => None,
            }
        } else {
            None
        }
    } else {
        match sp_string_body(s.skip(1)) {
            Some((v, r)) => Some((seq![s[0]] + v, r)),
            None => None,
        }
    }
}

/// Parses a quoted string, opening quote included.
pub open spec fn sp_string(s: Seq<char>) -> Option<(Seq<char>, Seq<char>)> {
    if s.len() > 0 && s[0] == '"' {
        sp_string_body(s.skip(1))
    } else {
        None
    }
}

/// A parsed string body leaves a strictly shorter remainder.
pub proof fn lemma_sp_string_body_len(s: Seq<char>)
    ensures
        sp_string_body(s) matches Some(p) ==> p.1.len() < s.len(),
    decreases s.len(),
{
    if s.len() == 0 {
    } else if s[0] == '"' {
    } else if s[0] == '\\' {
        if s.len() >= 2 {
            lemma_sp_string_body_len(s.skip(2));
        }
    } else {
        lemma_sp_string_body_len(s.skip(1));
    }
}

/// A parsed string leaves a strictly shorter remainder.
pub proof fn lemma_sp_string_len(s: Seq<char>)
    ensures
        sp_string(s) matches Some(p) ==> p.1.len() < s.len(),
{
    if s.len() > 0 && s[0] == '"' {
        lemma_sp_string_body_len(s.skip(1));
    }
}

/// Parsing inverts escaping: the escaped body, closing quote and
/// whatever follows parse back to the original characters.
pub proof fn lemma_string_body_round_trip(v: Seq<char>, rest: Seq<char>)
    ensures
        sp_string_body(esc(v) + seq!['"'] + rest) == Some((v, rest)),
    decreases v.len(),
{
    let w = esc(v) + seq!['"'] + rest;
    if v.len() == 0 {
        assert(w =~= seq!['"'] + rest);
        assert(w[0] == '"');
        assert(w.skip(1) =~= rest);
    } else {
        lemma_string_body_round_trip(v.skip(1), rest);
        let tail = esc(v.skip(1)) + seq!['"'] + rest;
        if v[0] == '"' || v[0] == '\\' {
            assert(esc(v) =~= seq!['\\', v[0]] + esc(v.skip(1)));
            assert(w =~= seq!['\\', v[0]] + tail);
            assert(w[0] == '\\');
            assert(w[1] == v[0]);
            assert(w.skip(2) =~= tail);
            assert(sp_string_body(w) == Some((seq![v[0]] + v.skip(1), rest)));
            assert(seq![v[0]] + v.skip(1) =~= v);
        } else {
            assert(esc(v) =~= seq![v[0]] + esc(v.skip(1)));
            assert(w =~= seq![v[0]] + tail);
            assert(w[0] == v[0]);
            assert(w.skip(1) =~= tail);
            assert(sp_string_body(w) == Some((seq![v[0]] + v.skip(1), rest)));
            assert(seq![v[0]] + v.skip(1) =~= v);
        }
    }
}

/// Parsing inverts printing for strings.
pub proof fn lemma_string_round_trip(v: Seq<char>, rest: Seq<char>)
    ensures
        sp_string(pr_string(v) + rest) == Some((v, rest)),
{
    let w = pr_string(v) + rest;
    assert(w =~= seq!['"'] + (esc(v) + seq!['"'] + rest));
    assert(w[0] == '"');
    assert(w.skip(1) =~= esc(v) + seq!['"'] + rest);
    lemma_string_body_round_trip(v, rest);
}

// ---------------------------------------------------------------------
// numbers
// ---------------------------------------------------------------------
/// Ten to the given power.
pub open spec fn pow10(k: nat) -> nat
    decreases k,
{
    if k == 0 {
        1
    } else {
        10 * pow10((k - 1) as nat)
    }
}

/// The value of a single digit character.
pub proof fn lemma_digits_val_singleton(d: char)
    ensures
        digits_val(seq![d]) == digit_val(d),
{
    let w = seq![d];
    assert(w.len() == 1);
    assert(w.last() == d);
    assert(w.drop_last() =~= Seq::<char>::empty());
    assert(digits_val(Seq::<char>::empty()) == 0);
    assert(digits_val(w.drop_last()) == 0);
    assert(digits_val(w) == digits_val(w.drop_last()) * 10 + digit_val(w.last()));
}

/// The value of a sequence of decimal digit characters, most significant
/// first.
pub open spec fn digits_val(ds: Seq<char>) -> nat
    decreases ds.len(),
{
    if ds.len() == 0 {
        0
    } else {
        digits_val(ds.drop_last()) * 10 + digit_val(ds.last())
    }
}

/// Whether every character is a decimal digit.
pub open spec fn all_digits(ds: Seq<char>) -> bool {
    forall|i: int| 0 <= i < ds.len() ==> is_dec_digit(#[trigger] ds[i])
}

/// Consumes leading digits, accumulating their value.
pub open spec fn sp_digits(s: Seq<char>, acc: nat) -> (nat, Seq<char>)
    decreases s.len(),
{
    if s.len() > 0 && is_dec_digit(s[0]) {
        sp_digits(s.skip(1), acc * 10 + digit_val(s[0]))
    } else {
        (acc, s)
    }
}

/// Parses an unsigned decimal number that fits in sixty-four bits: at
/// least one digit, value within range.
pub open spec fn sp_u64(s: Seq<char>) -> Option<(u64, Seq<char>)> {
    if s.len() > 0 && is_dec_digit(s[0]) {
        let (v, r) = sp_digits(s, 0);
        if v <= u64::MAX {
            Some((v as u64, r))
        } else {
            None
        }
    } else {
        None
    }
}

/// Consuming digits never lengthens the remainder, and consuming at
/// least one digit shortens it.
pub proof fn lemma_sp_digits_len(s: Seq<char>, acc: nat)
    ensures
        sp_digits(s, acc).1.len() <= s.len(),
        s.len() > 0 && is_dec_digit(s[0]) ==> sp_digits(s, acc).1.len() < s.len(),
    decreases s.len(),
{
    if s.len() > 0 && is_dec_digit(s[0]) {
        lemma_sp_digits_len(s.skip(1), acc * 10 + digit_val(s[0]));
    }
}

/// The value of a digit sequence, peeled from the front.
pub proof fn lemma_digits_val_cons(d: char, ds: Seq<char>)
    ensures
        digits_val(seq![d] + ds) == digit_val(d) * pow10(ds.len()) + digits_val(ds),
    decreases ds.len(),
{
    let w = seq![d] + ds;
    if ds.len() == 0 {
        assert(w =~= seq![d]);
        lemma_digits_val_singleton(d);
        assert(digits_val(w) == digit_val(d));
        assert(pow10(0) == 1);
        assert(digits_val(ds) == 0);
        assert(digit_val(d) * 1 == digit_val(d)) by (nonlinear_arith);
    } else {
        lemma_digits_val_cons(d, ds.drop_last());
        assert(w.drop_last() =~= seq![d] + ds.drop_last());
        assert(w.last() == ds.last());
        assert(digits_val(w) == digits_val(seq![d] + ds.drop_last()) * 10 + digit_val(ds.last()));
        assert(digits_val(w) == (digit_val(d) * pow10((ds.len() - 1) as nat) + digits_val(
            ds.drop_last(),
        )) * 10 + digit_val(ds.last()));
        assert((digit_val(d) * pow10((ds.len() - 1) as nat) + digits_val(ds.drop_last())) * 10
            == digit_val(d) * (pow10((ds.len() - 1) as nat) * 10) + digits_val(ds.drop_last())
            * 10) by (nonlinear_arith);
        assert(pow10(ds.len()) == 10 * pow10((ds.len() - 1) as nat));
        assert(digit_val(d) * (pow10((ds.len() - 1) as nat) * 10) == digit_val(d) * pow10(
            ds.len(),
        )) by (nonlinear_arith)
            requires
                pow10(ds.len()) == 10 * pow10((ds.len() - 1) as nat),
        ;
    }
}

/// Scanning the digits of a number followed by a non-digit yields its
/// value over the accumulator.
pub proof fn lemma_sp_digits_exact(ds: Seq<char>, rest: Seq<char>, acc: nat)
    requires
        all_digits(ds),
        rest.len() == 0 || !is_dec_digit(rest[0]),
    ensures
        sp_digits(ds + rest, acc) == (acc * pow10(ds.len()) + digits_val(ds), rest),
    decreases ds.len(),
{
    let w = ds + rest;
    if ds.len() == 0 {
        assert(w =~= rest);
        assert(pow10(0) == 1);
        assert(digits_val(ds) == 0);
        assert(sp_digits(rest, acc) == (acc, rest));
        assert(acc * 1 == acc) by (nonlinear_arith);
    } else {
        let d = ds[0];
        assert(w[0] == d);
        assert(is_dec_digit(d));
        assert(w.skip(1) =~= ds.skip(1) + rest);
        assert(all_digits(ds.skip(1))) by {
            assert(forall|i: int|
                0 <= i < ds.skip(1).len() ==> #[trigger] ds.skip(1)[i] == ds[i + 1]);
        }
        lemma_sp_digits_exact(ds.skip(1), rest, acc * 10 + digit_val(d));
        assert(ds =~= seq![d] + ds.skip(1));
        lemma_digits_val_cons(d, ds.skip(1));
        let k = ds.skip(1).len();
        assert(digits_val(ds) == digit_val(d) * pow10(k) + digits_val(ds.skip(1)));
        assert((acc * 10 + digit_val(d)) * pow10(k) == acc * (10 * pow10(k)) + digit_val(d)
            * pow10(k)) by (nonlinear_arith);
        assert(pow10(ds.len()) == 10 * pow10(k));
        assert(acc * (10 * pow10(k)) == acc * pow10(ds.len())) by (nonlinear_arith)
            requires
                pow10(ds.len()) == 10 * pow10(k),
        ;
    }
}

/// The decimal representation of a number has its value.
pub proof fn lemma_digits_val_dec_rep(n: nat)
    ensures
        digits_val(dec_rep(n)) == n,
    decreases n,
{
    crate::text::lemma_dec_rep_digits(n);
    if n < 10 {
        assert(dec_rep(n) =~= seq![crate::text::dec_digit(n)]);
        lemma_digits_val_singleton(crate::text::dec_digit(n));
        crate::text::lemma_dec_digit_props(n);
    } else {
        lemma_digits_val_dec_rep(n / 10);
        assert(dec_rep(n).drop_last() =~= dec_rep(n / 10));
        assert(dec_rep(n).last() == crate::text::dec_digit(n % 10));
        crate::text::lemma_dec_digit_props(n % 10);
    }
}

/// Parsing inverts printing for sixty-four-bit numbers, whatever
/// non-digit text follows.
pub proof fn lemma_u64_round_trip(n: u64, rest: Seq<char>)
    requires
        rest.len() == 0 || !is_dec_digit(rest[0]),
    ensures
        sp_u64(dec_rep(n as nat) + rest) == Some((n, rest)),
{
    let ds = dec_rep(n as nat);
    crate::text::lemma_dec_rep_digits(n as nat);
    let w = ds + rest;
    assert(w[0] == ds[0]);
    assert(is_dec_digit(w[0]));
    lemma_sp_digits_exact(ds, rest, 0);
    lemma_digits_val_dec_rep(n as nat);
    assert(0 * pow10(ds.len()) == 0) by (nonlinear_arith);
}

// ---------------------------------------------------------------------
// signed integers
// ---------------------------------------------------------------------
/// A decimal integer, with a minus sign when negative.
pub open spec fn pr_int(v: int) -> Seq<char> {
    if v < 0 {
        seq!['-'] + dec_rep((-v) as nat)
    } else {
        dec_rep(v as nat)
    }
}

/// Parses a decimal integer that fits in a signed sixty-four-bit value.
pub open spec fn sp_i64(s: Seq<char>) -> Option<(i64, Seq<char>)> {
    if s.len() > 0 && s[0] == '-' {
        let t = s.skip(1);
        if t.len() > 0 && is_dec_digit(t[0]) {
            let (v, r) = sp_digits(t, 0);
            if v <= 0x8000_0000_0000_0000 {
                Some(((-(v as int)) as i64, r))
            } else {
                None
            }
        } else {
            None
        }
    } else {
        match sp_u64(s) {
            Some((v, r)) => if v <= i64::MAX as u64 {
                Some((v as i64, r))
            } else {
                None
            },
            None => None,
        }
    }
}

/// Parsing inverts printing for signed integers, whatever non-digit text
/// follows.
pub proof fn lemma_i64_round_trip(v: i64, rest: Seq<char>)
    requires
        rest.len() == 0 || !is_dec_digit(rest[0]),
    ensures
        sp_i64(pr_int(v as int) + rest) == Some((v, rest)),
{
    if v < 0 {
        let mag = (-(v as int)) as nat;
        let ds = dec_rep(mag);
        crate::text::lemma_dec_rep_digits(mag);
        let w = pr_int(v as int) + rest;
        assert(w =~= seq!['-'] + (ds + rest));
        assert(w[0] == '-');
        assert(w.skip(1) =~= ds + rest);
        assert((ds + rest)[0] == ds[0]);
        lemma_sp_digits_exact(ds, rest, 0);
        lemma_digits_val_dec_rep(mag);
        assert(0 * pow10(ds.len()) == 0) by (nonlinear_arith);
        assert(mag <= 0x8000_0000_0000_0000);
    } else {
        let w = pr_int(v as int) + rest;
        assert(w =~= dec_rep(v as nat) + rest);
        crate::text::lemma_dec_rep_digits(v as nat);
        assert(w[0] == dec_rep(v as nat)[0]);
        assert(is_dec_digit(w[0]));
        assert(w[0] != '-');
        lemma_u64_round_trip(v as u64, rest);
    }
}

// ---------------------------------------------------------------------
// leaf values
// ---------------------------------------------------------------------
/// The abstract model of a leaf value: null, a boolean, an integer or a
/// string. Nested structures are not part of this layer's data model.
pub enum LeafV {
    Null,
    Bool(bool),
    Int(i64),
    Str(Seq<char>),
}

/// One leaf value, printed.
pub open spec fn pr_leaf(l: LeafV) -> Seq<char> {
    match l {
        LeafV::Null => "null"@,
        LeafV::Bool(b) => if b {
            "true"@
        } else {
            "false"@
        },
        LeafV::Int(v) => pr_int(v as int),
        LeafV::Str(s) => pr_string(s),
    }
}

/// Parses one leaf value, deciding by the first character.
pub open spec fn sp_leaf(s: Seq<char>) -> Option<(LeafV, Seq<char>)> {
    if s.len() == 0 {
        None
    } else if s[0] == '"' {
        match sp_string(s) {
            Some((v, r)) => Some((LeafV::Str(v), r)),
            None => None,
        }
    } else if s[0] == 'n' {
        if starts_with(s, "null"@) {
            Some((LeafV::Null, s.skip("null"@.len() as int)))
        } else {
            None
        }
    } else if s[0] == 't' {
        if starts_with(s, "true"@) {
            Some((LeafV::Bool(true), s.skip("true"@.len() as int)))
        } else {
            None
        }
    } else if s[0] == 'f' {
        if starts_with(s, "false"@) {
            Some((LeafV::Bool(false), s.skip("false"@.len() as int)))
        } else {
            None
        }
    } else if s[0] == '-' || is_dec_digit(s[0]) {
        match sp_i64(s) {
            Some((v, r)) => Some((LeafV::Int(v), r)),
            None => None,
        }
    } else {
        None
    }
}

/// The printed form of a leaf is never empty, and its first character is
/// no whitespace, comma, brace or bracket.
pub proof fn lemma_pr_leaf_first(l: LeafV)
    ensures
        pr_leaf(l).len() > 0,
        !is_ws(pr_leaf(l)[0]),
        pr_leaf(l)[0] != ',',
        pr_leaf(l)[0] != '}',
        pr_leaf(l)[0] != ']',
{
    reveal_strlit("null");
    reveal_strlit("true");
    reveal_strlit("false");
    match l {
        LeafV::Null => {},
        LeafV::Bool(b) => {},
        LeafV::Int(v) => {
            if v < 0 {
                assert(pr_leaf(l)[0] == '-');
            } else {
                crate::text::lemma_dec_rep_digits(v as nat);
                assert(pr_leaf(l)[0] == dec_rep(v as nat)[0]);
                assert(is_dec_digit(pr_leaf(l)[0]));
            }
        },
        LeafV::Str(s) => {
            assert(pr_leaf(l)[0] == '"');
        },
    }
}

/// Parsing inverts printing for leaf values, whatever non-digit text
/// follows.
pub proof fn lemma_leaf_round_trip(l: LeafV, rest: Seq<char>)
    requires
        rest.len() == 0 || !is_dec_digit(rest[0]),
    ensures
        sp_leaf(pr_leaf(l) + rest) == Some((l, rest)),
{
    reveal_strlit("null");
    reveal_strlit("true");
    reveal_strlit("false");
    let w = pr_leaf(l) + rest;
    match l {
        LeafV::Null => {
            lemma_starts_with_concat("null"@, rest);
            assert(w[0] == 'n');
        },
        LeafV::Bool(b) => {
            if b {
                lemma_starts_with_concat("true"@, rest);
                assert(w[0] == 't');
            } else {
                lemma_starts_with_concat("false"@, rest);
                assert(w[0] == 'f');
            }
        },
        LeafV::Int(v) => {
            lemma_i64_round_trip(v, rest);
            if v < 0 {
                assert(w[0] == '-');
            } else {
                crate::text::lemma_dec_rep_digits(v as nat);
                assert(w[0] == dec_rep(v as nat)[0]);
                assert(is_dec_digit(w[0]));
            }
        },
        LeafV::Str(s) => {
            lemma_string_round_trip(s, rest);
            assert(w[0] == '"');
        },
    }
}

/// A parsed leaf never lengthens the remainder.
pub proof fn lemma_sp_leaf_len(s: Seq<char>)
    ensures
        sp_leaf(s) matches Some(p) ==> p.1.len() <= s.len(),
{
    reveal_strlit("null");
    reveal_strlit("true");
    reveal_strlit("false");
    if s.len() > 0 && s[0] == '"' {
        lemma_sp_string_len(s);
    }
    if s.len() > 0 && (s[0] == '-' || is_dec_digit(s[0])) {
        if s[0] == '-' {
            lemma_sp_digits_len(s.skip(1), 0);
        } else {
            lemma_sp_digits_len(s, 0);
        }
    }
}

// ---------------------------------------------------------------------
// flat objects of leaf values
// ---------------------------------------------------------------------
/// One printed object entry.
pub open spec fn pr_entry(k: Seq<char>, v: LeafV) -> Seq<char> {
    pr_string(k) + seq![':'] + pr_leaf(v)
}

/// The printed entries of an object, comma separated.
pub open spec fn pr_entries(es: Seq<(Seq<char>, LeafV)>) -> Seq<char>
    decreases es.len(),
{
    if es.len() == 0 {
        Seq::empty()
    } else if es.len() == 1 {
        pr_entry(es[0].0, es[0].1)
    } else {
        pr_entry(es[0].0, es[0].1) + seq![','] + pr_entries(es.skip(1))
    }
}

/// A printed object, braces included.
pub open spec fn pr_obj(es: Seq<(Seq<char>, LeafV)>) -> Seq<char> {
    seq!['{'] + pr_entries(es) + seq!['}']
}

/// Parses entries from the first key on, up to and including the closing
/// brace. The fuel bounds the recursion; any fuel at least the input
/// length gives the same answer.
pub open spec fn sp_entries(s: Seq<char>, fuel: nat) -> Option<(Seq<(Seq<char>, LeafV)>, Seq<
    char>)>
    decreases fuel,
{
    if fuel == 0 {
        None
    } else {
        match sp_string(s) {
            None => None,
            Some((k, r1)) => {
                let r2 = sp_ws(r1);
                if r2.len() > 0 && r2[0] == ':' {
                    let r3 = sp_ws(r2.skip(1));
                    match sp_leaf(r3) {
                        None => None,
                        Some((v, r4)) => {
                            let r5 = sp_ws(r4);
                            if r5.len() > 0 && r5[0] == ',' {
                                let r6 = sp_ws(r5.skip(1));
                                match sp_entries(r6, (fuel - 1) as nat) {
                                    Some((es, r7)) => Some((seq![(k, v)] + es, r7)),
                                    None => None,
                                }
                            } else if r5.len() > 0 && r5[0] == '}' {
                                Some((seq![(k, v)], r5.skip(1)))
                            } else {
                                None
                            }
                        },
                    }
                } else {
                    None
                }
            },
        }
    }
}

/// Parses a whole object, braces included.
pub open spec fn sp_obj(s: Seq<char>, fuel: nat) -> Option<(Seq<(Seq<char>, LeafV)>, Seq<char>)> {
    if s.len() > 0 && s[0] == '{' {
        let r1 = sp_ws(s.skip(1));
        if r1.len() > 0 && r1[0] == '}' {
            Some((Seq::empty(), r1.skip(1)))
        } else {
            sp_entries(r1, fuel)
        }
    } else {
        None
    }
}

/// Any two fuels at least the input length give the same parse.
pub proof fn lemma_sp_entries_fuel(s: Seq<char>, f1: nat, f2: nat)
    requires
        f1 >= s.len(),
        f2 >= s.len(),
    ensures
        sp_entries(s, f1) == sp_entries(s, f2),
    decreases s.len(),
{
    if s.len() == 0 {
        assert(sp_string(s) is None);
    } else if f1 == 0 || f2 == 0 {
    } else {
        match sp_string(s) {
            None => {},
            Some((k, r1)) => {
                lemma_sp_string_len(s);
                let r2 = sp_ws(r1);
                lemma_sp_ws_len(r1);
                if r2.len() > 0 && r2[0] == ':' {
                    let r3 = sp_ws(r2.skip(1));
                    lemma_sp_ws_len(r2.skip(1));
                    match sp_leaf(r3) {
                        None => {},
                        Some((v, r4)) => {
                            lemma_sp_leaf_len(r3);
                            let r5 = sp_ws(r4);
                            lemma_sp_ws_len(r4);
                            if r5.len() > 0 && r5[0] == ',' {
                                let r6 = sp_ws(r5.skip(1));
                                lemma_sp_ws_len(r5.skip(1));
                                assert(r6.len() < s.len());
                                lemma_sp_entries_fuel(r6, (f1 - 1) as nat, r6.len());
                                lemma_sp_entries_fuel(r6, (f2 - 1) as nat, r6.len());
                            }
                        },
                    }
                }
            },
        }
    }
}

/// The printed entries of an object are at least as many characters as
/// there are entries.
pub proof fn lemma_pr_entries_len(es: Seq<(Seq<char>, LeafV)>)
    ensures
        pr_entries(es).len() >= es.len(),
    decreases es.len(),
{
    if es.len() == 0 {
    } else if es.len() == 1 {
        assert(pr_entry(es[0].0, es[0].1).len() >= 1);
    } else {
        lemma_pr_entries_len(es.skip(1));
    }
}

/// Parsing inverts printing for entry lists, with any sufficient fuel,
/// whatever text follows the closing brace.
pub proof fn lemma_entries_round_trip(es: Seq<(Seq<char>, LeafV)>, rest: Seq<char>, fuel: nat)
    requires
        es.len() >= 1,
        fuel >= es.len(),
    ensures
        sp_entries(pr_entries(es) + seq!['}'] + rest, fuel) == Some((es, rest)),
    decreases es.len(),
{
    let k = es[0].0;
    let v = es[0].1;
    let w = pr_entries(es) + seq!['}'] + rest;
    if es.len() == 1 {
        let after_key = seq![':'] + pr_leaf(v) + seq!['}'] + rest;
        assert(w =~= pr_string(k) + after_key);
        lemma_string_round_trip(k, after_key);
        assert(sp_string(w) == Some((k, after_key)));
        lemma_sp_ws_len(after_key);
        assert(after_key[0] == ':');
        assert(!is_ws(':'));
        let r2 = after_key;
        let leaf_tail = pr_leaf(v) + seq!['}'] + rest;
        assert(r2.skip(1) =~= leaf_tail);
        lemma_pr_leaf_first(v);
        assert(leaf_tail[0] == pr_leaf(v)[0]);
        lemma_sp_ws_len(leaf_tail);
        let close = seq!['}'] + rest;
        assert(leaf_tail =~= pr_leaf(v) + close);
        lemma_leaf_round_trip(v, close);
        assert(sp_leaf(leaf_tail) == Some((v, close)));
        assert(close[0] == '}');
        assert(!is_ws('}'));
        lemma_sp_ws_len(close);
        assert(close.skip(1) =~= rest);
        assert(sp_entries(w, fuel) == Some((seq![(k, v)], rest)));
        assert(seq![(k, v)] =~= es);
    } else {
        let tail_entries = pr_entries(es.skip(1));
        let after_key = seq![':'] + pr_leaf(v) + seq![','] + tail_entries + seq!['}'] + rest;
        assert(pr_entries(es) =~= pr_entry(k, v) + seq![','] + tail_entries);
        assert(w =~= pr_string(k) + after_key);
        lemma_string_round_trip(k, after_key);
        lemma_sp_ws_len(after_key);
        assert(after_key[0] == ':');
        let leaf_tail = pr_leaf(v) + seq![','] + tail_entries + seq!['}'] + rest;
        assert(after_key.skip(1) =~= leaf_tail);
        lemma_pr_leaf_first(v);
        assert(leaf_tail[0] == pr_leaf(v)[0]);
        lemma_sp_ws_len(leaf_tail);
        let comma_tail = seq![','] + tail_entries + seq!['}'] + rest;
        assert(leaf_tail =~= pr_leaf(v) + comma_tail);
        lemma_leaf_round_trip(v, comma_tail);
        assert(comma_tail[0] == ',');
        assert(!is_ws(','));
        lemma_sp_ws_len(comma_tail);
        let next = tail_entries + seq!['}'] + rest;
        assert(comma_tail.skip(1) =~= next);
        assert(next[0] == tail_entries[0]);
        assert(tail_entries.len() > 0 && tail_entries[0] == '"') by {
            assert(es.skip(1).len() >= 1);
            assert(tail_entries[0] == pr_string(es.skip(1)[0].0)[0]);
        }
        assert(!is_ws('"'));
        lemma_sp_ws_len(next);
        lemma_entries_round_trip(es.skip(1), rest, (fuel - 1) as nat);
        assert(sp_entries(next, (fuel - 1) as nat) == Some((es.skip(1), rest)));
        assert(sp_entries(w, fuel) == Some((seq![(k, v)] + es.skip(1), rest)));
        assert(seq![(k, v)] + es.skip(1) =~= es);
    }
}

/// Parsing inverts printing for whole objects, with any sufficient
/// fuel, whatever text follows.
pub proof fn lemma_obj_round_trip(es: Seq<(Seq<char>, LeafV)>, rest: Seq<char>, fuel: nat)
    requires
        fuel >= es.len(),
    ensures
        sp_obj(pr_obj(es) + rest, fuel) == Some((es, rest)),
{
    let w = pr_obj(es) + rest;
    assert(w =~= seq!['{'] + (pr_entries(es) + seq!['}'] + rest));
    assert(w[0] == '{');
    assert(w.skip(1) =~= pr_entries(es) + seq!['}'] + rest);
    if es.len() == 0 {
        assert(w.skip(1) =~= seq!['}'] + rest);
        assert(w.skip(1)[0] == '}');
        assert(!is_ws('}'));
        lemma_sp_ws_len(w.skip(1));
        assert(w.skip(1).skip(1) =~= rest);
    } else {
        assert(w.skip(1)[0] == pr_entries(es)[0]);
        assert(pr_entries(es)[0] == pr_string(es[0].0)[0]);
        assert(pr_entries(es)[0] == '"');
        assert(!is_ws('"'));
        lemma_sp_ws_len(w.skip(1));
        lemma_entries_round_trip(es, rest, fuel);
    }
}

// ---------------------------------------------------------------------
// arrays of bytes
// ---------------------------------------------------------------------
/// The printed elements of a byte array, comma separated.
pub open spec fn pr_byte_elems(bs: Seq<u8>) -> Seq<char>
    decreases bs.len(),
{
    if bs.len() == 0 {
        Seq::empty()
    } else if bs.len() == 1 {
        dec_rep(bs[0] as nat)
    } else {
        dec_rep(bs[0] as nat) + seq![','] + pr_byte_elems(bs.skip(1))
    }
}

/// A printed byte array, brackets included.
pub open spec fn pr_bytes(bs: Seq<u8>) -> Seq<char> {
    seq!['['] + pr_byte_elems(bs) + seq![']']
}

/// Parses byte elements from the first digit on, up to and including
/// the closing bracket. Any fuel at least the input length gives the
/// same answer.
pub open spec fn sp_byte_elems(s: Seq<char>, fuel: nat) -> Option<(Seq<u8>, Seq<char>)>
    decreases fuel,
{
    if fuel == 0 {
        None
    } else {
        match sp_u64(s) {
            None => None,
            Some((v, r1)) => {
                if v > 255 {
                    None
                } else {
                    let r2 = sp_ws(r1);
                    if r2.len() > 0 && r2[0] == ',' {
                        let r3 = sp_ws(r2.skip(1));
                        match sp_byte_elems(r3, (fuel - 1) as nat) {
                            Some((bs, r4)) => Some((seq![v as u8] + bs, r4)),
                            None => None,
                        }
                    } else if r2.len() > 0 && r2[0] == ']' {
                        Some((seq![v as u8], r2.skip(1)))
                    } else {
                        None
                    }
                }
            },
        }
    }
}

/// Parses a whole byte array, brackets included.
pub open spec fn sp_bytes(s: Seq<char>, fuel: nat) -> Option<(Seq<u8>, Seq<char>)> {
    if s.len() > 0 && s[0] == '[' {
        let r1 = sp_ws(s.skip(1));
        if r1.len() > 0 && r1[0] == ']' {
            Some((Seq::empty(), r1.skip(1)))
        } else {
            sp_byte_elems(r1, fuel)
        }
    } else {
        None
    }
}

/// Any two fuels at least the input length give the same parse.
pub proof fn lemma_sp_byte_elems_fuel(s: Seq<char>, f1: nat, f2: nat)
    requires
        f1 >= s.len(),
        f2 >= s.len(),
    ensures
        sp_byte_elems(s, f1) == sp_byte_elems(s, f2),
    decreases s.len(),
{
    if s.len() == 0 {
        assert(sp_u64(s) is None);
    } else if f1 == 0 || f2 == 0 {
    } else {
        match sp_u64(s) {
            None => {},
            Some((v, r1)) => {
                lemma_sp_digits_len(s, 0);
                let r2 = sp_ws(r1);
                lemma_sp_ws_len(r1);
                if v <= 255 && r2.len() > 0 && r2[0] == ',' {
                    let r3 = sp_ws(r2.skip(1));
                    lemma_sp_ws_len(r2.skip(1));
                    assert(r3.len() < s.len());
                    lemma_sp_byte_elems_fuel(r3, (f1 - 1) as nat, r3.len());
                    lemma_sp_byte_elems_fuel(r3, (f2 - 1) as nat, r3.len());
                }
            },
        }
    }
}

/// Parsing inverts printing for byte element lists, with any sufficient
/// fuel, whatever non-digit text follows the closing bracket.
pub proof fn lemma_byte_elems_round_trip(bs: Seq<u8>, rest: Seq<char>, fuel: nat)
    requires
        bs.len() >= 1,
        fuel >= bs.len(),
    ensures
        sp_byte_elems(pr_byte_elems(bs) + seq![']'] + rest, fuel) == Some((bs, rest)),
    decreases bs.len(),
{
    let b = bs[0];
    let w = pr_byte_elems(bs) + seq![']'] + rest;
    if bs.len() == 1 {
        let close = seq![']'] + rest;
        assert(w =~= dec_rep(b as nat) + close);
        assert(close[0] == ']');
        assert(!is_dec_digit(']'));
        lemma_u64_round_trip(b as u64, close);
        assert(sp_u64(w) == Some((b as u64, close)));
        assert(!is_ws(']'));
        lemma_sp_ws_len(close);
        assert(close.skip(1) =~= rest);
        assert(seq![b] =~= bs);
    } else {
        let tail_elems = pr_byte_elems(bs.skip(1));
        let comma_tail = seq![','] + tail_elems + seq![']'] + rest;
        assert(pr_byte_elems(bs) =~= dec_rep(b as nat) + seq![','] + tail_elems);
        assert(w =~= dec_rep(b as nat) + comma_tail);
        assert(comma_tail[0] == ',');
        assert(!is_dec_digit(','));
        lemma_u64_round_trip(b as u64, comma_tail);
        assert(!is_ws(','));
        lemma_sp_ws_len(comma_tail);
        let next = tail_elems + seq![']'] + rest;
        assert(comma_tail.skip(1) =~= next);
        assert(tail_elems.len() > 0 && is_dec_digit(tail_elems[0])) by {
            assert(bs.skip(1).len() >= 1);
            crate::text::lemma_dec_rep_digits(bs.skip(1)[0] as nat);
            assert(tail_elems[0] == dec_rep(bs.skip(1)[0] as nat)[0]);
        }
        assert(!is_ws(next[0]));
        lemma_sp_ws_len(next);
        lemma_byte_elems_round_trip(bs.skip(1), rest, (fuel - 1) as nat);
        assert(sp_byte_elems(w, fuel) == Some((seq![b] + bs.skip(1), rest)));
        assert(seq![b] + bs.skip(1) =~= bs);
    }
}

/// Parsing inverts printing for whole byte arrays, with any sufficient
/// fuel, whatever text follows.
pub proof fn lemma_bytes_round_trip(bs: Seq<u8>, rest: Seq<char>, fuel: nat)
    requires
        fuel >= bs.len(),
    ensures
        sp_bytes(pr_bytes(bs) + rest, fuel) == Some((bs, rest)),
{
    let w = pr_bytes(bs) + rest;
    assert(w =~= seq!['['] + (pr_byte_elems(bs) + seq![']'] + rest));
    assert(w[0] == '[');
    assert(w.skip(1) =~= pr_byte_elems(bs) + seq![']'] + rest);
    if bs.len() == 0 {
        assert(w.skip(1) =~= seq![']'] + rest);
        assert(w.skip(1)[0] == ']');
        assert(!is_ws(']'));
        lemma_sp_ws_len(w.skip(1));
        assert(w.skip(1).skip(1) =~= rest);
    } else {
        crate::text::lemma_dec_rep_digits(bs[0] as nat);
        assert(w.skip(1)[0] == pr_byte_elems(bs)[0]);
        assert(pr_byte_elems(bs)[0] == dec_rep(bs[0] as nat)[0]);
        assert(is_dec_digit(pr_byte_elems(bs)[0]));
        assert(!is_ws(pr_byte_elems(bs)[0]));
        lemma_sp_ws_len(w.skip(1));
        assert(w.skip(1)[0] != ']');
        lemma_byte_elems_round_trip(bs, rest, fuel);
    }
}

// ---------------------------------------------------------------------
// executable form
// ---------------------------------------------------------------------
/// The input from position `i` on.
pub open spec fn tail(s: Seq<char>, i: int) -> Seq<char> {
    s.subrange(i, s.len() as int)
}

/// One leaf value as executable data.
#[derive(Debug, Clone, PartialEq)]
pub enum JsonLeaf {
    Null,
    Bool(bool),
    Int(i64),
    Str(String),
}

impl JsonLeaf {
    /// The abstract value this leaf holds.
    pub open spec fn view_leaf(&self) -> LeafV {
        match self {
            JsonLeaf::Null => LeafV::Null,
            JsonLeaf::Bool(b) => LeafV::Bool(*b),
            JsonLeaf::Int(v) => LeafV::Int(*v),
            JsonLeaf::Str(s) => LeafV::Str(s@),
        }
    }
}

/// The abstract value of an executable entry list.
pub open spec fn entries_view(v: Seq<(String, JsonLeaf)>) -> Seq<(Seq<char>, LeafV)> {
    Seq::new(v.len(), |k: int| (v[k].0@, v[k].1.view_leaf()))
}

/// Appends the escaped form of the characters from `i` on.
pub fn xp_esc(v: &Vec<char>, i: usize, out: &mut Vec<char>)
    requires
        i <= v@.len(),
    ensures
        final(out)@ == old(out)@ + esc(v@.skip(i as int)),
    decreases v@.len() - i,
{
    if i == v.len() {
        assert(v@.skip(i as int) =~= Seq::<char>::empty());
        assert(final(out)@ =~= old(out)@ + esc(v@.skip(i as int)));
        return ;
    }
    let c = v[i];
    assert(v@.skip(i as int)[0] == c);
    if c == '"' || c == '\\' {
        out.push('\\');
        out.push(c);
    } else {
        out.push(c);
    }
    xp_esc(v, i + 1, out);
    proof {
        assert(v@.skip(i as int).skip(1) =~= v@.skip(i as int + 1));
        assert(esc(v@.skip(i as int)) == esc_char(c) + esc(v@.skip(i as int + 1)));
        assert(final(out)@ =~= old(out)@ + esc(v@.skip(i as int)));
    }
}

/// Appends a quoted, escaped string.
pub fn xp_string(v: &Vec<char>, out: &mut Vec<char>)
    ensures
        final(out)@ == old(out)@ + pr_string(v@),
{
    out.push('"');
    xp_esc(v, 0, out);
    out.push('"');
    proof {
        assert(v@.skip(0) =~= v@);
        assert(final(out)@ =~= old(out)@ + pr_string(v@));
    }
}

/// Appends the printed elements of the bytes from `i` on, bracket
/// excluded.
fn xp_byte_elems(bs: &Vec<u8>, i: usize, out: &mut Vec<char>)
    requires
        i <= bs@.len(),
    ensures
        final(out)@ == old(out)@ + pr_byte_elems(bs@.skip(i as int)),
    decreases bs@.len() - i,
{
    if i == bs.len() {
        assert(bs@.skip(i as int) =~= Seq::<u8>::empty());
        assert(final(out)@ =~= old(out)@ + pr_byte_elems(bs@.skip(i as int)));
        return ;
    }
    let b = bs[i];
    assert(bs@.skip(i as int)[0] == b);
    crate::text::push_decimal_u64(b as u64, out);
    if i + 1 == bs.len() {
        proof {
            assert(bs@.skip(i as int).len() == 1);
            assert(final(out)@ =~= old(out)@ + pr_byte_elems(bs@.skip(i as int)));
        }
    } else {
        out.push(',');
        xp_byte_elems(bs, i + 1, out);
        proof {
            assert(bs@.skip(i as int).skip(1) =~= bs@.skip(i as int + 1));
            assert(bs@.skip(i as int).len() > 1);
            assert(final(out)@ =~= old(out)@ + pr_byte_elems(bs@.skip(i as int)));
        }
    }
}

/// Appends a printed byte array, brackets included.
pub fn xp_bytes(bs: &Vec<u8>, out: &mut Vec<char>)
    ensures
        final(out)@ == old(out)@ + pr_bytes(bs@),
{
    out.push('[');
    xp_byte_elems(bs, 0, out);
    out.push(']');
    proof {
        assert(bs@.skip(0) =~= bs@);
        assert(final(out)@ =~= old(out)@ + pr_bytes(bs@));
    }
}

/// Appends one printed leaf value.
pub fn xp_leaf(l: &JsonLeaf, out: &mut Vec<char>)
    ensures
        final(out)@ == old(out)@ + pr_leaf(l.view_leaf()),
{
    match l {
        JsonLeaf::Null => {
            out.push('n');
            out.push('u');
            out.push('l');
            out.push('l');
            proof {
                reveal_strlit("null");
                assert(final(out)@ =~= old(out)@ + "null"@);
            }
        },
        JsonLeaf::Bool(b) => {
            if *b {
                out.push('t');
                out.push('r');
                out.push('u');
                out.push('e');
                proof {
                    reveal_strlit("true");
                    assert(final(out)@ =~= old(out)@ + "true"@);
                }
            } else {
                out.push('f');
                out.push('a');
                out.push('l');
                out.push('s');
                out.push('e');
                proof {
                    reveal_strlit("false");
                    assert(final(out)@ =~= old(out)@ + "false"@);
                }
            }
        },
        JsonLeaf::Int(v) => {
            xp_int(*v, out);
        },
        JsonLeaf::Str(text) => {
            let chars = crate::text::string_to_chars(text.as_str());
            xp_string(&chars, out);
        },
    }
}

/// Appends a printed signed integer.
pub fn xp_int(v: i64, out: &mut Vec<char>)
    ensures
        final(out)@ == old(out)@ + pr_int(v as int),
{
    if v < 0 {
        out.push('-');
        let mag: u64 = if v == i64::MIN {
            0x8000_0000_0000_0000u64
        } else {
            (-v) as u64
        };
        assert(mag as nat == (-(v as int)) as nat);
        crate::text::push_decimal_u64(mag, out);
        proof {
            assert(final(out)@ =~= old(out)@ + pr_int(v as int));
        }
    } else {
        crate::text::push_decimal_u64(v as u64, out);
    }
}

/// Appends printed object entries, closing brace excluded.
pub fn xp_entries(es: &Vec<(String, JsonLeaf)>, i: usize, out: &mut Vec<char>)
    requires
        i <= es@.len(),
    ensures
        final(out)@ == old(out)@ + pr_entries(entries_view(es@).skip(i as int)),
    decreases es@.len() - i,
{
    if i == es.len() {
        assert(entries_view(es@).skip(i as int) =~= Seq::<(Seq<char>, LeafV)>::empty());
        assert(final(out)@ =~= old(out)@ + pr_entries(entries_view(es@).skip(i as int)));
        return ;
    }
    let key_chars = crate::text::string_to_chars(es[i].0.as_str());
    xp_string(&key_chars, out);
    out.push(':');
    xp_leaf(&es[i].1, out);
    proof {
        assert(entries_view(es@).skip(i as int)[0] == (es@[i as int].0@,
            es@[i as int].1.view_leaf()));
    }
    if i + 1 == es.len() {
        proof {
            assert(entries_view(es@).skip(i as int).len() == 1);
            assert(final(out)@ =~= old(out)@ + pr_entries(entries_view(es@).skip(i as int)));
        }
    } else {
        out.push(',');
        xp_entries(es, i + 1, out);
        proof {
            assert(entries_view(es@).skip(i as int).skip(1) =~= entries_view(es@).skip(
                i as int + 1,
            ));
            assert(entries_view(es@).skip(i as int).len() > 1);
            assert(final(out)@ =~= old(out)@ + pr_entries(entries_view(es@).skip(i as int)));
        }
    }
}

/// Appends a printed object, braces included.
pub fn xp_obj(es: &Vec<(String, JsonLeaf)>, out: &mut Vec<char>)
    ensures
        final(out)@ == old(out)@ + pr_obj(entries_view(es@)),
{
    out.push('{');
    xp_entries(es, 0, out);
    out.push('}');
    proof {
        assert(entries_view(es@).skip(0) =~= entries_view(es@));
        assert(final(out)@ =~= old(out)@ + pr_obj(entries_view(es@)));
    }
}

/// The digit value of a character, tested in executable code.
pub fn x_digit(c: char) -> (r: Option<u8>)
    ensures
        r matches Some(d) ==> is_dec_digit(c) && d < 10 && digit_val(c) == d,
        r is None ==> !is_dec_digit(c),
{
    let code = c as u32;
    if 48 <= code && code <= 57 {
        proof {
            assert('0' <= c && c <= '9');
            assert(digit_val(c) == (code - 48) as nat);
        }
        Some((code - 48) as u8)
    } else {
        proof {
            assert(!('0' <= c && c <= '9'));
        }
        None
    }
}

/// Whether a character is whitespace, tested in executable code.
fn x_is_ws(c: char) -> (r: bool)
    ensures
        r == is_ws(c),
{
    c == ' ' || c == '\n' || c == '\t' || c == '\r'
}

/// Skips whitespace from position `i` on.
pub fn x_ws(s: &Vec<char>, i: usize) -> (j: usize)
    requires
        i <= s@.len(),
    ensures
        i <= j <= s@.len(),
        tail(s@, j as int) == sp_ws(tail(s@, i as int)),
    decreases s@.len() - i,
{
    if i < s.len() && x_is_ws(s[i]) {
        assert(tail(s@, i as int)[0] == s@[i as int]);
        let j = x_ws(s, i + 1);
        proof {
            assert(tail(s@, i as int).skip(1) =~= tail(s@, i as int + 1));
        }
        j
    } else {
        proof {
            if i < s.len() {
                assert(tail(s@, i as int)[0] == s@[i as int]);
            } else {
                assert(tail(s@, i as int).len() == 0);
            }
        }
        i
    }
}

/// Consumes the pattern at position `i`, if it is there.
pub fn x_lit(s: &Vec<char>, i: usize, pat: &Vec<char>) -> (r: Option<usize>)
    requires
        i <= s@.len(),
    ensures
        r matches Some(j) ==> j == i + pat@.len() && j <= s@.len() && starts_with(
            tail(s@, i as int),
            pat@,
        ),
        r is None ==> !starts_with(tail(s@, i as int), pat@),
{
    if pat.len() > s.len() - i {
        proof {
            assert(tail(s@, i as int).len() < pat@.len());
        }
        return None;
    }
    let n = s.len();
    let mut k: usize = 0;
    while k < pat.len()
        invariant
            k <= pat@.len(),
            n == s@.len(),
            i + pat@.len() <= n,
            forall|t: int| 0 <= t < k ==> s@[i + t] == pat@[t],
        decreases pat@.len() - k,
    {
        assert(i + k < n);
        if s[i + k] != pat[k] {
            proof {
                assert(tail(s@, i as int)[k as int] == s@[i + k]);
                if starts_with(tail(s@, i as int), pat@) {
                    assert(tail(s@, i as int).subrange(0, pat@.len() as int)[k as int]
                        == pat@[k as int]);
                }
            }
            return None;
        }
        k = k + 1;
    }
    proof {
        assert(tail(s@, i as int).subrange(0, pat@.len() as int) =~= pat@);
    }
    Some(i + pat.len())
}

/// Parses a quoted-string body from position `i` on, the position being
/// just past the opening quote.
fn x_string_body(s: &Vec<char>, i: usize) -> (r: Option<(Vec<char>, usize)>)
    requires
        i <= s@.len(),
    ensures
        r is None ==> sp_string_body(tail(s@, i as int)) is None,
        r matches Some(p) ==> i < p.1 <= s@.len() && sp_string_body(tail(s@, i as int)) == Some(
            (p.0@, tail(s@, p.1 as int)),
        ),
    decreases s@.len() - i,
{
    if i == s.len() {
        assert(tail(s@, i as int).len() == 0);
        return None;
    }
    let c = s[i];
    assert(tail(s@, i as int)[0] == c);
    if c == '"' {
        proof {
            assert(tail(s@, i as int).skip(1) =~= tail(s@, i as int + 1));
        }
        return Some((Vec::new(), i + 1));
    }
    if c == '\\' {
        if i + 1 == s.len() {
            assert(tail(s@, i as int).len() == 1);
            return None;
        }
        let e = s[i + 1];
        assert(tail(s@, i as int)[1] == e);
        let decoded: char;
        if e == '"' || e == '\\' {
            decoded = e;
        } else if e == 'n' {
            decoded = '\n';
        } else if e == 't' {
            decoded = '\t';
        } else if e == 'r' {
            decoded = '\r';
        } else if e == '/' {
            decoded = '/';
        } else {
            return None;
        }
        proof {
            assert(tail(s@, i as int).skip(2) =~= tail(s@, i as int + 2));
        }
        match x_string_body(s, i + 2) {
            None => None,
            Some((mut v, j)) => {
                v.insert(0, decoded);
                proof {
                    assert(v@ =~= seq![decoded] + v@.skip(1));
                }
                Some((v, j))
            },
        }
    } else {
        proof {
            assert(tail(s@, i as int).skip(1) =~= tail(s@, i as int + 1));
        }
        match x_string_body(s, i + 1) {
            None => None,
            Some((mut v, j)) => {
                v.insert(0, c);
                proof {
                    assert(v@ =~= seq![c] + v@.skip(1));
                }
                Some((v, j))
            },
        }
    }
}

/// Parses a quoted string at position `i`, opening quote included.
pub fn x_string(s: &Vec<char>, i: usize) -> (r: Option<(Vec<char>, usize)>)
    requires
        i <= s@.len(),
    ensures
        r is None ==> sp_string(tail(s@, i as int)) is None,
        r matches Some(p) ==> i < p.1 <= s@.len() && sp_string(tail(s@, i as int)) == Some(
            (p.0@, tail(s@, p.1 as int)),
        ),
{
    if i == s.len() {
        assert(tail(s@, i as int).len() == 0);
        return None;
    }
    let c = s[i];
    assert(tail(s@, i as int)[0] == c);
    if c != '"' {
        return None;
    }
    proof {
        assert(tail(s@, i as int).skip(1) =~= tail(s@, i as int + 1));
    }
    x_string_body(s, i + 1)
}

/// Digits never shrink below the accumulator.
proof fn lemma_sp_digits_lower(s: Seq<char>, acc: nat)
    ensures
        sp_digits(s, acc).0 >= acc,
    decreases s.len(),
{
    if s.len() > 0 && is_dec_digit(s[0]) {
        lemma_sp_digits_lower(s.skip(1), acc * 10 + digit_val(s[0]));
    }
}

/// Scans digits from position `i`, accumulating; reports overflow of a
/// sixty-four-bit value as failure.
fn x_digits(s: &Vec<char>, i: usize, acc: u64) -> (r: Option<(u64, usize)>)
    requires
        i <= s@.len(),
    ensures
        r matches Some(p) ==> i <= p.1 <= s@.len() && sp_digits(tail(s@, i as int), acc as nat)
            == ((p.0 as nat, tail(s@, p.1 as int))),
        r is None ==> sp_digits(tail(s@, i as int), acc as nat).0 > u64::MAX,
    decreases s@.len() - i,
{
    if i == s.len() {
        assert(tail(s@, i as int).len() == 0);
        return Some((acc, i));
    }
    let c = s[i];
    assert(tail(s@, i as int)[0] == c);
    match x_digit(c) {
        None => Some((acc, i)),
        Some(d) => {
            proof {
                assert(tail(s@, i as int).skip(1) =~= tail(s@, i as int + 1));
            }
            if acc <= (u64::MAX - (d as u64)) / 10 {
                proof {
                    assert(acc * 10 + d <= u64::MAX) by (nonlinear_arith)
                        requires
                            acc <= (u64::MAX - (d as u64)) / 10,
                            d < 10,
                    ;
                }
                x_digits(s, i + 1, acc * 10 + (d as u64))
            } else {
                proof {
                    assert(acc * 10 + d > u64::MAX) by (nonlinear_arith)
                        requires
                            acc > (u64::MAX - (d as u64)) / 10,
                            d < 10,
                    ;
                    lemma_sp_digits_lower(tail(s@, i as int + 1), (acc * 10 + d) as nat);
                }
                None
            }
        },
    }
}

/// Parses an unsigned sixty-four-bit number at position `i`.
pub fn x_u64(s: &Vec<char>, i: usize) -> (r: Option<(u64, usize)>)
    requires
        i <= s@.len(),
    ensures
        r is None ==> sp_u64(tail(s@, i as int)) is None,
        r matches Some(p) ==> i < p.1 <= s@.len() && sp_u64(tail(s@, i as int)) == Some(
            (p.0, tail(s@, p.1 as int)),
        ),
{
    if i == s.len() {
        assert(tail(s@, i as int).len() == 0);
        return None;
    }
    let c = s[i];
    assert(tail(s@, i as int)[0] == c);
    match x_digit(c) {
        None => None,
        Some(_) => {
            let r = x_digits(s, i, 0);
            proof {
                lemma_sp_digits_len(tail(s@, i as int), 0);
            }
            r
        },
    }
}

/// Parses a signed sixty-four-bit integer at position `i`.
pub fn x_int(s: &Vec<char>, i: usize) -> (r: Option<(i64, usize)>)
    requires
        i <= s@.len(),
    ensures
        r is None ==> sp_i64(tail(s@, i as int)) is None,
        r matches Some(p) ==> i < p.1 <= s@.len() && sp_i64(tail(s@, i as int)) == Some(
            (p.0, tail(s@, p.1 as int)),
        ),
{
    if i == s.len() {
        assert(tail(s@, i as int).len() == 0);
        return None;
    }
    let c = s[i];
    assert(tail(s@, i as int)[0] == c);
    if c == '-' {
        proof {
            assert(tail(s@, i as int).skip(1) =~= tail(s@, i as int + 1));
        }
        if i + 1 == s.len() {
            assert(tail(s@, i as int + 1).len() == 0);
            return None;
        }
        let d0 = s[i + 1];
        assert(tail(s@, i as int + 1)[0] == d0);
        match x_digit(d0) {
            None => None,
            Some(_) => {
                match x_digits(s, i + 1, 0) {
                    None => {
                        proof {
                            assert(sp_digits(tail(s@, i as int + 1), 0).0 > u64::MAX);
                        }
                        None
                    },
                    Some((mag, j)) => {
                        if mag > 0x8000_0000_0000_0000u64 {
                            None
                        } else {
                            let v: i64 = if mag == 0x8000_0000_0000_0000u64 {
                                i64::MIN
                            } else {
                                -(mag as i64)
                            };
                            assert(v as int == -(mag as int));
                            proof {
                                lemma_sp_digits_len(tail(s@, i as int + 1), 0);
                            }
                            Some((v, j))
                        }
                    },
                }
            },
        }
    } else {
        match x_u64(s, i) {
            None => None,
            Some((v, j)) => {
                if v <= i64::MAX as u64 {
                    Some((v as i64, j))
                } else {
                    None
                }
            },
        }
    }
}

/// Parses one leaf value at position `i`.
pub fn x_leaf(s: &Vec<char>, i: usize) -> (r: Option<(JsonLeaf, usize)>)
    requires
        i <= s@.len(),
    ensures
        r is None ==> sp_leaf(tail(s@, i as int)) is None,
        r matches Some(p) ==> i < p.1 <= s@.len() && sp_leaf(tail(s@, i as int)) == Some(
            (p.0.view_leaf(), tail(s@, p.1 as int)),
        ),
{
    if i == s.len() {
        assert(tail(s@, i as int).len() == 0);
        return None;
    }
    let c = s[i];
    assert(tail(s@, i as int)[0] == c);
    if c == '"' {
        match x_string(s, i) {
            None => None,
            Some((v, j)) => {
                let text = crate::text::chars_to_string(&v);
                Some((JsonLeaf::Str(text), j))
            },
        }
    } else if c == 'n' {
        let pat = lit_chars_null();
        match x_lit(s, i, &pat) {
            None => None,
            Some(j) => {
                proof {
                    reveal_strlit("null");
                    assert(tail(s@, i as int).skip("null"@.len() as int) =~= tail(s@, j as int));
                }
                Some((JsonLeaf::Null, j))
            },
        }
    } else if c == 't' {
        let pat = lit_chars_true();
        match x_lit(s, i, &pat) {
            None => None,
            Some(j) => {
                proof {
                    reveal_strlit("true");
                    assert(tail(s@, i as int).skip("true"@.len() as int) =~= tail(s@, j as int));
                }
                Some((JsonLeaf::Bool(true), j))
            },
        }
    } else if c == 'f' {
        let pat = lit_chars_false();
        match x_lit(s, i, &pat) {
            None => None,
            Some(j) => {
                proof {
                    reveal_strlit("false");
                    assert(tail(s@, i as int).skip("false"@.len() as int) =~= tail(s@, j as int));
                }
                Some((JsonLeaf::Bool(false), j))
            },
        }
    } else {
        let is_digit = x_digit(c);
        if c == '-' || is_digit.is_some() {
            match x_int(s, i) {
                None => None,
                Some((v, j)) => Some((JsonLeaf::Int(v), j)),
            }
        } else {
            None
        }
    }
}

/// The characters of the null literal.
fn lit_chars_null() -> (r: Vec<char>)
    ensures
        r@ == "null"@,
{
    proof {
        reveal_strlit("null");
    }
    let mut r: Vec<char> = Vec::new();
    r.push('n');
    r.push('u');
    r.push('l');
    r.push('l');
    proof {
        assert(r@ =~= "null"@);
    }
    r
}

/// The characters of the true literal.
fn lit_chars_true() -> (r: Vec<char>)
    ensures
        r@ == "true"@,
{
    proof {
        reveal_strlit("true");
    }
    let mut r: Vec<char> = Vec::new();
    r.push('t');
    r.push('r');
    r.push('u');
    r.push('e');
    proof {
        assert(r@ =~= "true"@);
    }
    r
}

/// The characters of the false literal.
fn lit_chars_false() -> (r: Vec<char>)
    ensures
        r@ == "false"@,
{
    proof {
        reveal_strlit("false");
    }
    let mut r: Vec<char> = Vec::new();
    r.push('f');
    r.push('a');
    r.push('l');
    r.push('s');
    r.push('e');
    proof {
        assert(r@ =~= "false"@);
    }
    r
}

/// Parses object entries from the first key at position `i` on, up to
/// and including the closing brace, matching the specification at the
/// remaining input's length as fuel.
pub fn x_entries(s: &Vec<char>, i: usize) -> (r: Option<(Vec<(String, JsonLeaf)>, usize)>)
    requires
        i <= s@.len(),
    ensures
        r is None ==> sp_entries(tail(s@, i as int), tail(s@, i as int).len()) is None,
        r matches Some(p) ==> i < p.1 <= s@.len() && sp_entries(
            tail(s@, i as int),
            tail(s@, i as int).len(),
        ) == Some((entries_view(p.0@), tail(s@, p.1 as int))),
    decreases s@.len() - i,
{
    let ghost t0 = tail(s@, i as int);
    let ghost fuel = t0.len();
    match x_string(s, i) {
        None => {
            proof {
                if fuel != 0 {
                    assert(sp_entries(t0, fuel) is None);
                }
            }
            None
        },
        Some((key_chars, j1)) => {
            proof {
                assert(fuel > 0) by {
                    lemma_sp_string_len(t0);
                }
            }
            let j2 = x_ws(s, j1);
            if j2 == s.len() {
                proof {
                    assert(tail(s@, j2 as int).len() == 0);
                }
                return None;
            }
            let colon = s[j2];
            assert(tail(s@, j2 as int)[0] == colon);
            if colon != ':' {
                return None;
            }
            proof {
                assert(tail(s@, j2 as int).skip(1) =~= tail(s@, j2 as int + 1));
            }
            let j3 = x_ws(s, j2 + 1);
            match x_leaf(s, j3) {
                None => None,
                Some((leaf, j4)) => {
                    let j5 = x_ws(s, j4);
                    if j5 == s.len() {
                        proof {
                            assert(tail(s@, j5 as int).len() == 0);
                        }
                        return None;
                    }
                    let sep = s[j5];
                    assert(tail(s@, j5 as int)[0] == sep);
                    if sep == ',' {
                        proof {
                            assert(tail(s@, j5 as int).skip(1) =~= tail(s@, j5 as int + 1));
                        }
                        let j6 = x_ws(s, j5 + 1);
                        proof {
                            assert(j6 > i);
                            assert(tail(s@, j6 as int).len() < fuel);
                            lemma_sp_entries_fuel(tail(s@, j6 as int), (fuel - 1) as nat, tail(
                                s@, j6 as int).len());
                        }
                        match x_entries(s, j6) {
                            None => None,
                            Some((mut es, j7)) => {
                                let key = crate::text::chars_to_string(&key_chars);
                                es.insert(0, (key, leaf));
                                proof {
                                    assert(entries_view(es@) =~= seq![
                                        (key_chars@, leaf.view_leaf()),
                                    ] + entries_view(es@.skip(1)));
                                }
                                Some((es, j7))
                            },
                        }
                    } else if sep == '}' {
                        let key = crate::text::chars_to_string(&key_chars);
                        let mut es: Vec<(String, JsonLeaf)> = Vec::new();
                        es.push((key, leaf));
                        proof {
                            assert(tail(s@, j5 as int).skip(1) =~= tail(s@, j5 as int + 1));
                            assert(entries_view(es@) =~= seq![(key_chars@, leaf.view_leaf())]);
                        }
                        Some((es, j5 + 1))
                    } else {
                        None
                    }
                },
            }
        },
    }
}

/// Parses a whole object at position `i`, braces included.
pub fn x_obj(s: &Vec<char>, i: usize) -> (r: Option<(Vec<(String, JsonLeaf)>, usize)>)
    requires
        i <= s@.len(),
    ensures
        r is None ==> sp_obj(tail(s@, i as int), tail(s@, i as int).len()) is None,
        r matches Some(p) ==> i < p.1 <= s@.len() && sp_obj(
            tail(s@, i as int),
            tail(s@, i as int).len(),
        ) == Some((entries_view(p.0@), tail(s@, p.1 as int))),
{
    let ghost t0 = tail(s@, i as int);
    let ghost fuel = t0.len();
    if i == s.len() {
        assert(t0.len() == 0);
        return None;
    }
    let c = s[i];
    assert(t0[0] == c);
    if c != '{' {
        return None;
    }
    proof {
        assert(t0.skip(1) =~= tail(s@, i as int + 1));
    }
    let j1 = x_ws(s, i + 1);
    if j1 < s.len() {
        let c1 = s[j1];
        assert(tail(s@, j1 as int)[0] == c1);
        if c1 == '}' {
            proof {
                assert(tail(s@, j1 as int).skip(1) =~= tail(s@, j1 as int + 1));
            }
            return Some((Vec::new(), j1 + 1));
        }
    } else {
        assert(tail(s@, j1 as int).len() == 0);
        return None;
    }
    proof {
        assert(tail(s@, j1 as int).len() <= fuel);
        lemma_sp_entries_fuel(tail(s@, j1 as int), fuel, tail(s@, j1 as int).len());
    }
    x_entries(s, j1)
}

/// Parses byte elements from the first digit at position `i` on, up to
/// and including the closing bracket.
fn x_byte_elems(s: &Vec<char>, i: usize) -> (r: Option<(Vec<u8>, usize)>)
    requires
        i <= s@.len(),
    ensures
        r is None ==> sp_byte_elems(tail(s@, i as int), tail(s@, i as int).len()) is None,
        r matches Some(p) ==> i < p.1 <= s@.len() && sp_byte_elems(
            tail(s@, i as int),
            tail(s@, i as int).len(),
        ) == Some((p.0@, tail(s@, p.1 as int))),
    decreases s@.len() - i,
{
    let ghost t0 = tail(s@, i as int);
    let ghost fuel = t0.len();
    match x_u64(s, i) {
        None => {
            proof {
                if fuel != 0 {
                    assert(sp_byte_elems(t0, fuel) is None);
                }
            }
            None
        },
        Some((v, j1)) => {
            proof {
                assert(fuel > 0);
            }
            if v > 255 {
                return None;
            }
            let b = v as u8;
            let j2 = x_ws(s, j1);
            if j2 == s.len() {
                proof {
                    assert(tail(s@, j2 as int).len() == 0);
                }
                return None;
            }
            let sep = s[j2];
            assert(tail(s@, j2 as int)[0] == sep);
            if sep == ',' {
                proof {
                    assert(tail(s@, j2 as int).skip(1) =~= tail(s@, j2 as int + 1));
                }
                let j3 = x_ws(s, j2 + 1);
                proof {
                    assert(j3 > i);
                    assert(tail(s@, j3 as int).len() < fuel);
                    lemma_sp_byte_elems_fuel(tail(s@, j3 as int), (fuel - 1) as nat, tail(
                        s@, j3 as int).len());
                }
                match x_byte_elems(s, j3) {
                    None => None,
                    Some((mut bs, j4)) => {
                        bs.insert(0, b);
                        proof {
                            assert(bs@ =~= seq![b] + bs@.skip(1));
                        }
                        Some((bs, j4))
                    },
                }
            } else if sep == ']' {
                let mut bs: Vec<u8> = Vec::new();
                bs.push(b);
                proof {
                    assert(tail(s@, j2 as int).skip(1) =~= tail(s@, j2 as int + 1));
                    assert(bs@ =~= seq![b]);
                }
                Some((bs, j2 + 1))
            } else {
                None
            }
        },
    }
}

/// Parses a whole byte array at position `i`, brackets included.
pub fn x_bytes(s: &Vec<char>, i: usize) -> (r: Option<(Vec<u8>, usize)>)
    requires
        i <= s@.len(),
    ensures
        r is None ==> sp_bytes(tail(s@, i as int), tail(s@, i as int).len()) is None,
        r matches Some(p) ==> i < p.1 <= s@.len() && sp_bytes(
            tail(s@, i as int),
            tail(s@, i as int).len(),
        ) == Some((p.0@, tail(s@, p.1 as int))),
{
    let ghost t0 = tail(s@, i as int);
    let ghost fuel = t0.len();
    if i == s.len() {
        assert(t0.len() == 0);
        return None;
    }
    let c = s[i];
    assert(t0[0] == c);
    if c != '[' {
        return None;
    }
    proof {
        assert(t0.skip(1) =~= tail(s@, i as int + 1));
    }
    let j1 = x_ws(s, i + 1);
    if j1 < s.len() {
        let c1 = s[j1];
        assert(tail(s@, j1 as int)[0] == c1);
        if c1 == ']' {
            proof {
                assert(tail(s@, j1 as int).skip(1) =~= tail(s@, j1 as int + 1));
            }
            return Some((Vec::new(), j1 + 1));
        }
    } else {
        assert(tail(s@, j1 as int).len() == 0);
        return None;
    }
    proof {
        assert(tail(s@, j1 as int).len() <= fuel);
        lemma_sp_byte_elems_fuel(tail(s@, j1 as int), fuel, tail(s@, j1 as int).len());
    }
    x_byte_elems(s, j1)
}

impl JsonLeaf {
    /// A copy holding the same abstract value.
    pub fn clone_leaf(&self) -> (r: JsonLeaf)
        ensures
            r.view_leaf() == self.view_leaf(),
    {
        match self {
            JsonLeaf::Null => JsonLeaf::Null,
            JsonLeaf::Bool(b) => JsonLeaf::Bool(*b),
            JsonLeaf::Int(v) => JsonLeaf::Int(*v),
            JsonLeaf::Str(s) => JsonLeaf::Str(s.clone()),
        }
    }
}

/// A copy of an entry list holding the same abstract value.
pub fn clone_entries(v: &Vec<(String, JsonLeaf)>) -> (r: Vec<(String, JsonLeaf)>)
    ensures
        entries_view(r@) == entries_view(v@),
{
    let mut r: Vec<(String, JsonLeaf)> = Vec::new();
    let mut i: usize = 0;
    while i < v.len()
        invariant
            i <= v@.len(),
            r@.len() == i,
            forall|k: int|
                0 <= k < i ==> (#[trigger] r@[k]).0@ == v@[k].0@ && r@[k].1.view_leaf()
                    == v@[k].1.view_leaf(),
        decreases v@.len() - i,
    {
        let key = v[i].0.clone();
        let leaf = v[i].1.clone_leaf();
        r.push((key, leaf));
        i = i + 1;
    }
    proof {
        assert(entries_view(r@) =~= entries_view(v@));
    }
    r
}

} // verus!
