//! Round-trip laws: what the serializer writes, the decoder's grammar reads
//! back unchanged.
//!
//! The laws here relate the two directions of the wire format field by
//! field: an escaped string parses back to the original bytes, and a
//! rendered integer parses back to the original value, wherever they stand
//! inside a larger text.

use vstd::prelude::*;
use crate::ip::dec_of;
use crate::ip::hex_digit;
use crate::jsonin::dec_val_of;
use crate::jsonin::digits_to;
use crate::jsonin::hex_val;
use crate::jsonin::is_digit;
use crate::jsonin::body_acc0;
use crate::jsonin::body_at;
use crate::jsonin::body_finish;
use crate::jsonin::body_member;
use crate::jsonin::body_members;
use crate::jsonin::BodyAcc;
use crate::jsonin::prefix_str;
use crate::jsonin::report_acc0;
use crate::jsonin::report_finish;
use crate::jsonin::report_member;
use crate::jsonin::report_members;
use crate::jsonin::ReportAcc;
use crate::jsonin::i64_at;
use crate::jsonin::jstring;
use crate::jsonin::report_at;
use crate::jsonin::u64_at;
use crate::jsonin::num_frac_end;
use crate::jsonin::num_int_end;
use crate::jsonin::num_exp_end;
use crate::jsonin::num_token_at;
use crate::jsonin::str_body;
use crate::jsonin::tok;
use crate::jsonin::ws_to;
use crate::jsonin::is_ws;
use crate::jsonin::uint_core;
use crate::jsonin::with_byte;
use crate::jsonout::esc_byte;
use crate::jsonout::json_escape;
use crate::jsonout::body_json;
use crate::jsonout::int_token;
use crate::jsonout::jstr;
use crate::jsonout::lit;
use crate::jsonout::report_json;
use crate::model::ReportBodyView;
use crate::model::ReportView;

verus! {

/// Reading a hexadecimal digit undoes writing one.
pub proof fn lemma_hex_val_of_hex_digit(n: nat)
    requires
        n < 16,
    ensures
        hex_val(hex_digit(n)) == Some(n as u8),
{
}

/// A `\u00..` escape of one control byte reads back as that byte.
#[verifier::rlimit(100)]
proof fn lemma_str_body_u_control(s: Seq<u8>, i: int, c: u8)
    requires
        0 <= i,
        i + 6 <= s.len(),
        c < 32,
        s[i] == 92,
        s[i + 1] == 117,
        s[i + 2] == 48,
        s[i + 3] == 48,
        s[i + 4] == hex_digit((c >> 4) as nat),
        s[i + 5] == hex_digit((c & 0x0f) as nat),
    ensures
        str_body(s, i) == crate::jsonin::prefix_str(seq![c], str_body(s, i + 6)),
{
    let hb = c >> 4;
    let lb = c & 0x0f;
    assert(hb < 16 && lb < 16 && hb * 16 + lb == c && c < 128) by (bit_vector)
        requires
            hb == c >> 4,
            lb == c & 0x0f,
            c < 32,
    ;
    lemma_hex_val_of_hex_digit(hb as nat);
    lemma_hex_val_of_hex_digit(lb as nat);
    assert(crate::jsonin::utf8_of(c as int) =~= seq![c]);
}

/// A string's escape parses back to the string: wherever the escape of
/// `content` is followed by a closing quote, the string-body grammar reads
/// exactly the original `content` and stops just past that quote. With the
/// serializer's exactness this is the string half of the serialization
/// round trip, for every byte string.
#[verifier::rlimit(100)]
pub proof fn lemma_escape_roundtrip(s: Seq<u8>, i: int, content: Seq<u8>)
    requires
        0 <= i,
        i + json_escape(content).len() + 1 <= s.len(),
        s.subrange(i, i + json_escape(content).len()) == json_escape(content),
        s[i + json_escape(content).len()] == 34,
    ensures
        str_body(s, i) == Some((content, i + json_escape(content).len() + 1)),
    decreases content.len(),
{
    let esc = json_escape(content);
    let ll = esc.len() as int;
    assert(forall|k: int| 0 <= k < ll ==> s[i + k] == #[trigger] esc[k]) by {
        assert(forall|k: int|
            0 <= k < ll ==> s.subrange(i, i + ll)[k] == #[trigger] esc[k]);
    }
    if content.len() == 0 {
        assert(content =~= Seq::<u8>::empty());
        assert(s[i] == 34);
    } else {
        let c = content[0];
        let rest = content.drop_first();
        let eb = esc_byte(c);
        let el = eb.len() as int;
        let erest = json_escape(rest);
        assert(esc == eb + erest);
        assert forall|k: int| 0 <= k < el implies s[i + k] == eb[k] by {
            assert(esc[k] == eb[k]);
            assert(s[i + k] == esc[k]);
        }
        assert forall|k: int| 0 <= k < erest.len() implies s[i + el + k] == erest[k] by {
            assert(esc[el + k] == erest[k]);
            assert(s[i + el + k] == esc[el + k]);
        }
        assert(s.subrange(i + el, i + ll) =~= erest);
        assert(s[i + el + erest.len()] == 34);
        lemma_escape_roundtrip(s, i + el, rest);
        assert(str_body(s, i + el) == Some((rest, i + ll + 1)));
        if c == 34 || c == 92 || c == 8 || c == 12 || c == 10 || c == 13 || c == 9 {
            // A two-byte short escape: a backslash and the escape letter.
            assert(s[i] == 92 && el == 2);
            assert(str_body(s, i) == with_byte(c, str_body(s, i + 2)));
            assert(seq![c] + rest =~= content);
        } else if c < 32 {
            // A six-byte `\u00..` escape holding the two hex digits of `c`.
            assert(s[i] == 92 && s[i + 1] == 117 && s[i + 2] == 48 && s[i + 3] == 48);
            assert(s[i + 4] == hex_digit((c >> 4) as nat) && s[i + 5] == hex_digit(
                (c & 0x0f) as nat,
            ));
            lemma_str_body_u_control(s, i, c);
            assert(seq![c] + rest =~= content);
        } else {
            // An unescaped byte stands for itself.
            assert(eb =~= seq![c]);
            assert(s[i] == eb[0]);
            assert(c != 34 && c != 92 && c >= 32);
            assert(str_body(s, i) == with_byte(c, str_body(s, i + 1)));
            assert(seq![c] + rest =~= content);
        }
    }
}

/// Every byte a decimal rendering writes is a digit, and only zero starts
/// with a zero digit.
pub proof fn lemma_dec_of_digits(n: nat)
    ensures
        dec_of(n).len() >= 1,
        forall|k: int| 0 <= k < dec_of(n).len() ==> is_digit(#[trigger] dec_of(n)[k]),
        dec_of(n)[0] == 48 ==> n == 0,
        n == 0 ==> dec_of(n) =~= seq![48u8],
    decreases n,
{
    if n >= 10 {
        lemma_dec_of_digits(n / 10);
        assert(dec_of(n) == dec_of(n / 10).push((48 + n % 10) as u8));
        assert(dec_of(n)[0] == dec_of(n / 10)[0]);
    }
}

/// Reading a decimal rendering gives back the value.
pub proof fn lemma_dec_val_of_dec_of(n: nat)
    ensures
        dec_val_of(dec_of(n)) == n,
    decreases n,
{
    reveal_with_fuel(dec_val_of, 3);
    if n < 10 {
        assert(dec_of(n) == seq![(48 + n) as u8]);
        assert(dec_of(n).drop_last() =~= Seq::<u8>::empty());
        assert(dec_of(n).last() == (48 + n) as u8);
        assert(dec_val_of(dec_of(n)) == dec_val_of(Seq::<u8>::empty()) * 10 + n);
    } else {
        lemma_dec_val_of_dec_of(n / 10);
        assert(dec_of(n) == dec_of(n / 10).push((48 + n % 10) as u8));
        assert(dec_of(n).drop_last() =~= dec_of(n / 10));
        assert(dec_of(n).last() == (48 + n % 10) as u8);
        assert(dec_val_of(dec_of(n)) == (n / 10) * 10 + n % 10);
    }
}

/// The digit scan stops exactly at the first non-digit.
pub proof fn lemma_digits_to_exact(s: Seq<u8>, i: int, e: int)
    requires
        0 <= i <= e <= s.len(),
        forall|k: int| i <= k < e ==> is_digit(#[trigger] s[k]),
        e == s.len() || !is_digit(s[e]),
    ensures
        digits_to(s, i) == e,
    decreases e - i,
{
    if i < e {
        lemma_digits_to_exact(s, i + 1, e);
    }
}

/// An integer's decimal rendering parses back to the integer: wherever
/// `dec_of(n)` is followed by something that extends neither an integer
/// nor a fraction nor an exponent, the unsigned-integer grammar reads
/// exactly `n` and stops just past the digits. This is the integer half of
/// the serialization round trip.
pub proof fn lemma_uint_roundtrip(s: Seq<u8>, i: int, n: nat)
    requires
        0 <= i,
        i + dec_of(n).len() <= s.len(),
        s.subrange(i, i + dec_of(n).len()) == dec_of(n),
        i + dec_of(n).len() == s.len() || {
            let b = s[i + dec_of(n).len()];
            !is_digit(b) && b != 46 && b != 101 && b != 69
        },
    ensures
        uint_core(s, i) == Some((n as int, i + dec_of(n).len())),
{
    let d = dec_of(n);
    let ll = d.len() as int;
    lemma_dec_of_digits(n);
    assert(forall|k: int| 0 <= k < ll ==> s[i + k] == #[trigger] d[k]) by {
        assert(forall|k: int| 0 <= k < ll ==> s.subrange(i, i + ll)[k] == #[trigger] d[k]);
    }
    assert forall|k: int| i <= k < i + ll implies is_digit(s[k]) by {
        assert(s[k] == d[k - i]);
        assert(is_digit(d[k - i]));
    }
    lemma_digits_to_exact(s, i, i + ll);
    if s[i] == 48 {
        assert(d[0] == 48);
        assert(n == 0 && ll == 1);
    }
    assert(s.subrange(i, i + ll) == d);
    lemma_dec_val_of_dec_of(n);
}

/// A window of a larger text splits as its content does.
pub proof fn lemma_window_split(s: Seq<u8>, i: int, a: Seq<u8>, b: Seq<u8>)
    requires
        0 <= i,
        i + a.len() + b.len() <= s.len(),
        s.subrange(i, i + a.len() + b.len()) == a + b,
    ensures
        s.subrange(i, i + a.len()) == a,
        s.subrange(i + a.len(), i + a.len() + b.len()) == b,
{
    assert forall|k: int| 0 <= k < a.len() + b.len() implies s[i + k] == (a + b)[k] by {
        assert(s.subrange(i, i + a.len() + b.len())[k] == (a + b)[k]);
    }
    assert(s.subrange(i, i + a.len()) =~= a);
    assert forall|k: int|
        0 <= k < b.len() implies s.subrange(i + a.len(), i + a.len() + b.len())[k] == b[k] by {
        assert(s[i + a.len() + k] == (a + b)[a.len() + k]);
        assert((a + b)[a.len() + k] == b[k]);
    }
    assert(s.subrange(i + a.len(), i + a.len() + b.len()) =~= b);
}

/// Escaping text that needs no escapes leaves it as it is.
pub proof fn lemma_escape_plain(t: Seq<u8>)
    requires
        forall|k: int| 0 <= k < t.len() ==> 32 <= #[trigger] t[k] && t[k] != 34 && t[k] != 92,
    ensures
        json_escape(t) == t,
    decreases t.len(),
{
    if t.len() > 0 {
        lemma_escape_plain(t.drop_first());
        assert(esc_byte(t[0]) =~= seq![t[0]]);
        assert(seq![t[0]] + t.drop_first() =~= t);
    }
}

/// A string token parses back to its content: wherever the token for
/// `content` stands, the string grammar reads exactly `content` and stops
/// just past the token.
pub proof fn lemma_jstr_roundtrip(s: Seq<u8>, i: int, content: Seq<u8>)
    requires
        0 <= i,
        i + jstr(content).len() <= s.len(),
        s.subrange(i, i + jstr(content).len()) == jstr(content),
    ensures
        jstring(s, i) == Some((content, i + jstr(content).len())),
{
    let esc = json_escape(content);
    let ll = esc.len() as int;
    assert(jstr(content) == (seq![34u8] + esc) + seq![34u8]);
    lemma_window_split(s, i, seq![34u8] + esc, seq![34u8]);
    lemma_window_split(s, i, seq![34u8], esc);
    assert(s[i] == s.subrange(i, i + 1)[0]);
    assert(s[i + 1 + ll] == s.subrange(i + 1 + ll, i + 2 + ll)[0]);
    assert(!is_ws(34u8));
    assert(ws_to(s, i) == i);
    lemma_escape_roundtrip(s, i + 1, content);
}

/// A field key parses back: a quote, the key's plain-text name, a quote
/// and a colon, read as exactly that key and its separating colon.
pub proof fn lemma_key_roundtrip(s: Seq<u8>, i: int, name: Seq<char>)
    requires
        0 <= i,
        i + lit(name).len() + 3 <= s.len(),
        forall|k: int|
            0 <= k < lit(name).len() ==> 32 <= #[trigger] lit(name)[k] && lit(name)[k] != 34
                && lit(name)[k] != 92,
        s[i] == 34,
        s.subrange(i + 1, i + 1 + lit(name).len()) == lit(name),
        s[i + 1 + lit(name).len()] == 34,
        s[i + 2 + lit(name).len()] == 58,
    ensures
        jstring(s, i) == Some((lit(name), i + lit(name).len() + 2)),
        tok(s, i + lit(name).len() + 2, 58) == Some(i + lit(name).len() + 3),
{
    let nm = lit(name);
    let ll = nm.len() as int;
    lemma_escape_plain(nm);
    assert(ws_to(s, i) == i);
    lemma_escape_roundtrip(s, i + 1, nm);
    assert(str_body(s, i + 1) == Some((nm, i + ll + 2)));
    assert(jstring(s, i) == Some((nm, i + ll + 2)));
    assert(!is_ws(58u8));
    assert(ws_to(s, i + ll + 2) == i + ll + 2);
    assert(tok(s, i + ll + 2, 58) == Some(i + ll + 3));
}

/// The digit scan inside a window follows the window's own scan.
pub proof fn lemma_digits_to_window(s: Seq<u8>, i: int, t: Seq<u8>, a: int)
    requires
        0 <= i,
        0 <= a <= t.len(),
        i + t.len() < s.len(),
        s.subrange(i, i + t.len()) == t,
        !is_digit(s[i + t.len()]),
    ensures
        digits_to(s, i + a) == i + crate::jsonin::digits_to(t, a),
{
    crate::jsonin::lemma_digits_to(t, a);
    let e = crate::jsonin::digits_to(t, a);
    assert forall|k: int| 0 <= k < t.len() implies s[i + k] == t[k] by {
        assert(s.subrange(i, i + t.len())[k] == t[k]);
    }
    assert forall|k: int| i + a <= k < i + e implies is_digit(s[k]) by {
        assert(s[k] == t[k - i]);
    }
    if e < t.len() {
        assert(!is_digit(t[e]));
        assert(s[i + e] == t[e]);
    }
    lemma_digits_to_exact(s, i + a, i + e);
}

/// A byte sequence that stands alone as one whole JSON number token.
pub open spec fn is_number_token(t: Seq<u8>) -> bool {
    num_token_at(t, 0) == Some((t, t.len() as int))
}

/// A number token parses back: wherever a whole token stands with a comma
/// after it, the number grammar reads exactly that token.
pub proof fn lemma_num_token_roundtrip(s: Seq<u8>, i: int, t: Seq<u8>)
    requires
        0 <= i,
        is_number_token(t),
        i + t.len() < s.len(),
        s.subrange(i, i + t.len()) == t,
        s[i + t.len()] == 44,
    ensures
        num_token_at(s, i) == Some((t, i + t.len())),
{
    let tl = t.len() as int;
    assert forall|k: int| 0 <= k < tl implies s[i + k] == t[k] by {
        assert(s.subrange(i, i + tl)[k] == t[k]);
    }
    crate::jsonin::lemma_ws_to(t, 0);
    let j0 = ws_to(t, 0);
    let k0 = if j0 < tl && t[j0] == 45 {
        j0 + 1
    } else {
        j0
    };
    assert(num_int_end(t, k0) is Some);
    let a0 = num_int_end(t, k0)->Some_0;
    assert(num_frac_end(t, a0) is Some);
    let f0 = num_frac_end(t, a0)->Some_0;
    assert(num_exp_end(t, f0) is Some);
    let e0 = num_exp_end(t, f0)->Some_0;
    assert(t.subrange(j0, e0) == t && e0 == tl);
    assert(t.subrange(j0, e0).len() == e0 - j0);
    assert(j0 == 0);
    assert(t.len() > 0);
    assert(!is_ws(t[0])) by {
        assert(ws_to(t, 0) == 0);
    }
    assert(ws_to(s, i) == i);
    // The sign, integer, fraction and exponent parts sit at the same
    // offsets inside the window.
    assert(!is_digit(s[i + tl]) && s[i + tl] != 46 && s[i + tl] != 101 && s[i + tl] != 69);
    let k = if i < s.len() && s[i] == 45 {
        i + 1
    } else {
        i
    };
    assert(k == i + k0);
    crate::jsonin::lemma_digits_to(t, k0);
    if k0 < tl && t[k0] == 48 {
        assert(num_int_end(s, k) == Some(i + a0));
    } else {
        assert(k0 < tl && is_digit(t[k0]));
        lemma_digits_to_window(s, i, t, k0);
        assert(num_int_end(s, k) == Some(i + a0));
    }
    if a0 < tl && t[a0] == 46 {
        lemma_digits_to_window(s, i, t, a0 + 1);
        assert(num_frac_end(s, i + a0) == Some(i + f0));
    } else {
        assert(a0 == tl || s[i + a0] != 46);
        assert(num_frac_end(s, i + a0) == Some(i + a0));
    }
    if f0 < tl && (t[f0] == 101 || t[f0] == 69) {
        let kk0 = if f0 + 1 < tl && (t[f0 + 1] == 43 || t[f0 + 1] == 45) {
            f0 + 2
        } else {
            f0 + 1
        };
        if f0 + 1 == tl {
            // An exponent mark with nothing after it cannot close the
            // token.
            crate::jsonin::lemma_digits_to(t, kk0);
            assert(false);
        }
        lemma_digits_to_window(s, i, t, kk0);
        assert(num_exp_end(s, i + f0) == Some(i + e0));
    } else {
        assert(f0 == tl || (s[i + f0] != 101 && s[i + f0] != 69));
        assert(num_exp_end(s, i + f0) == Some(i + f0));
    }
    assert(s.subrange(i, i + tl) == t);
}

/// An unsigned integer field parses back to its value.
pub proof fn lemma_u64_roundtrip(s: Seq<u8>, i: int, v: int)
    requires
        0 <= i,
        0 <= v <= 0xffff_ffff_ffff_ffff,
        i + int_token(v).len() < s.len(),
        s.subrange(i, i + int_token(v).len()) == int_token(v),
        ({
            let b = s[i + int_token(v).len()];
            !is_digit(b) && b != 46 && b != 101 && b != 69
        }),
    ensures
        u64_at(s, i) == Some((v, i + int_token(v).len())),
        i64_at(s, i) == Some((v, i + int_token(v).len())) || v > 0x7fff_ffff_ffff_ffff,
{
    let d = dec_of(v as nat);
    assert(int_token(v) == d);
    lemma_dec_of_digits(v as nat);
    assert(s[i] == s.subrange(i, i + d.len())[0]);
    assert(is_digit(s[i]) && !is_ws(s[i]) && s[i] != 45);
    assert(ws_to(s, i) == i);
    lemma_uint_roundtrip(s, i, v as nat);
}

/// A signed integer field parses back to its value.
pub proof fn lemma_i64_roundtrip(s: Seq<u8>, i: int, v: int)
    requires
        0 <= i,
        -0x8000_0000_0000_0000 <= v <= 0x7fff_ffff_ffff_ffff,
        i + int_token(v).len() < s.len(),
        s.subrange(i, i + int_token(v).len()) == int_token(v),
        ({
            let b = s[i + int_token(v).len()];
            !is_digit(b) && b != 46 && b != 101 && b != 69
        }),
    ensures
        i64_at(s, i) == Some((v, i + int_token(v).len())),
{
    if v >= 0 {
        lemma_u64_roundtrip(s, i, v);
    } else {
        let d = dec_of((-v) as nat);
        assert(int_token(v) == seq![45u8] + d);
        lemma_window_split(s, i, seq![45u8], d);
        assert(s[i] == s.subrange(i, i + 1)[0]);
        assert(s[i] == 45 && !is_ws(45u8));
        assert(ws_to(s, i) == i);
        lemma_uint_roundtrip(s, i + 1, (-v) as nat);
    }
}

} // verus!
