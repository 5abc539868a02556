//! Report batch decoder.
//!
//! A submitted batch is a JSON array of report objects. An object's known
//! members may come in any order, each at most once; an unknown member is
//! validated as JSON and skipped, as a generic decoder would. The grammar
//! is given by the `*_at` spec functions over the raw bytes; [`decode`]
//! returns `Ok` exactly when the whole input matches [`batch_at`], and the
//! batch is atomic: one malformed member fails the whole decode.
//!
//! String values take the standard short escapes and the full range of
//! `\u` escapes, surrogate pairs included; integer fields must be plain
//! JSON integers in range; `sampling_fraction` may be any JSON number and
//! is kept verbatim.

use vstd::prelude::*;
use crate::jsonout::lit;
use crate::model::Report;
use crate::model::ReportBody;
use crate::model::ReportBodyView;
use crate::model::ReportView;

verus! {

/// JSON insignificant whitespace.
pub open spec fn is_ws(b: u8) -> bool {
    b == 32 || b == 9 || b == 10 || b == 13
}

/// The first index at or after `i` holding no whitespace.
pub open spec fn ws_to(s: Seq<u8>, i: int) -> int
    decreases s.len() - i,
{
    if 0 <= i < s.len() && is_ws(s[i]) {
        ws_to(s, i + 1)
    } else {
        i
    }
}

pub proof fn lemma_ws_to(s: Seq<u8>, i: int)
    requires
        0 <= i <= s.len(),
    ensures
        i <= ws_to(s, i) <= s.len(),
    decreases s.len() - i,
{
    if i < s.len() && is_ws(s[i]) {
        lemma_ws_to(s, i + 1);
    }
}

/// Expect one structural byte, whitespace before it allowed.
pub open spec fn tok(s: Seq<u8>, i: int, b: u8) -> Option<int> {
    let j = ws_to(s, i);
    if j < s.len() && s[j] == b {
        Some(j + 1)
    } else {
        None
    }
}

pub proof fn lemma_tok(s: Seq<u8>, i: int, b: u8)
    requires
        0 <= i <= s.len(),
    ensures
        tok(s, i, b) matches Some(j) ==> i < j <= s.len(),
{
    lemma_ws_to(s, i);
}

/// The value of a hexadecimal digit byte.
pub open spec fn hex_val(b: u8) -> Option<u8> {
    if 48 <= b <= 57 {
        Some((b - 48) as u8)
    } else if 97 <= b <= 102 {
        Some((b - 87) as u8)
    } else if 65 <= b <= 70 {
        Some((b - 55) as u8)
    } else {
        None
    }
}

/// The byte named by a short escape.
pub open spec fn esc_code(b: u8) -> Option<u8> {
    if b == 34 {
        Some(34u8)
    } else if b == 92 {
        Some(92u8)
    } else if b == 47 {
        Some(47u8)
    } else if b == 98 {
        Some(8u8)
    } else if b == 102 {
        Some(12u8)
    } else if b == 110 {
        Some(10u8)
    } else if b == 114 {
        Some(13u8)
    } else if b == 116 {
        Some(9u8)
    } else {
        None
    }
}

/// The UTF-8 encoding of one code point.
pub open spec fn utf8_of(v: int) -> Seq<u8>
    recommends
        0 <= v <= 0x10ffff,
{
    if v < 0x80 {
        seq![v as u8]
    } else if v < 0x800 {
        seq![(0xc0 + v / 64) as u8, (0x80 + v % 64) as u8]
    } else if v < 0x10000 {
        seq![(0xe0 + v / 4096) as u8, (0x80 + (v / 64) % 64) as u8, (0x80 + v % 64) as u8]
    } else {
        seq![
            (0xf0 + v / 262144) as u8,
            (0x80 + (v / 4096) % 64) as u8,
            (0x80 + (v / 64) % 64) as u8,
            (0x80 + v % 64) as u8,
        ]
    }
}

/// Prepend one decoded byte to a string-body parse.
pub open spec fn with_byte(b: u8, r: Option<(Seq<u8>, int)>) -> Option<(Seq<u8>, int)> {
    match r {
        Some((t, j)) => Some((seq![b] + t, j)),
        None => None,
    }
}

/// The content of a string, read from just inside its opening quote to
/// just past its closing quote.
pub open spec fn str_body(s: Seq<u8>, i: int) -> Option<(Seq<u8>, int)>
    decreases s.len() - i,
{
    if i < 0 || i >= s.len() {
        None
    } else if s[i] == 34 {
        Some((Seq::empty(), i + 1))
    } else if s[i] == 92 {
        if i + 1 < s.len() {
            let e = s[i + 1];
            if e == 117 {
                if i + 6 <= s.len() {
                    match (hex_val(s[i + 2]), hex_val(s[i + 3]), hex_val(s[i + 4]), hex_val(
                        s[i + 5],
                    )) {
                        (Some(h1), Some(h2), Some(h3), Some(h4)) => {
                            let v = h1 * 4096 + h2 * 256 + h3 * 16 + h4;
                            if 0xd800 <= v < 0xdc00 {
                                // A high surrogate: its low surrogate must
                                // follow, and the pair names one code point.
                                if i + 12 <= s.len() && s[i + 6] == 92 && s[i + 7] == 117 {
                                    match (hex_val(s[i + 8]), hex_val(s[i + 9]), hex_val(
                                        s[i + 10],
                                    ), hex_val(s[i + 11])) {
                                        (Some(g1), Some(g2), Some(g3), Some(g4)) => {
                                            let w = g1 * 4096 + g2 * 256 + g3 * 16 + g4;
                                            if 0xdc00 <= w < 0xe000 {
                                                let c = 0x10000 + (v - 0xd800) * 1024 + (w
                                                    - 0xdc00);
                                                prefix_str(utf8_of(c), str_body(s, i + 12))
                                            } else {
                                                None
                                            }
                                        },
                                        _ => None,
                                    }
                                } else {
                                    None
                                }
                            } else if 0xdc00 <= v < 0xe000 {
                                None
                            } else {
                                prefix_str(utf8_of(v), str_body(s, i + 6))
                            }
                        },
                        _ => None,
                    }
                } else {
                    None
                }
            } else {
                match esc_code(e) {
                    Some(c) => with_byte(c, str_body(s, i + 2)),
                    None => None,
                }
            }
        } else {
            None
        }
    } else if s[i] < 32 {
        None
    } else {
        with_byte(s[i], str_body(s, i + 1))
    }
}

pub proof fn lemma_str_body(s: Seq<u8>, i: int)
    requires
        0 <= i <= s.len(),
    ensures
        str_body(s, i) matches Some(p) ==> i < p.1 <= s.len(),
    decreases s.len() - i,
{
    if i < s.len() && s[i] == 92 && i + 1 < s.len() {
        if s[i + 1] == 117 {
            if i + 6 <= s.len() {
                lemma_str_body(s, i + 6);
                if i + 12 <= s.len() {
                    lemma_str_body(s, i + 12);
                }
            }
        } else {
            lemma_str_body(s, i + 2);
        }
    } else if i < s.len() && s[i] != 34 && s[i] >= 32 {
        lemma_str_body(s, i + 1);
    }
}

/// A JSON string token, whitespace before it allowed.
pub open spec fn jstring(s: Seq<u8>, i: int) -> Option<(Seq<u8>, int)> {
    let j = ws_to(s, i);
    if j < s.len() && s[j] == 34 {
        str_body(s, j + 1)
    } else {
        None
    }
}

pub proof fn lemma_jstring(s: Seq<u8>, i: int)
    requires
        0 <= i <= s.len(),
    ensures
        jstring(s, i) matches Some(p) ==> i < p.1 <= s.len(),
{
    lemma_ws_to(s, i);
    let j = ws_to(s, i);
    if j < s.len() && s[j] == 34 {
        lemma_str_body(s, j + 1);
    }
}

pub open spec fn is_digit(b: u8) -> bool {
    48 <= b <= 57
}

/// The first index at or after `i` holding no decimal digit.
pub open spec fn digits_to(s: Seq<u8>, i: int) -> int
    decreases s.len() - i,
{
    if 0 <= i < s.len() && is_digit(s[i]) {
        digits_to(s, i + 1)
    } else {
        i
    }
}

pub proof fn lemma_digits_to(s: Seq<u8>, i: int)
    requires
        0 <= i <= s.len(),
    ensures
        i <= digits_to(s, i) <= s.len(),
        forall|k: int| i <= k < digits_to(s, i) ==> is_digit(s[k]),
        digits_to(s, i) == s.len() || !is_digit(s[digits_to(s, i)]),
    decreases s.len() - i,
{
    if i < s.len() && is_digit(s[i]) {
        lemma_digits_to(s, i + 1);
    }
}

/// The value of a run of decimal digits.
pub open spec fn dec_val_of(d: Seq<u8>) -> nat
    decreases d.len(),
{
    if d.len() == 0 {
        0
    } else {
        dec_val_of(d.drop_last()) * 10 + (if d.last() >= 48 {
            (d.last() - 48) as nat
        } else {
            0
        })
    }
}

/// An unsigned integer whose digits start exactly at `i`: no leading zero,
/// and not the integer part of a fraction or exponent.
pub open spec fn uint_core(s: Seq<u8>, i: int) -> Option<(int, int)> {
    if 0 <= i < s.len() && is_digit(s[i]) {
        let e = digits_to(s, i);
        if s[i] == 48 && e > i + 1 {
            None
        } else if e < s.len() && (s[e] == 46 || s[e] == 101 || s[e] == 69) {
            None
        } else {
            Some((dec_val_of(s.subrange(i, e)) as int, e))
        }
    } else {
        None
    }
}

pub proof fn lemma_uint_core(s: Seq<u8>, i: int)
    requires
        0 <= i <= s.len(),
    ensures
        uint_core(s, i) matches Some(p) ==> i < p.1 <= s.len(),
{
    lemma_digits_to(s, i);
    if i < s.len() && is_digit(s[i]) {
        lemma_digits_to(s, i + 1);
    }
}

/// An unsigned 64-bit integer field value, whitespace before it allowed.
pub open spec fn u64_at(s: Seq<u8>, i: int) -> Option<(int, int)> {
    let j = ws_to(s, i);
    match uint_core(s, j) {
        Some((v, e)) => if v <= 0xffff_ffff_ffff_ffff {
            Some((v, e))
        } else {
            None
        },
        None => None,
    }
}

pub proof fn lemma_u64_at(s: Seq<u8>, i: int)
    requires
        0 <= i <= s.len(),
    ensures
        u64_at(s, i) matches Some(p) ==> i < p.1 <= s.len(),
{
    lemma_ws_to(s, i);
    lemma_uint_core(s, ws_to(s, i));
}

/// A signed 64-bit integer field value, whitespace before it allowed.
pub open spec fn i64_at(s: Seq<u8>, i: int) -> Option<(int, int)> {
    let j = ws_to(s, i);
    if j < s.len() && s[j] == 45 {
        match uint_core(s, j + 1) {
            Some((v, e)) => if v <= 0x8000_0000_0000_0000 {
                Some((-v, e))
            } else {
                None
            },
            None => None,
        }
    } else {
        match uint_core(s, j) {
            Some((v, e)) => if v <= 0x7fff_ffff_ffff_ffff {
                Some((v, e))
            } else {
                None
            },
            None => None,
        }
    }
}

pub proof fn lemma_i64_at(s: Seq<u8>, i: int)
    requires
        0 <= i <= s.len(),
    ensures
        i64_at(s, i) matches Some(p) ==> i < p.1 <= s.len(),
{
    lemma_ws_to(s, i);
    let j = ws_to(s, i);
    if j < s.len() && s[j] == 45 {
        lemma_uint_core(s, j + 1);
    } else {
        lemma_uint_core(s, j);
    }
}

/// The end of the integer part of a JSON number starting exactly at `i`.
pub open spec fn num_int_end(s: Seq<u8>, i: int) -> Option<int> {
    if 0 <= i < s.len() && s[i] == 48 {
        if i + 1 < s.len() && is_digit(s[i + 1]) {
            None
        } else {
            Some(i + 1)
        }
    } else if 0 <= i < s.len() && is_digit(s[i]) {
        Some(digits_to(s, i))
    } else {
        None
    }
}

/// The end of the optional fraction part starting exactly at `i`.
pub open spec fn num_frac_end(s: Seq<u8>, i: int) -> Option<int> {
    if 0 <= i < s.len() && s[i] == 46 {
        let e = digits_to(s, i + 1);
        if e == i + 1 {
            None
        } else {
            Some(e)
        }
    } else {
        Some(i)
    }
}

/// The end of the optional exponent part starting exactly at `i`.
pub open spec fn num_exp_end(s: Seq<u8>, i: int) -> Option<int> {
    if 0 <= i < s.len() && (s[i] == 101 || s[i] == 69) {
        let k = if i + 1 < s.len() && (s[i + 1] == 43 || s[i + 1] == 45) {
            i + 2
        } else {
            i + 1
        };
        let e = digits_to(s, k);
        if e == k {
            None
        } else {
            Some(e)
        }
    } else {
        Some(i)
    }
}

/// A whole JSON number, kept as its raw token, whitespace before it
/// allowed.
pub open spec fn num_token_at(s: Seq<u8>, i: int) -> Option<(Seq<u8>, int)> {
    let j = ws_to(s, i);
    let k = if j < s.len() && s[j] == 45 {
        j + 1
    } else {
        j
    };
    match num_int_end(s, k) {
        None => None,
        Some(a) => match num_frac_end(s, a) {
            None => None,
            Some(f) => match num_exp_end(s, f) {
                None => None,
                Some(e) => Some((s.subrange(j, e), e)),
            },
        },
    }
}

pub proof fn lemma_num_token_at(s: Seq<u8>, i: int)
    requires
        0 <= i <= s.len(),
    ensures
        num_token_at(s, i) matches Some(p) ==> i < p.1 <= s.len(),
{
    lemma_ws_to(s, i);
    let j = ws_to(s, i);
    let k = if j < s.len() && s[j] == 45 {
        j + 1
    } else {
        j
    };
    if k < s.len() {
        lemma_digits_to(s, k);
        if is_digit(s[k]) {
            lemma_digits_to(s, k + 1);
        }
        match num_int_end(s, k) {
            None => {},
            Some(a) => {
                if a < s.len() {
                    lemma_digits_to(s, a + 1);
                }
                match num_frac_end(s, a) {
                    None => {},
                    Some(f) => {
                        if f < s.len() {
                            lemma_digits_to(s, f + 1);
                            if f + 2 <= s.len() {
                                lemma_digits_to(s, f + 2);
                            }
                        }
                    },
                }
            },
        }
    }
}

/// One whole unknown JSON value, skipped after validation: a string,
/// number, `true`, `false`, `null`, array or object. Returns the index
/// just past the value. The index clamps only serve the termination
/// argument: every successful parse advances, so they change nothing.
pub open spec fn skip_value(s: Seq<u8>, i: int) -> Option<int>
    decreases s.len() - i, 0int,
{
    let j0 = ws_to(s, i);
    let j = if j0 < i {
        i
    } else {
        j0
    };
    if j < 0 || j >= s.len() {
        None
    } else if s[j] == 34 {
        match str_body(s, j + 1) {
            Some((t, e)) => Some(e),
            None => None,
        }
    } else if s[j] == 91 {
        let k0 = ws_to(s, j + 1);
        if k0 < s.len() && 0 <= k0 && s[k0] == 93 {
            Some(k0 + 1)
        } else {
            skip_elems(s, j + 1)
        }
    } else if s[j] == 123 {
        let k0 = ws_to(s, j + 1);
        if k0 < s.len() && 0 <= k0 && s[k0] == 125 {
            Some(k0 + 1)
        } else {
            skip_members(s, j + 1)
        }
    } else if s[j] == 116 {
        if j + 4 <= s.len() && s[j + 1] == 114 && s[j + 2] == 117 && s[j + 3] == 101 {
            Some(j + 4)
        } else {
            None
        }
    } else if s[j] == 102 {
        if j + 5 <= s.len() && s[j + 1] == 97 && s[j + 2] == 108 && s[j + 3] == 115 && s[j + 4]
            == 101 {
            Some(j + 5)
        } else {
            None
        }
    } else if s[j] == 110 {
        if j + 4 <= s.len() && s[j + 1] == 117 && s[j + 2] == 108 && s[j + 3] == 108 {
            Some(j + 4)
        } else {
            None
        }
    } else {
        match num_token_at(s, j) {
            Some((t, e)) => Some(e),
            None => None,
        }
    }
}

/// The elements of a non-empty array being skipped, up to and past `]`.
pub open spec fn skip_elems(s: Seq<u8>, i: int) -> Option<int>
    decreases s.len() - i, 1int,
{
    match skip_value(s, i) {
        None => None,
        Some(e0) => {
            let e = if e0 < i + 1 {
                i + 1
            } else {
                e0
            };
            let m0 = ws_to(s, e);
            let m = if m0 < e {
                e
            } else {
                m0
            };
            if m < s.len() && s[m] == 44 {
                skip_elems(s, m + 1)
            } else if m < s.len() && s[m] == 93 {
                Some(m + 1)
            } else {
                None
            }
        },
    }
}

/// The members of a non-empty object being skipped, up to and past `}`.
pub open spec fn skip_members(s: Seq<u8>, i: int) -> Option<int>
    decreases s.len() - i, 1int,
{
    match jstring(s, i) {
        None => None,
        Some((key, j)) => match tok(s, j, 58) {
            None => None,
            Some(k0) => {
                let k = if k0 < i + 1 {
                    i + 1
                } else {
                    k0
                };
                match skip_value(s, k) {
                    None => None,
                    Some(e0) => {
                        let e = if e0 < k + 1 {
                            k + 1
                        } else {
                            e0
                        };
                        let m0 = ws_to(s, e);
                        let m = if m0 < e {
                            e
                        } else {
                            m0
                        };
                        if m < s.len() && s[m] == 44 {
                            skip_members(s, m + 1)
                        } else if m < s.len() && s[m] == 125 {
                            Some(m + 1)
                        } else {
                            None
                        }
                    },
                }
            },
        },
    }
}

pub proof fn lemma_skip_value(s: Seq<u8>, i: int)
    requires
        0 <= i <= s.len(),
    ensures
        skip_value(s, i) matches Some(e) ==> i < e <= s.len(),
    decreases s.len() - i, 0int,
{
    lemma_ws_to(s, i);
    let j0 = ws_to(s, i);
    let j = if j0 < i {
        i
    } else {
        j0
    };
    if j < s.len() {
        if s[j] == 34 {
            lemma_str_body(s, j + 1);
        } else if s[j] == 91 {
            lemma_ws_to(s, j + 1);
            lemma_skip_elems(s, j + 1);
        } else if s[j] == 123 {
            lemma_ws_to(s, j + 1);
            lemma_skip_members(s, j + 1);
        } else {
            lemma_num_token_at(s, j);
        }
    }
}

pub proof fn lemma_skip_elems(s: Seq<u8>, i: int)
    requires
        0 <= i <= s.len(),
    ensures
        skip_elems(s, i) matches Some(e) ==> i < e <= s.len(),
    decreases s.len() - i, 1int,
{
    lemma_skip_value(s, i);
    if let Some(e0) = skip_value(s, i) {
        let e = if e0 < i + 1 {
            i + 1
        } else {
            e0
        };
        lemma_ws_to(s, e);
        let m0 = ws_to(s, e);
        let m = if m0 < e {
            e
        } else {
            m0
        };
        if m < s.len() && s[m] == 44 {
            lemma_skip_elems(s, m + 1);
        }
    }
}

pub proof fn lemma_skip_members(s: Seq<u8>, i: int)
    requires
        0 <= i <= s.len(),
    ensures
        skip_members(s, i) matches Some(e) ==> i < e <= s.len(),
    decreases s.len() - i, 1int,
{
    lemma_jstring(s, i);
    if let Some((key, j)) = jstring(s, i) {
        lemma_tok(s, j, 58);
        if let Some(k0) = tok(s, j, 58) {
            let k = if k0 < i + 1 {
                i + 1
            } else {
                k0
            };
            lemma_skip_value(s, k);
            if let Some(e0) = skip_value(s, k) {
                let e = if e0 < k + 1 {
                    k + 1
                } else {
                    e0
                };
                lemma_ws_to(s, e);
                let m0 = ws_to(s, e);
                let m = if m0 < e {
                    e
                } else {
                    m0
                };
                if m < s.len() && s[m] == 44 {
                    lemma_skip_members(s, m + 1);
                }
            }
        }
    }
}

/// What the known members of a report body object have bound so far.
pub struct BodyAcc {
    pub error_type: Option<Seq<u8>>,
    pub elapsed_time: Option<int>,
    pub method: Option<Seq<u8>>,
    pub phase: Option<Seq<u8>>,
    pub protocol: Option<Seq<u8>>,
    pub referrer: Option<Seq<u8>>,
    pub sampling_fraction: Option<Seq<u8>>,
    pub server_ip: Option<Seq<u8>>,
    pub status_code: Option<int>,
}

/// No member of a report body bound yet.
pub open spec fn body_acc0() -> BodyAcc {
    BodyAcc {
        error_type: None,
        elapsed_time: None,
        method: None,
        phase: None,
        protocol: None,
        referrer: None,
        sampling_fraction: None,
        server_ip: None,
        status_code: None,
    }
}

/// One member value of a report body object, dispatched on its key: a
/// known key must be unbound so far and typed as the field asks; an
/// unknown key's value is validated and skipped.
pub open spec fn body_member(s: Seq<u8>, k: int, key: Seq<u8>, acc: BodyAcc) -> Option<
    (BodyAcc, int),
> {
    if key == lit("type"@) {
        if acc.error_type is Some {
            None
        } else {
            match jstring(s, k) {
                Some((v, e)) => Some((BodyAcc { error_type: Some(v), ..acc }, e)),
                None => None,
            }
        }
    } else if key == lit("elapsed_time"@) {
        if acc.elapsed_time is Some {
            None
        } else {
            match i64_at(s, k) {
                Some((v, e)) => Some((BodyAcc { elapsed_time: Some(v), ..acc }, e)),
                None => None,
            }
        }
    } else if key == lit("method"@) {
        if acc.method is Some {
            None
        } else {
            match jstring(s, k) {
                Some((v, e)) => Some((BodyAcc { method: Some(v), ..acc }, e)),
                None => None,
            }
        }
    } else if key == lit("phase"@) {
        if acc.phase is Some {
            None
        } else {
            match jstring(s, k) {
                Some((v, e)) => Some((BodyAcc { phase: Some(v), ..acc }, e)),
                None => None,
            }
        }
    } else if key == lit("protocol"@) {
        if acc.protocol is Some {
            None
        } else {
            match jstring(s, k) {
                Some((v, e)) => Some((BodyAcc { protocol: Some(v), ..acc }, e)),
                None => None,
            }
        }
    } else if key == lit("referrer"@) {
        if acc.referrer is Some {
            None
        } else {
            match jstring(s, k) {
                Some((v, e)) => Some((BodyAcc { referrer: Some(v), ..acc }, e)),
                None => None,
            }
        }
    } else if key == lit("sampling_fraction"@) {
        if acc.sampling_fraction is Some {
            None
        } else {
            match num_token_at(s, k) {
                Some((v, e)) => Some((BodyAcc { sampling_fraction: Some(v), ..acc }, e)),
                None => None,
            }
        }
    } else if key == lit("server_ip"@) {
        if acc.server_ip is Some {
            None
        } else {
            match jstring(s, k) {
                Some((v, e)) => Some((BodyAcc { server_ip: Some(v), ..acc }, e)),
                None => None,
            }
        }
    } else if key == lit("status_code"@) {
        if acc.status_code is Some {
            None
        } else {
            match u64_at(s, k) {
                Some((v, e)) => Some((BodyAcc { status_code: Some(v), ..acc }, e)),
                None => None,
            }
        }
    } else {
        match skip_value(s, k) {
            Some(e) => Some((acc, e)),
            None => None,
        }
    }
}

/// A report body is complete once every one of its nine members is bound.
pub open spec fn body_finish(acc: BodyAcc) -> Option<ReportBodyView> {
    if acc.error_type is Some && acc.elapsed_time is Some && acc.method is Some && acc.phase
        is Some && acc.protocol is Some && acc.referrer is Some && acc.sampling_fraction is Some
        && acc.server_ip is Some && acc.status_code is Some {
        Some(
            ReportBodyView {
                error_type: acc.error_type->Some_0,
                elapsed_time: acc.elapsed_time->Some_0,
                method: acc.method->Some_0,
                phase: acc.phase->Some_0,
                protocol: acc.protocol->Some_0,
                referrer: acc.referrer->Some_0,
                sampling_fraction: acc.sampling_fraction->Some_0,
                server_ip: acc.server_ip->Some_0,
                status_code: acc.status_code->Some_0,
            },
        )
    } else {
        None
    }
}

/// The members of a report body object, from just past `{` or a comma, up
/// to and past the closing brace. The index clamps only serve the
/// termination argument: every successful parse advances, so they change
/// nothing.
pub open spec fn body_members(s: Seq<u8>, i: int, acc: BodyAcc) -> Option<(ReportBodyView, int)>
    decreases s.len() - i,
{
    match jstring(s, i) {
        None => None,
        Some((key, j)) => match tok(s, j, 58) {
            None => None,
            Some(k0) => {
                let k = if k0 < i + 1 {
                    i + 1
                } else {
                    k0
                };
                match body_member(s, k, key, acc) {
                    None => None,
                    Some((acc2, e0)) => {
                        let e = if e0 < k + 1 {
                            k + 1
                        } else {
                            e0
                        };
                        let m0 = ws_to(s, e);
                        let m = if m0 < e {
                            e
                        } else {
                            m0
                        };
                        if m < s.len() && s[m] == 44 {
                            body_members(s, m + 1, acc2)
                        } else if m < s.len() && s[m] == 125 {
                            match body_finish(acc2) {
                                Some(b) => Some((b, m + 1)),
                                None => None,
                            }
                        } else {
                            None
                        }
                    },
                }
            },
        },
    }
}

/// The report body object: nine known members in any order, each exactly
/// once, unknown members skipped.
pub open spec fn body_at(s: Seq<u8>, i: int) -> Option<(ReportBodyView, int)> {
    match tok(s, i, 123) {
        None => None,
        Some(i1) => {
            let j = ws_to(s, i1);
            if j < s.len() && 0 <= j && s[j] == 125 {
                match body_finish(body_acc0()) {
                    Some(b) => Some((b, j + 1)),
                    None => None,
                }
            } else {
                body_members(s, i1, body_acc0())
            }
        },
    }
}

pub proof fn lemma_body_member(s: Seq<u8>, k: int, key: Seq<u8>, acc: BodyAcc)
    requires
        0 <= k <= s.len(),
    ensures
        body_member(s, k, key, acc) matches Some(p) ==> k < p.1 <= s.len(),
{
    lemma_jstring(s, k);
    lemma_i64_at(s, k);
    lemma_u64_at(s, k);
    lemma_num_token_at(s, k);
    lemma_skip_value(s, k);
}

pub proof fn lemma_body_members(s: Seq<u8>, i: int, acc: BodyAcc)
    requires
        0 <= i <= s.len(),
    ensures
        body_members(s, i, acc) matches Some(p) ==> i < p.1 <= s.len(),
    decreases s.len() - i,
{
    lemma_jstring(s, i);
    if let Some((key, j)) = jstring(s, i) {
        lemma_tok(s, j, 58);
        if let Some(k0) = tok(s, j, 58) {
            let k = if k0 < i + 1 {
                i + 1
            } else {
                k0
            };
            lemma_body_member(s, k, key, acc);
            if let Some((acc2, e0)) = body_member(s, k, key, acc) {
                let e = if e0 < k + 1 {
                    k + 1
                } else {
                    e0
                };
                lemma_ws_to(s, e);
                let m0 = ws_to(s, e);
                let m = if m0 < e {
                    e
                } else {
                    m0
                };
                if m < s.len() && s[m] == 44 {
                    lemma_body_members(s, m + 1, acc2);
                }
            }
        }
    }
}

pub proof fn lemma_body_at(s: Seq<u8>, i: int)
    requires
        0 <= i <= s.len(),
    ensures
        body_at(s, i) matches Some(p) ==> i < p.1 <= s.len(),
{
    lemma_tok(s, i, 123);
    if let Some(i1) = tok(s, i, 123) {
        lemma_ws_to(s, i1);
        lemma_body_members(s, i1, body_acc0());
    }
}

/// What the known members of a report object have bound so far.
pub struct ReportAcc {
    pub user_agent: Option<Seq<u8>>,
    pub url: Option<Seq<u8>>,
    pub report_type: Option<Seq<u8>>,
    pub age: Option<int>,
    pub body: Option<ReportBodyView>,
}

/// No member of a report bound yet.
pub open spec fn report_acc0() -> ReportAcc {
    ReportAcc { user_agent: None, url: None, report_type: None, age: None, body: None }
}

/// One member value of a report object, dispatched on its key.
pub open spec fn report_member(s: Seq<u8>, k: int, key: Seq<u8>, acc: ReportAcc) -> Option<
    (ReportAcc, int),
> {
    if key == lit("user_agent"@) {
        if acc.user_agent is Some {
            None
        } else {
            match jstring(s, k) {
                Some((v, e)) => Some((ReportAcc { user_agent: Some(v), ..acc }, e)),
                None => None,
            }
        }
    } else if key == lit("url"@) {
        if acc.url is Some {
            None
        } else {
            match jstring(s, k) {
                Some((v, e)) => Some((ReportAcc { url: Some(v), ..acc }, e)),
                None => None,
            }
        }
    } else if key == lit("type"@) {
        if acc.report_type is Some {
            None
        } else {
            match jstring(s, k) {
                Some((v, e)) => Some((ReportAcc { report_type: Some(v), ..acc }, e)),
                None => None,
            }
        }
    } else if key == lit("age"@) {
        if acc.age is Some {
            None
        } else {
            match u64_at(s, k) {
                Some((v, e)) => Some((ReportAcc { age: Some(v), ..acc }, e)),
                None => None,
            }
        }
    } else if key == lit("body"@) {
        if acc.body is Some {
            None
        } else {
            match body_at(s, k) {
                Some((v, e)) => Some((ReportAcc { body: Some(v), ..acc }, e)),
                None => None,
            }
        }
    } else {
        match skip_value(s, k) {
            Some(e) => Some((acc, e)),
            None => None,
        }
    }
}

/// A report is complete once every one of its five members is bound.
pub open spec fn report_finish(acc: ReportAcc) -> Option<ReportView> {
    if acc.user_agent is Some && acc.url is Some && acc.report_type is Some && acc.age is Some
        && acc.body is Some {
        Some(
            ReportView {
                user_agent: acc.user_agent->Some_0,
                url: acc.url->Some_0,
                report_type: acc.report_type->Some_0,
                age: acc.age->Some_0,
                body: acc.body->Some_0,
            },
        )
    } else {
        None
    }
}

/// The members of a report object, from just past `{` or a comma, up to
/// and past the closing brace. The index clamps only serve the
/// termination argument: every successful parse advances, so they change
/// nothing.
pub open spec fn report_members(s: Seq<u8>, i: int, acc: ReportAcc) -> Option<(ReportView, int)>
    decreases s.len() - i,
{
    match jstring(s, i) {
        None => None,
        Some((key, j)) => match tok(s, j, 58) {
            None => None,
            Some(k0) => {
                let k = if k0 < i + 1 {
                    i + 1
                } else {
                    k0
                };
                match report_member(s, k, key, acc) {
                    None => None,
                    Some((acc2, e0)) => {
                        let e = if e0 < k + 1 {
                            k + 1
                        } else {
                            e0
                        };
                        let m0 = ws_to(s, e);
                        let m = if m0 < e {
                            e
                        } else {
                            m0
                        };
                        if m < s.len() && s[m] == 44 {
                            report_members(s, m + 1, acc2)
                        } else if m < s.len() && s[m] == 125 {
                            match report_finish(acc2) {
                                Some(r) => Some((r, m + 1)),
                                None => None,
                            }
                        } else {
                            None
                        }
                    },
                }
            },
        },
    }
}

/// One report object: five known members in any order, each exactly once,
/// the body nested, unknown members skipped.
pub open spec fn report_at(s: Seq<u8>, i: int) -> Option<(ReportView, int)> {
    match tok(s, i, 123) {
        None => None,
        Some(i1) => {
            let j = ws_to(s, i1);
            if j < s.len() && 0 <= j && s[j] == 125 {
                match report_finish(report_acc0()) {
                    Some(r) => Some((r, j + 1)),
                    None => None,
                }
            } else {
                report_members(s, i1, report_acc0())
            }
        },
    }
}

pub proof fn lemma_report_member(s: Seq<u8>, k: int, key: Seq<u8>, acc: ReportAcc)
    requires
        0 <= k <= s.len(),
    ensures
        report_member(s, k, key, acc) matches Some(p) ==> k < p.1 <= s.len(),
{
    lemma_jstring(s, k);
    lemma_u64_at(s, k);
    lemma_body_at(s, k);
    lemma_skip_value(s, k);
}

pub proof fn lemma_report_members(s: Seq<u8>, i: int, acc: ReportAcc)
    requires
        0 <= i <= s.len(),
    ensures
        report_members(s, i, acc) matches Some(p) ==> i < p.1 <= s.len(),
    decreases s.len() - i,
{
    lemma_jstring(s, i);
    if let Some((key, j)) = jstring(s, i) {
        lemma_tok(s, j, 58);
        if let Some(k0) = tok(s, j, 58) {
            let k = if k0 < i + 1 {
                i + 1
            } else {
                k0
            };
            lemma_report_member(s, k, key, acc);
            if let Some((acc2, e0)) = report_member(s, k, key, acc) {
                let e = if e0 < k + 1 {
                    k + 1
                } else {
                    e0
                };
                lemma_ws_to(s, e);
                let m0 = ws_to(s, e);
                let m = if m0 < e {
                    e
                } else {
                    m0
                };
                if m < s.len() && s[m] == 44 {
                    lemma_report_members(s, m + 1, acc2);
                }
            }
        }
    }
}

pub proof fn lemma_report_at(s: Seq<u8>, i: int)
    requires
        0 <= i <= s.len(),
    ensures
        report_at(s, i) matches Some(p) ==> i < p.1 <= s.len(),
{
    lemma_tok(s, i, 123);
    if let Some(i1) = tok(s, i, 123) {
        lemma_ws_to(s, i1);
        lemma_report_members(s, i1, report_acc0());
    }
}

/// Prepend one parsed report to an element-list parse.
pub open spec fn with_report(r: ReportView, rest: Option<(Seq<ReportView>, int)>) -> Option<
    (Seq<ReportView>, int),
> {
    match rest {
        Some((t, j)) => Some((seq![r] + t, j)),
        None => None,
    }
}

/// One or more array elements from `i`, up to and past the closing
/// bracket.
pub open spec fn elems_at(s: Seq<u8>, i: int) -> Option<(Seq<ReportView>, int)>
    decreases s.len() - i
        when 0 <= i <= s.len()
    via elems_at_decreases
{
    match report_at(s, i) {
        None => None,
        Some((r, j)) => {
            let k = ws_to(s, j);
            if k < s.len() && s[k] == 44 {
                with_report(r, elems_at(s, k + 1))
            } else if k < s.len() && s[k] == 93 {
                Some((seq![r], k + 1))
            } else {
                None
            }
        },
    }
}

#[via_fn]
proof fn elems_at_decreases(s: Seq<u8>, i: int) {
    lemma_report_at(s, i);
    match report_at(s, i) {
        None => {},
        Some((r, j)) => {
            lemma_ws_to(s, j);
        },
    }
}

pub proof fn lemma_elems_at(s: Seq<u8>, i: int)
    requires
        0 <= i <= s.len(),
    ensures
        elems_at(s, i) matches Some(p) ==> i < p.1 <= s.len(),
    decreases s.len() - i,
{
    lemma_report_at(s, i);
    match report_at(s, i) {
        None => {},
        Some((r, j)) => {
            lemma_ws_to(s, j);
            let k = ws_to(s, j);
            if k < s.len() && s[k] == 44 {
                lemma_elems_at(s, k + 1);
            }
        },
    }
}

/// A whole batch: a JSON array of report objects spanning the input.
pub open spec fn batch_at(s: Seq<u8>) -> Option<Seq<ReportView>> {
    match tok(s, 0, 91) {
        None => None,
        Some(i1) => {
            let j = ws_to(s, i1);
            if j < s.len() && s[j] == 93 {
                if ws_to(s, j + 1) == s.len() {
                    Some(Seq::empty())
                } else {
                    None
                }
            } else {
                match elems_at(s, i1) {
                    None => None,
                    Some((rs, e)) => if ws_to(s, e) == s.len() {
                        Some(rs)
                    } else {
                        None
                    },
                }
            }
        },
    }
}

/// Concatenating onto the front of a string-body parse.
pub open spec fn prefix_str(p: Seq<u8>, r: Option<(Seq<u8>, int)>) -> Option<(Seq<u8>, int)> {
    match r {
        Some((t, j)) => Some((p + t, j)),
        None => None,
    }
}

pub proof fn lemma_prefix_str_assoc(p: Seq<u8>, q: Seq<u8>, r: Option<(Seq<u8>, int)>)
    ensures
        prefix_str(p, prefix_str(q, r)) == prefix_str(p + q, r),
{
    match r {
        Some((t, j)) => {
            assert(p + (q + t) =~= (p + q) + t);
        },
        None => {},
    }
}

/// A digit run's value never shrinks as the run grows.
pub proof fn lemma_dec_val_take(d: Seq<u8>, n: int)
    requires
        0 <= n <= d.len(),
    ensures
        dec_val_of(d.take(n)) <= dec_val_of(d),
    decreases d.len(),
{
    if n == d.len() {
        assert(d.take(n) =~= d);
    } else {
        assert(d.drop_last().take(n) =~= d.take(n));
        lemma_dec_val_take(d.drop_last(), n);
    }
}

/// Advance past whitespace.
fn scan_ws(s: &[u8], i: usize) -> (r: usize)
    requires
        i <= s@.len(),
    ensures
        r as int == ws_to(s@, i as int),
        i <= r <= s@.len(),
    decreases s@.len() - i,
{
    if i < s.len() {
        let b = s[i];
        if b == 32 || b == 9 || b == 10 || b == 13 {
            return scan_ws(s, i + 1);
        }
    }
    i
}

/// Advance past decimal digits.
fn scan_digits(s: &[u8], i: usize) -> (r: usize)
    requires
        i <= s@.len(),
    ensures
        r as int == digits_to(s@, i as int),
        i <= r <= s@.len(),
    decreases s@.len() - i,
{
    if i < s.len() {
        let b = s[i];
        if 48 <= b && b <= 57 {
            return scan_digits(s, i + 1);
        }
    }
    i
}

/// Expect one structural byte.
fn tok_x(s: &[u8], i: usize, b: u8) -> (r: Option<usize>)
    requires
        i <= s@.len(),
    ensures
        r is Some <==> tok(s@, i as int, b) is Some,
        r matches Some(j) ==> tok(s@, i as int, b) == Some(j as int) && j <= s@.len(),
{
    let j = scan_ws(s, i);
    if j < s.len() && s[j] == b {
        Some(j + 1)
    } else {
        None
    }
}

fn hex_val_x(b: u8) -> (r: Option<u8>)
    ensures
        r == hex_val(b),
{
    if 48 <= b && b <= 57 {
        Some(b - 48)
    } else if 97 <= b && b <= 102 {
        Some(b - 87)
    } else if 65 <= b && b <= 70 {
        Some(b - 55)
    } else {
        None
    }
}

fn esc_code_x(b: u8) -> (r: Option<u8>)
    ensures
        r == esc_code(b),
{
    if b == 34 {
        Some(34)
    } else if b == 92 {
        Some(92)
    } else if b == 47 {
        Some(47)
    } else if b == 98 {
        Some(8)
    } else if b == 102 {
        Some(12)
    } else if b == 110 {
        Some(10)
    } else if b == 114 {
        Some(13)
    } else if b == 116 {
        Some(9)
    } else {
        None
    }
}

/// Append the UTF-8 encoding of one code point.
fn push_utf8(out: &mut Vec<u8>, c: u32)
    requires
        c <= 0x10ffff,
    ensures
        final(out)@ == old(out)@ + utf8_of(c as int),
{
    if c < 0x80 {
        out.push(c as u8);
        assert(final(out)@ =~= old(out)@ + utf8_of(c as int));
    } else if c < 0x800 {
        out.push((0xc0 + c / 64) as u8);
        out.push((0x80 + c % 64) as u8);
        assert(final(out)@ =~= old(out)@ + utf8_of(c as int));
    } else if c < 0x10000 {
        out.push((0xe0 + c / 4096) as u8);
        out.push((0x80 + (c / 64) % 64) as u8);
        out.push((0x80 + c % 64) as u8);
        assert(final(out)@ =~= old(out)@ + utf8_of(c as int));
    } else {
        out.push((0xf0 + c / 262144) as u8);
        out.push((0x80 + (c / 4096) % 64) as u8);
        out.push((0x80 + (c / 64) % 64) as u8);
        out.push((0x80 + c % 64) as u8);
        assert(final(out)@ =~= old(out)@ + utf8_of(c as int));
    }
}

/// Read a string's content from just inside its opening quote.
fn str_body_x(s: &[u8], i: usize) -> (r: Option<(Vec<u8>, usize)>)
    requires
        i <= s@.len(),
    ensures
        r is Some <==> str_body(s@, i as int) is Some,
        r matches Some(p) ==> str_body(s@, i as int) == Some((p.0@, p.1 as int)) && p.1
            <= s@.len(),
{
    let mut acc: Vec<u8> = Vec::new();
    let mut cur = i;
    loop
        invariant
            i <= cur <= s@.len(),
            str_body(s@, i as int) == prefix_str(acc@, str_body(s@, cur as int)),
        decreases s@.len() - cur,
    {
        if cur >= s.len() {
            return None;
        }
        let b = s[cur];
        if b == 34 {
            proof {
                assert(acc@ + Seq::<u8>::empty() =~= acc@);
            }
            return Some((acc, cur + 1));
        } else if b == 92 {
            if cur + 1 >= s.len() {
                return None;
            }
            let e = s[cur + 1];
            if e == 117 {
                if s.len() - cur < 6 {
                    return None;
                }
                let h1 = hex_val_x(s[cur + 2]);
                let h2 = hex_val_x(s[cur + 3]);
                let h3 = hex_val_x(s[cur + 4]);
                let h4 = hex_val_x(s[cur + 5]);
                match (h1, h2, h3, h4) {
                    (Some(a1), Some(a2), Some(a3), Some(a4)) => {
                        let v: u32 = (a1 as u32) * 4096 + (a2 as u32) * 256 + (a3 as u32) * 16
                            + (a4 as u32);
                        if 0xd800 <= v && v < 0xdc00 {
                            if s.len() - cur < 12 {
                                return None;
                            }
                            if !(s[cur + 6] == 92 && s[cur + 7] == 117) {
                                return None;
                            }
                            let g1 = hex_val_x(s[cur + 8]);
                            let g2 = hex_val_x(s[cur + 9]);
                            let g3 = hex_val_x(s[cur + 10]);
                            let g4 = hex_val_x(s[cur + 11]);
                            match (g1, g2, g3, g4) {
                                (Some(b1), Some(b2), Some(b3), Some(b4)) => {
                                    let w: u32 = (b1 as u32) * 4096 + (b2 as u32) * 256 + (b3
                                        as u32) * 16 + (b4 as u32);
                                    if !(0xdc00 <= w && w < 0xe000) {
                                        return None;
                                    }
                                    let c: u32 = 0x10000 + (v - 0xd800) * 1024 + (w - 0xdc00);
                                    proof {
                                        assert(str_body(s@, cur as int) == prefix_str(
                                            utf8_of(c as int),
                                            str_body(s@, cur as int + 12),
                                        ));
                                        lemma_prefix_str_assoc(
                                            acc@,
                                            utf8_of(c as int),
                                            str_body(s@, cur as int + 12),
                                        );
                                    }
                                    push_utf8(&mut acc, c);
                                    cur = cur + 12;
                                },
                                _ => {
                                    return None;
                                },
                            }
                        } else if 0xdc00 <= v && v < 0xe000 {
                            return None;
                        } else {
                            proof {
                                assert(str_body(s@, cur as int) == prefix_str(
                                    utf8_of(v as int),
                                    str_body(s@, cur as int + 6),
                                ));
                                lemma_prefix_str_assoc(
                                    acc@,
                                    utf8_of(v as int),
                                    str_body(s@, cur as int + 6),
                                );
                            }
                            push_utf8(&mut acc, v);
                            cur = cur + 6;
                        }
                    },
                    _ => {
                        return None;
                    },
                }
            } else {
                match esc_code_x(e) {
                    Some(c) => {
                        proof {
                            assert(str_body(s@, cur as int) == with_byte(
                                c,
                                str_body(s@, cur as int + 2),
                            ));
                            assert(with_byte(c, str_body(s@, cur as int + 2)) == prefix_str(
                                seq![c],
                                str_body(s@, cur as int + 2),
                            ));
                            lemma_prefix_str_assoc(acc@, seq![c], str_body(s@, cur as int + 2));
                            assert(acc@.push(c) =~= acc@ + seq![c]);
                        }
                        acc.push(c);
                        cur = cur + 2;
                    },
                    None => {
                        return None;
                    },
                }
            }
        } else if b < 32 {
            return None;
        } else {
            proof {
                assert(str_body(s@, cur as int) == with_byte(b, str_body(s@, cur as int + 1)));
                assert(with_byte(b, str_body(s@, cur as int + 1)) == prefix_str(
                    seq![b],
                    str_body(s@, cur as int + 1),
                ));
                lemma_prefix_str_assoc(acc@, seq![b], str_body(s@, cur as int + 1));
                assert(acc@.push(b) =~= acc@ + seq![b]);
            }
            acc.push(b);
            cur = cur + 1;
        }
    }
}

/// Read a string token.
fn jstring_x(s: &[u8], i: usize) -> (r: Option<(Vec<u8>, usize)>)
    requires
        i <= s@.len(),
    ensures
        r is Some <==> jstring(s@, i as int) is Some,
        r matches Some(p) ==> jstring(s@, i as int) == Some((p.0@, p.1 as int)) && p.1
            <= s@.len(),
{
    let j = scan_ws(s, i);
    if j < s.len() && s[j] == 34 {
        str_body_x(s, j + 1)
    } else {
        None
    }
}

/// Read an unsigned integer whose digits start exactly at `i`, bounded by
/// `maxv`.
fn uint_x(s: &[u8], i: usize, maxv: u64) -> (r: Option<(u64, usize)>)
    requires
        i <= s@.len(),
        maxv >= 9,
    ensures
        uint_core(s@, i as int) is None ==> r is None,
        uint_core(s@, i as int) matches Some(p) ==> if p.0 <= maxv as int {
            r matches Some(q) && q.0 as int == p.0 && q.1 as int == p.1 && q.1 <= s@.len()
        } else {
            r is None
        },
{
    if i >= s.len() {
        return None;
    }
    let b0 = s[i];
    if !(48 <= b0 && b0 <= 57) {
        return None;
    }
    let e = scan_digits(s, i);
    proof {
        lemma_digits_to(s@, i as int);
        lemma_digits_to(s@, i as int + 1);
    }
    if b0 == 48 && e > i + 1 {
        return None;
    }
    if e < s.len() {
        let c = s[e];
        if c == 46 || c == 101 || c == 69 {
            return None;
        }
    }
    let ghost dfull = s@.subrange(i as int, e as int);
    let mut val: u64 = 0;
    let mut k = i;
    while k < e
        invariant
            i <= k <= e <= s@.len(),
            e as int == digits_to(s@, i as int),
            forall|t: int| i <= t < e ==> is_digit(s@[t]),
            dfull == s@.subrange(i as int, e as int),
            val as int == dec_val_of(s@.subrange(i as int, k as int)),
            val <= maxv,
            maxv >= 9,
        decreases e - k,
    {
        let d: u8 = s[k] - 48;
        let ghost dpre = s@.subrange(i as int, k as int);
        let ghost dnext = s@.subrange(i as int, k as int + 1);
        proof {
            assert(dnext =~= dpre.push(s@[k as int]));
            assert(dnext.drop_last() =~= dpre);
            assert(dec_val_of(dnext) == dec_val_of(dpre) * 10 + d);
        }
        if val > (maxv - (d as u64)) / 10 {
            proof {
                assert(val * 10 + d > maxv) by (nonlinear_arith)
                    requires
                        val > (maxv - (d as u64)) / 10,
                        d <= 9,
                        maxv >= 9,
                        val >= 0,
                ;
                assert(dec_val_of(dnext) > maxv);
                assert(dnext =~= dfull.take(k as int + 1 - i));
                lemma_dec_val_take(dfull, k as int + 1 - i);
                assert(dec_val_of(dfull) > maxv as int);
            }
            return None;
        }
        proof {
            assert(val * 10 + d <= maxv) by (nonlinear_arith)
                requires
                    val <= (maxv - (d as u64)) / 10,
                    d <= 9,
                    maxv >= 9,
                    val >= 0,
            ;
        }
        val = val * 10 + (d as u64);
        k = k + 1;
    }
    proof {
        assert(s@.subrange(i as int, k as int) =~= dfull);
    }
    Some((val, e))
}

/// Read an unsigned 64-bit field value.
fn u64_x(s: &[u8], i: usize) -> (r: Option<(u64, usize)>)
    requires
        i <= s@.len(),
    ensures
        r is Some <==> u64_at(s@, i as int) is Some,
        r matches Some(p) ==> u64_at(s@, i as int) == Some((p.0 as int, p.1 as int)) && p.1
            <= s@.len(),
{
    let j = scan_ws(s, i);
    uint_x(s, j, 0xffff_ffff_ffff_ffff)
}

/// Read a signed 64-bit field value.
fn i64_x(s: &[u8], i: usize) -> (r: Option<(i64, usize)>)
    requires
        i <= s@.len(),
    ensures
        r is Some <==> i64_at(s@, i as int) is Some,
        r matches Some(p) ==> i64_at(s@, i as int) == Some((p.0 as int, p.1 as int)) && p.1
            <= s@.len(),
{
    let j = scan_ws(s, i);
    if j < s.len() && s[j] == 45 {
        match uint_x(s, j + 1, 0x8000_0000_0000_0000) {
            Some((m, e)) => {
                let v: i64 = (-(m as i128)) as i64;
                assert(v as int == -(m as int));
                Some((v, e))
            },
            None => None,
        }
    } else {
        match uint_x(s, j, 0x7fff_ffff_ffff_ffff) {
            Some((m, e)) => Some((m as i64, e)),
            None => None,
        }
    }
}

/// Read a whole JSON number as its raw token.
fn num_token_x(s: &[u8], i: usize) -> (r: Option<(Vec<u8>, usize)>)
    requires
        i <= s@.len(),
    ensures
        r is Some <==> num_token_at(s@, i as int) is Some,
        r matches Some(p) ==> num_token_at(s@, i as int) == Some((p.0@, p.1 as int)) && p.1
            <= s@.len(),
{
    let j = scan_ws(s, i);
    let k = if j < s.len() && s[j] == 45 {
        j + 1
    } else {
        j
    };
    if k >= s.len() {
        return None;
    }
    let b = s[k];
    let a: usize = if b == 48 {
        if k + 1 < s.len() && 48 <= s[k + 1] && s[k + 1] <= 57 {
            return None;
        }
        k + 1
    } else if 48 <= b && b <= 57 {
        scan_digits(s, k)
    } else {
        return None;
    };
    let f: usize = if a < s.len() && s[a] == 46 {
        let e1 = scan_digits(s, a + 1);
        if e1 == a + 1 {
            return None;
        }
        e1
    } else {
        a
    };
    let end: usize = if f < s.len() && (s[f] == 101 || s[f] == 69) {
        let kk = if f + 1 < s.len() && (s[f + 1] == 43 || s[f + 1] == 45) {
            f + 2
        } else {
            f + 1
        };
        let e2 = scan_digits(s, kk);
        if e2 == kk {
            return None;
        }
        e2
    } else {
        f
    };
    let piece = vstd::slice::slice_subrange(s, j, end);
    let token = vstd::slice::slice_to_vec(piece);
    Some((token, end))
}

/// Whether two byte strings are equal.
pub(crate) fn bytes_eq(a: &[u8], b: &[u8]) -> (r: bool)
    ensures
        r == (a@ == b@),
{
    if a.len() != b.len() {
        return false;
    }
    let mut i: usize = 0;
    while i < a.len()
        invariant
            i <= a@.len(),
            a@.len() == b@.len(),
            forall|t: int| 0 <= t < i ==> a@[t] == b@[t],
        decreases a@.len() - i,
    {
        if a[i] != b[i] {
            return false;
        }
        i = i + 1;
    }
    proof {
        assert(a@ =~= b@);
    }
    true
}

/// Skip one whole unknown JSON value.
fn skip_value_x(s: &[u8], i: usize) -> (r: Option<usize>)
    requires
        i <= s@.len(),
    ensures
        r is Some <==> skip_value(s@, i as int) is Some,
        r matches Some(e) ==> skip_value(s@, i as int) == Some(e as int) && e <= s@.len(),
    decreases s@.len() - i, 0int,
{
    let j0 = scan_ws(s, i);
    let j = if j0 < i {
        i
    } else {
        j0
    };
    if j >= s.len() {
        return None;
    }
    let b = s[j];
    if b == 34 {
        match str_body_x(s, j + 1) {
            Some((t, e)) => Some(e),
            None => None,
        }
    } else if b == 91 {
        let k0 = scan_ws(s, j + 1);
        if k0 < s.len() && s[k0] == 93 {
            Some(k0 + 1)
        } else {
            skip_elems_x(s, j + 1)
        }
    } else if b == 123 {
        let k0 = scan_ws(s, j + 1);
        if k0 < s.len() && s[k0] == 125 {
            Some(k0 + 1)
        } else {
            skip_members_x(s, j + 1)
        }
    } else if b == 116 {
        if s.len() - j >= 4 && s[j + 1] == 114 && s[j + 2] == 117 && s[j + 3] == 101 {
            Some(j + 4)
        } else {
            None
        }
    } else if b == 102 {
        if s.len() - j >= 5 && s[j + 1] == 97 && s[j + 2] == 108 && s[j + 3] == 115 && s[j + 4]
            == 101 {
            Some(j + 5)
        } else {
            None
        }
    } else if b == 110 {
        if s.len() - j >= 4 && s[j + 1] == 117 && s[j + 2] == 108 && s[j + 3] == 108 {
            Some(j + 4)
        } else {
            None
        }
    } else {
        match num_token_x(s, j) {
            Some((t, e)) => Some(e),
            None => None,
        }
    }
}

/// Skip the elements of a non-empty array.
fn skip_elems_x(s: &[u8], i: usize) -> (r: Option<usize>)
    requires
        i <= s@.len(),
    ensures
        r is Some <==> skip_elems(s@, i as int) is Some,
        r matches Some(e) ==> skip_elems(s@, i as int) == Some(e as int) && e <= s@.len(),
    decreases s@.len() - i, 1int,
{
    match skip_value_x(s, i) {
        None => None,
        Some(e) => {
            proof {
                lemma_skip_value(s@, i as int);
            }
            let m = scan_ws(s, e);
            if m < s.len() && s[m] == 44 {
                skip_elems_x(s, m + 1)
            } else if m < s.len() && s[m] == 93 {
                Some(m + 1)
            } else {
                None
            }
        },
    }
}

/// Skip the members of a non-empty object.
fn skip_members_x(s: &[u8], i: usize) -> (r: Option<usize>)
    requires
        i <= s@.len(),
    ensures
        r is Some <==> skip_members(s@, i as int) is Some,
        r matches Some(e) ==> skip_members(s@, i as int) == Some(e as int) && e <= s@.len(),
    decreases s@.len() - i, 1int,
{
    match jstring_x(s, i) {
        None => None,
        Some((key, j)) => match tok_x(s, j, 58) {
            None => None,
            Some(k) => {
                proof {
                    lemma_jstring(s@, i as int);
                    lemma_tok(s@, j as int, 58);
                }
                match skip_value_x(s, k) {
                    None => None,
                    Some(e) => {
                        proof {
                            lemma_skip_value(s@, k as int);
                        }
                        let m = scan_ws(s, e);
                        if m < s.len() && s[m] == 44 {
                            skip_members_x(s, m + 1)
                        } else if m < s.len() && s[m] == 125 {
                            Some(m + 1)
                        } else {
                            None
                        }
                    },
                }
            },
        },
    }
}

/// The report body members read so far.
struct BodyPartial {
    error_type: Option<Vec<u8>>,
    elapsed_time: Option<i64>,
    method: Option<Vec<u8>>,
    phase: Option<Vec<u8>>,
    protocol: Option<Vec<u8>>,
    referrer: Option<Vec<u8>>,
    sampling_fraction: Option<Vec<u8>>,
    server_ip: Option<Vec<u8>>,
    status_code: Option<u64>,
}

spec fn opt_bytes(o: Option<Vec<u8>>) -> Option<Seq<u8>> {
    match o {
        Some(v) => Some(v@),
        None => None,
    }
}

spec fn body_partial_view(a: BodyPartial) -> BodyAcc {
    BodyAcc {
        error_type: opt_bytes(a.error_type),
        elapsed_time: match a.elapsed_time {
            Some(v) => Some(v as int),
            None => None,
        },
        method: opt_bytes(a.method),
        phase: opt_bytes(a.phase),
        protocol: opt_bytes(a.protocol),
        referrer: opt_bytes(a.referrer),
        sampling_fraction: opt_bytes(a.sampling_fraction),
        server_ip: opt_bytes(a.server_ip),
        status_code: match a.status_code {
            Some(v) => Some(v as int),
            None => None,
        },
    }
}

/// Read the members of a report body object.
#[verifier::rlimit(60)]
fn body_members_x(s: &[u8], i: usize, acc: BodyPartial) -> (r: Option<(ReportBody, usize)>)
    requires
        i <= s@.len(),
    ensures
        r is Some <==> body_members(s@, i as int, body_partial_view(acc)) is Some,
        r matches Some(p) ==> body_members(s@, i as int, body_partial_view(acc)) == Some(
            (p.0@, p.1 as int),
        ) && p.1 <= s@.len(),
    decreases s@.len() - i,
{
    let ghost old_acc = acc;
    let mut acc = acc;
    let (key, j) = match jstring_x(s, i) {
        Some(v) => v,
        None => {
            return None;
        },
    };
    let k = match tok_x(s, j, 58) {
        Some(v) => v,
        None => {
            return None;
        },
    };
    proof {
        lemma_jstring(s@, i as int);
        lemma_tok(s@, j as int, 58);
    }
    let e0: usize = if bytes_eq(key.as_slice(), "type".as_bytes()) {
        if acc.error_type.is_some() {
            return None;
        }
        match jstring_x(s, k) {
            Some((v, e)) => {
                acc.error_type = Some(v);
                e
            },
            None => {
                return None;
            },
        }
    } else if bytes_eq(key.as_slice(), "elapsed_time".as_bytes()) {
        if acc.elapsed_time.is_some() {
            return None;
        }
        match i64_x(s, k) {
            Some((v, e)) => {
                acc.elapsed_time = Some(v);
                e
            },
            None => {
                return None;
            },
        }
    } else if bytes_eq(key.as_slice(), "method".as_bytes()) {
        if acc.method.is_some() {
            return None;
        }
        match jstring_x(s, k) {
            Some((v, e)) => {
                acc.method = Some(v);
                e
            },
            None => {
                return None;
            },
        }
    } else if bytes_eq(key.as_slice(), "phase".as_bytes()) {
        if acc.phase.is_some() {
            return None;
        }
        match jstring_x(s, k) {
            Some((v, e)) => {
                acc.phase = Some(v);
                e
            },
            None => {
                return None;
            },
        }
    } else if bytes_eq(key.as_slice(), "protocol".as_bytes()) {
        if acc.protocol.is_some() {
            return None;
        }
        match jstring_x(s, k) {
            Some((v, e)) => {
                acc.protocol = Some(v);
                e
            },
            None => {
                return None;
            },
        }
    } else if bytes_eq(key.as_slice(), "referrer".as_bytes()) {
        if acc.referrer.is_some() {
            return None;
        }
        match jstring_x(s, k) {
            Some((v, e)) => {
                acc.referrer = Some(v);
                e
            },
            None => {
                return None;
            },
        }
    } else if bytes_eq(key.as_slice(), "sampling_fraction".as_bytes()) {
        if acc.sampling_fraction.is_some() {
            return None;
        }
        match num_token_x(s, k) {
            Some((v, e)) => {
                acc.sampling_fraction = Some(v);
                e
            },
            None => {
                return None;
            },
        }
    } else if bytes_eq(key.as_slice(), "server_ip".as_bytes()) {
        if acc.server_ip.is_some() {
            return None;
        }
        match jstring_x(s, k) {
            Some((v, e)) => {
                acc.server_ip = Some(v);
                e
            },
            None => {
                return None;
            },
        }
    } else if bytes_eq(key.as_slice(), "status_code".as_bytes()) {
        if acc.status_code.is_some() {
            return None;
        }
        match u64_x(s, k) {
            Some((v, e)) => {
                acc.status_code = Some(v);
                e
            },
            None => {
                return None;
            },
        }
    } else {
        match skip_value_x(s, k) {
            Some(e) => e,
            None => {
                return None;
            },
        }
    };
    proof {
        lemma_body_member(s@, k as int, key@, body_partial_view(old_acc));
    }
    let m = scan_ws(s, e0);
    if m < s.len() && s[m] == 44 {
        body_members_x(s, m + 1, acc)
    } else if m < s.len() && s[m] == 125 {
        match (
            acc.error_type,
            acc.elapsed_time,
            acc.method,
            acc.phase,
            acc.protocol,
            acc.referrer,
            acc.sampling_fraction,
            acc.server_ip,
            acc.status_code,
        ) {
            (
                Some(error_type),
                Some(elapsed_time),
                Some(method),
                Some(phase),
                Some(protocol),
                Some(referrer),
                Some(sampling_fraction),
                Some(server_ip),
                Some(status_code),
            ) => Some(
                (
                    ReportBody {
                        error_type,
                        elapsed_time,
                        method,
                        phase,
                        protocol,
                        referrer,
                        sampling_fraction,
                        server_ip,
                        status_code,
                    },
                    m + 1,
                ),
            ),
            _ => None,
        }
    } else {
        None
    }
}

/// Read a report body object.
fn body_x(s: &[u8], i: usize) -> (r: Option<(ReportBody, usize)>)
    requires
        i <= s@.len(),
    ensures
        r is Some <==> body_at(s@, i as int) is Some,
        r matches Some(p) ==> body_at(s@, i as int) == Some((p.0@, p.1 as int)) && p.1
            <= s@.len(),
{
    let i1 = match tok_x(s, i, 123) {
        Some(v) => v,
        None => {
            return None;
        },
    };
    let j = scan_ws(s, i1);
    if j < s.len() && s[j] == 125 {
        return None;
    }
    let acc = BodyPartial {
        error_type: None,
        elapsed_time: None,
        method: None,
        phase: None,
        protocol: None,
        referrer: None,
        sampling_fraction: None,
        server_ip: None,
        status_code: None,
    };
    body_members_x(s, i1, acc)
}

/// The report members read so far.
struct ReportPartial {
    user_agent: Option<Vec<u8>>,
    url: Option<Vec<u8>>,
    report_type: Option<Vec<u8>>,
    age: Option<u64>,
    body: Option<ReportBody>,
}

spec fn report_partial_view(a: ReportPartial) -> ReportAcc {
    ReportAcc {
        user_agent: opt_bytes(a.user_agent),
        url: opt_bytes(a.url),
        report_type: opt_bytes(a.report_type),
        age: match a.age {
            Some(v) => Some(v as int),
            None => None,
        },
        body: match a.body {
            Some(v) => Some(v@),
            None => None,
        },
    }
}

/// Read the members of a report object.
#[verifier::rlimit(60)]
fn report_members_x(s: &[u8], i: usize, acc: ReportPartial) -> (r: Option<(Report, usize)>)
    requires
        i <= s@.len(),
    ensures
        r is Some <==> report_members(s@, i as int, report_partial_view(acc)) is Some,
        r matches Some(p) ==> report_members(s@, i as int, report_partial_view(acc)) == Some(
            (p.0@, p.1 as int),
        ) && p.1 <= s@.len(),
    decreases s@.len() - i,
{
    let ghost old_acc = acc;
    let mut acc = acc;
    let (key, j) = match jstring_x(s, i) {
        Some(v) => v,
        None => {
            return None;
        },
    };
    let k = match tok_x(s, j, 58) {
        Some(v) => v,
        None => {
            return None;
        },
    };
    proof {
        lemma_jstring(s@, i as int);
        lemma_tok(s@, j as int, 58);
    }
    let e0: usize = if bytes_eq(key.as_slice(), "user_agent".as_bytes()) {
        if acc.user_agent.is_some() {
            return None;
        }
        match jstring_x(s, k) {
            Some((v, e)) => {
                acc.user_agent = Some(v);
                e
            },
            None => {
                return None;
            },
        }
    } else if bytes_eq(key.as_slice(), "url".as_bytes()) {
        if acc.url.is_some() {
            return None;
        }
        match jstring_x(s, k) {
            Some((v, e)) => {
                acc.url = Some(v);
                e
            },
            None => {
                return None;
            },
        }
    } else if bytes_eq(key.as_slice(), "type".as_bytes()) {
        if acc.report_type.is_some() {
            return None;
        }
        match jstring_x(s, k) {
            Some((v, e)) => {
                acc.report_type = Some(v);
                e
            },
            None => {
                return None;
            },
        }
    } else if bytes_eq(key.as_slice(), "age".as_bytes()) {
        if acc.age.is_some() {
            return None;
        }
        match u64_x(s, k) {
            Some((v, e)) => {
                acc.age = Some(v);
                e
            },
            None => {
                return None;
            },
        }
    } else if bytes_eq(key.as_slice(), "body".as_bytes()) {
        if acc.body.is_some() {
            return None;
        }
        match body_x(s, k) {
            Some((v, e)) => {
                acc.body = Some(v);
                e
            },
            None => {
                return None;
            },
        }
    } else {
        match skip_value_x(s, k) {
            Some(e) => e,
            None => {
                return None;
            },
        }
    };
    proof {
        lemma_report_member(s@, k as int, key@, report_partial_view(old_acc));
    }
    let m = scan_ws(s, e0);
    if m < s.len() && s[m] == 44 {
        report_members_x(s, m + 1, acc)
    } else if m < s.len() && s[m] == 125 {
        match (acc.user_agent, acc.url, acc.report_type, acc.age, acc.body) {
            (Some(user_agent), Some(url), Some(report_type), Some(age), Some(body)) => Some(
                (Report { user_agent, url, report_type, age, body }, m + 1),
            ),
            _ => None,
        }
    } else {
        None
    }
}

/// Read one report object.
fn report_x(s: &[u8], i: usize) -> (r: Option<(Report, usize)>)
    requires
        i <= s@.len(),
    ensures
        r is Some <==> report_at(s@, i as int) is Some,
        r matches Some(p) ==> report_at(s@, i as int) == Some((p.0@, p.1 as int)) && p.1
            <= s@.len(),
{
    let i1 = match tok_x(s, i, 123) {
        Some(v) => v,
        None => {
            return None;
        },
    };
    let j = scan_ws(s, i1);
    if j < s.len() && s[j] == 125 {
        return None;
    }
    let acc = ReportPartial { user_agent: None, url: None, report_type: None, age: None, body: None };
    report_members_x(s, i1, acc)
}

/// The views of a sequence of decoded reports.
pub open spec fn reports_view(v: Seq<Report>) -> Seq<ReportView> {
    Seq::new(v.len(), |i: int| v[i]@)
}

/// Concatenating onto the front of an element-list parse.
pub open spec fn prefix_reports(p: Seq<ReportView>, r: Option<(Seq<ReportView>, int)>) -> Option<
    (Seq<ReportView>, int),
> {
    match r {
        Some((t, j)) => Some((p + t, j)),
        None => None,
    }
}

pub proof fn lemma_prefix_reports_assoc(
    p: Seq<ReportView>,
    q: Seq<ReportView>,
    r: Option<(Seq<ReportView>, int)>,
)
    ensures
        prefix_reports(p, prefix_reports(q, r)) == prefix_reports(p + q, r),
{
    match r {
        Some((t, j)) => {
            assert(p + (q + t) =~= (p + q) + t);
        },
        None => {},
    }
}

/// A batch that cannot be decoded; the batch is rejected as a whole.
#[derive(Debug)]
pub struct BatchDecodeError;

/// Decode a submitted batch. Atomic: returns `Ok` with every report of the
/// array, in submission order, exactly when the whole input is a valid
/// batch; any structurally invalid member, or trailing content, fails the
/// whole decode and no partial sequence is returned.
pub fn decode(input: &[u8]) -> (r: Result<Vec<Report>, BatchDecodeError>)
    ensures
        r is Ok <==> batch_at(input@) is Some,
        r matches Ok(v) ==> batch_at(input@) == Some(reports_view(v@)),
{
    let i1 = match tok_x(input, 0, 91) {
        Some(v) => v,
        None => {
            return Err(BatchDecodeError);
        },
    };
    let j = scan_ws(input, i1);
    if j < input.len() && input[j] == 93 {
        let t = scan_ws(input, j + 1);
        if t == input.len() {
            let empty: Vec<Report> = Vec::new();
            proof {
                assert(reports_view(empty@) =~= Seq::<ReportView>::empty());
            }
            return Ok(empty);
        } else {
            return Err(BatchDecodeError);
        }
    }
    let mut acc: Vec<Report> = Vec::new();
    let mut cur = i1;
    loop
        invariant
            i1 <= s_len(input@),
            cur <= s_len(input@),
            j == ws_to(input@, i1 as int),
            !(j < input@.len() && input@[j as int] == 93),
            tok(input@, 0, 91) == Some(i1 as int),
            elems_at(input@, i1 as int) == prefix_reports(
                reports_view(acc@),
                elems_at(input@, cur as int),
            ),
        decreases input@.len() - cur,
    {
        let (rep, nxt) = match report_x(input, cur) {
            Some(v) => v,
            None => {
                return Err(BatchDecodeError);
            },
        };
        proof {
            lemma_report_at(input@, cur as int);
        }
        let k = scan_ws(input, nxt);
        if k < input.len() && input[k] == 44 {
            proof {
                assert(elems_at(input@, cur as int) == with_report(
                    rep@,
                    elems_at(input@, k as int + 1),
                ));
                assert(with_report(rep@, elems_at(input@, k as int + 1)) == prefix_reports(
                    seq![rep@],
                    elems_at(input@, k as int + 1),
                ));
                lemma_prefix_reports_assoc(
                    reports_view(acc@),
                    seq![rep@],
                    elems_at(input@, k as int + 1),
                );
                assert(reports_view(acc@.push(rep)) =~= reports_view(acc@) + seq![rep@]);
            }
            acc.push(rep);
            cur = k + 1;
        } else if k < input.len() && input[k] == 93 {
            proof {
                assert(elems_at(input@, cur as int) == Some((seq![rep@], k as int + 1)));
                assert(reports_view(acc@.push(rep)) =~= reports_view(acc@) + seq![rep@]);
            }
            acc.push(rep);
            let t = scan_ws(input, k + 1);
            if t == input.len() {
                return Ok(acc);
            } else {
                return Err(BatchDecodeError);
            }
        } else {
            return Err(BatchDecodeError);
        }
    }
}

/// The length of a byte sequence, named for loop invariants.
pub open spec fn s_len(s: Seq<u8>) -> int {
    s.len() as int
}

} // verus!
