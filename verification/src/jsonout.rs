//! Serializer for the log wire format.
//!
//! One log line is one JSON object, `{"timestamp": ..., "client": {...},
//! "report": {...}}`, with the fields in a fixed order. The spec functions
//! here are the wire contract: [`render_log_line`] returns exactly
//! [`logline_json`] of its argument.

use vstd::prelude::*;
use vstd::utf8::encode_utf8;
use crate::ip::dec_of;
use crate::ip::hex_digit;
use crate::model::ClientDataView;
use crate::model::LogLine;
use crate::model::LogLineView;
use crate::model::ReportBodyView;
use crate::model::ReportView;
use crate::model::ClientData;
use crate::model::ReportBody;
use crate::model::Report;

verus! {

/// The UTF-8 bytes of a piece of literal text.
pub open spec fn lit(s: Seq<char>) -> Seq<u8> {
    encode_utf8(s)
}

/// The JSON escape of one string byte. Quote and backslash take their
/// two-byte escapes, the named control characters their short forms, any
/// other control byte a `\u00..` escape; every other byte stands as it is.
pub open spec fn esc_byte(b: u8) -> Seq<u8> {
    if b == 34 {
        seq![92u8, 34u8]
    } else if b == 92 {
        seq![92u8, 92u8]
    } else if b == 8 {
        seq![92u8, 98u8]
    } else if b == 12 {
        seq![92u8, 102u8]
    } else if b == 10 {
        seq![92u8, 110u8]
    } else if b == 13 {
        seq![92u8, 114u8]
    } else if b == 9 {
        seq![92u8, 116u8]
    } else if b < 32 {
        seq![92u8, 117u8, 48u8, 48u8, hex_digit((b >> 4) as nat), hex_digit((b & 0x0f) as nat)]
    } else {
        seq![b]
    }
}

/// The JSON escape of a whole string.
pub open spec fn json_escape(s: Seq<u8>) -> Seq<u8>
    decreases s.len(),
{
    if s.len() == 0 {
        Seq::empty()
    } else {
        esc_byte(s[0]) + json_escape(s.drop_first())
    }
}

/// A JSON string token: the escaped content between double quotes.
pub open spec fn jstr(s: Seq<u8>) -> Seq<u8> {
    seq![34u8] + json_escape(s) + seq![34u8]
}

/// A JSON integer token, decimal with a leading minus for negatives.
pub open spec fn int_token(v: int) -> Seq<u8> {
    if v < 0 {
        seq![45u8] + dec_of((-v) as nat)
    } else {
        dec_of(v as nat)
    }
}

/// The JSON object for a report body. `sampling_fraction` holds a raw JSON
/// number token and is emitted verbatim.
pub open spec fn body_json(b: ReportBodyView) -> Seq<u8> {
    lit("{\"type\":"@) + jstr(b.error_type) + lit(",\"elapsed_time\":"@) + int_token(b.elapsed_time)
        + lit(",\"method\":"@) + jstr(b.method) + lit(",\"phase\":"@) + jstr(b.phase) + lit(
        ",\"protocol\":"@,
    ) + jstr(b.protocol) + lit(",\"referrer\":"@) + jstr(b.referrer) + lit(
        ",\"sampling_fraction\":"@,
    ) + b.sampling_fraction + lit(",\"server_ip\":"@) + jstr(b.server_ip) + lit(
        ",\"status_code\":"@,
    ) + int_token(b.status_code) + lit("}"@)
}

/// The JSON object for one report.
pub open spec fn report_json(r: ReportView) -> Seq<u8> {
    lit("{\"user_agent\":"@) + jstr(r.user_agent) + lit(",\"url\":"@) + jstr(r.url) + lit(
        ",\"type\":"@,
    ) + jstr(r.report_type) + lit(",\"age\":"@) + int_token(r.age) + lit(",\"body\":"@) + body_json(
        r.body,
    ) + lit("}"@)
}

/// The JSON object for the resolved client context. Latitude and longitude
/// hold raw JSON number tokens and are emitted verbatim.
pub open spec fn client_json(c: ClientDataView) -> Seq<u8> {
    lit("{\"client_ip\":"@) + jstr(c.client_ip) + lit(",\"client_user_agent\":"@) + jstr(
        c.client_user_agent,
    ) + lit(",\"client_asn\":"@) + int_token(c.client_asn) + lit(",\"client_asname\":"@) + jstr(
        c.client_asname,
    ) + lit(",\"client_city\":"@) + jstr(c.client_city) + lit(",\"client_region\":"@) + jstr(
        c.client_region,
    ) + lit(",\"client_country_code\":"@) + jstr(c.client_country_code) + lit(
        ",\"client_continent_code\":"@,
    ) + jstr(c.client_continent_code) + lit(",\"client_latitude\":"@) + c.client_latitude + lit(
        ",\"client_longitude\":"@,
    ) + c.client_longitude + lit("}"@)
}

/// The JSON object for one whole log line.
pub open spec fn logline_json(l: LogLineView) -> Seq<u8> {
    lit("{\"timestamp\":"@) + int_token(l.timestamp) + lit(",\"client\":"@) + client_json(l.client)
        + lit(",\"report\":"@) + report_json(l.report) + lit("}"@)
}

/// Splitting a string splits its escape.
pub proof fn lemma_json_escape_append(a: Seq<u8>, b: Seq<u8>)
    ensures
        json_escape(a + b) == json_escape(a) + json_escape(b),
    decreases a.len(),
{
    if a.len() == 0 {
        assert(a + b =~= b);
        assert(json_escape(a) + json_escape(b) =~= json_escape(b));
    } else {
        assert((a + b).drop_first() =~= a.drop_first() + b);
        lemma_json_escape_append(a.drop_first(), b);
        assert(json_escape(a + b) =~= json_escape(a) + json_escape(b));
    }
}

/// Append literal text to the output.
fn push_lit(out: &mut Vec<u8>, s: &str)
    ensures
        final(out)@ == old(out)@ + lit(s@),
{
    let bs: &[u8] = s.as_bytes();
    let mut i: usize = 0;
    while i < bs.len()
        invariant
            i <= bs@.len(),
            out@ == old(out)@ + bs@.take(i as int),
        decreases bs@.len() - i,
    {
        let b: u8 = bs[i];
        out.push(b);
        assert(out@ =~= old(out)@ + bs@.take(i as int + 1));
        i = i + 1;
    }
    assert(bs@.take(bs@.len() as int) =~= bs@);
}

/// Append the escape of one byte.
fn push_esc_byte(out: &mut Vec<u8>, b: u8)
    ensures
        final(out)@ == old(out)@ + esc_byte(b),
{
    if b == 34 {
        out.push(92);
        out.push(34);
    } else if b == 92 {
        out.push(92);
        out.push(92);
    } else if b == 8 {
        out.push(92);
        out.push(98);
    } else if b == 12 {
        out.push(92);
        out.push(102);
    } else if b == 10 {
        out.push(92);
        out.push(110);
    } else if b == 13 {
        out.push(92);
        out.push(114);
    } else if b == 9 {
        out.push(92);
        out.push(116);
    } else if b < 32 {
        out.push(92);
        out.push(117);
        out.push(48);
        out.push(48);
        let hi: u8 = b >> 4;
        let lo: u8 = b & 0x0f;
        assert(hi < 10 && lo < 16) by (bit_vector)
            requires
                b < 32,
                hi == b >> 4,
                lo == b & 0x0f,
        ;
        out.push(48 + hi);
        let d: u8 = if lo < 10 {
            48 + lo
        } else {
            87 + lo
        };
        out.push(d);
    } else {
        out.push(b);
    }
    assert(final(out)@ =~= old(out)@ + esc_byte(b));
}

/// Append a JSON string token holding `s`.
fn push_jstr(out: &mut Vec<u8>, s: &Vec<u8>)
    ensures
        final(out)@ == old(out)@ + jstr(s@),
{
    out.push(34);
    let mut i: usize = 0;
    while i < s.len()
        invariant
            i <= s@.len(),
            out@ == old(out)@ + seq![34u8] + json_escape(s@.take(i as int)),
        decreases s@.len() - i,
    {
        let b: u8 = s[i];
        push_esc_byte(out, b);
        proof {
            assert(s@.take(i as int + 1) =~= s@.take(i as int) + seq![s@[i as int]]);
            lemma_json_escape_append(s@.take(i as int), seq![s@[i as int]]);
            reveal_with_fuel(json_escape, 2);
            assert(seq![s@[i as int]].drop_first() =~= Seq::<u8>::empty());
            assert(json_escape(seq![s@[i as int]]) =~= esc_byte(s@[i as int]));
        }
        assert(out@ =~= old(out)@ + seq![34u8] + json_escape(s@.take(i as int + 1)));
        i = i + 1;
    }
    assert(s@.take(s@.len() as int) =~= s@);
    out.push(34);
    assert(final(out)@ =~= old(out)@ + jstr(s@));
}

/// Append a raw byte field, such as a stored JSON number token.
fn push_raw(out: &mut Vec<u8>, s: &Vec<u8>)
    ensures
        final(out)@ == old(out)@ + s@,
{
    let mut i: usize = 0;
    while i < s.len()
        invariant
            i <= s@.len(),
            out@ == old(out)@ + s@.take(i as int),
        decreases s@.len() - i,
    {
        let b: u8 = s[i];
        out.push(b);
        assert(out@ =~= old(out)@ + s@.take(i as int + 1));
        i = i + 1;
    }
    assert(s@.take(s@.len() as int) =~= s@);
}

/// Append a JSON integer token.
fn push_int_i64(out: &mut Vec<u8>, v: i64)
    ensures
        final(out)@ == old(out)@ + int_token(v as int),
{
    if v >= 0 {
        crate::ip::push_dec_u64(out, v as u64);
    } else {
        out.push(45);
        let m: u64 = (-(v as i128)) as u64;
        assert(m as nat == (-(v as int)) as nat);
        crate::ip::push_dec_u64(out, m);
        assert(final(out)@ =~= old(out)@ + int_token(v as int));
    }
}

/// Append a JSON integer token for an unsigned value.
fn push_int_u64(out: &mut Vec<u8>, v: u64)
    ensures
        final(out)@ == old(out)@ + int_token(v as int),
{
    crate::ip::push_dec_u64(out, v);
}

/// The JSON object bytes for a report body.
fn body_bytes(b: &ReportBody) -> (r: Vec<u8>)
    ensures
        r@ == body_json(b@),
{
    let mut out: Vec<u8> = Vec::new();
    push_lit(&mut out, "{\"type\":");
    assert(out@ =~= lit("{\"type\":"@));
    push_jstr(&mut out, &b.error_type);
    push_lit(&mut out, ",\"elapsed_time\":");
    push_int_i64(&mut out, b.elapsed_time);
    push_lit(&mut out, ",\"method\":");
    push_jstr(&mut out, &b.method);
    push_lit(&mut out, ",\"phase\":");
    push_jstr(&mut out, &b.phase);
    push_lit(&mut out, ",\"protocol\":");
    push_jstr(&mut out, &b.protocol);
    push_lit(&mut out, ",\"referrer\":");
    push_jstr(&mut out, &b.referrer);
    push_lit(&mut out, ",\"sampling_fraction\":");
    push_raw(&mut out, &b.sampling_fraction);
    push_lit(&mut out, ",\"server_ip\":");
    push_jstr(&mut out, &b.server_ip);
    push_lit(&mut out, ",\"status_code\":");
    push_int_u64(&mut out, b.status_code);
    push_lit(&mut out, "}");
    out
}

/// The JSON object bytes for one report.
fn report_bytes(r: &Report) -> (res: Vec<u8>)
    ensures
        res@ == report_json(r@),
{
    let mut out: Vec<u8> = Vec::new();
    push_lit(&mut out, "{\"user_agent\":");
    assert(out@ =~= lit("{\"user_agent\":"@));
    push_jstr(&mut out, &r.user_agent);
    push_lit(&mut out, ",\"url\":");
    push_jstr(&mut out, &r.url);
    push_lit(&mut out, ",\"type\":");
    push_jstr(&mut out, &r.report_type);
    push_lit(&mut out, ",\"age\":");
    push_int_u64(&mut out, r.age);
    push_lit(&mut out, ",\"body\":");
    let bv = body_bytes(&r.body);
    push_raw(&mut out, &bv);
    push_lit(&mut out, "}");
    out
}

/// The JSON object bytes for the client context.
fn client_bytes(c: &ClientData) -> (r: Vec<u8>)
    ensures
        r@ == client_json(c@),
{
    let mut out: Vec<u8> = Vec::new();
    push_lit(&mut out, "{\"client_ip\":");
    assert(out@ =~= lit("{\"client_ip\":"@));
    push_jstr(&mut out, &c.client_ip);
    push_lit(&mut out, ",\"client_user_agent\":");
    push_jstr(&mut out, &c.client_user_agent);
    push_lit(&mut out, ",\"client_asn\":");
    push_int_u64(&mut out, c.client_asn as u64);
    push_lit(&mut out, ",\"client_asname\":");
    push_jstr(&mut out, &c.client_asname);
    push_lit(&mut out, ",\"client_city\":");
    push_jstr(&mut out, &c.client_city);
    push_lit(&mut out, ",\"client_region\":");
    push_jstr(&mut out, &c.client_region);
    push_lit(&mut out, ",\"client_country_code\":");
    push_jstr(&mut out, &c.client_country_code);
    push_lit(&mut out, ",\"client_continent_code\":");
    push_jstr(&mut out, &c.client_continent_code);
    push_lit(&mut out, ",\"client_latitude\":");
    push_raw(&mut out, &c.client_latitude);
    push_lit(&mut out, ",\"client_longitude\":");
    push_raw(&mut out, &c.client_longitude);
    push_lit(&mut out, "}");
    out
}

/// Serialize one log record to its wire form. Total: every record has a
/// rendering, so no record is ever dropped for a serialization failure.
pub fn render_log_line(l: &LogLine) -> (r: Vec<u8>)
    ensures
        r@ == logline_json(l@),
{
    let mut out: Vec<u8> = Vec::new();
    push_lit(&mut out, "{\"timestamp\":");
    assert(out@ =~= lit("{\"timestamp\":"@));
    push_int_i64(&mut out, l.timestamp);
    push_lit(&mut out, ",\"client\":");
    let cv = client_bytes(&l.client);
    push_raw(&mut out, &cv);
    push_lit(&mut out, ",\"report\":");
    let rv = report_bytes(&l.report);
    push_raw(&mut out, &rv);
    push_lit(&mut out, "}");
    out
}

} // verus!
