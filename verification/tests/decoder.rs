//! Tests for the report batch decoder.

use nel_reporter::jsonin::decode;

const ONE_REPORT: &str = r#"[{"user_agent":"x","url":"https://a.test/","type":"network-error","age":10,"body":{"type":"dns.name_not_resolved","elapsed_time":100,"method":"GET","phase":"dns","protocol":"http/1.1","referrer":"","sampling_fraction":1.0,"server_ip":"192.0.2.1","status_code":0}}]"#;

fn report_json(url: &str) -> String {
    let mut s = String::new();
    s.push_str(r#"{"user_agent":"ua","url":""#);
    s.push_str(url);
    s.push_str(
        r#"","type":"network-error","age":7,"body":{"type":"tcp.timed_out","elapsed_time":-1,"method":"POST","phase":"connection","protocol":"h2","referrer":"r","sampling_fraction":0.5,"server_ip":"198.51.100.7","status_code":502}}"#,
    );
    s
}

#[test]
fn empty_array_decodes_to_nothing() {
    let got = decode(b"[]").unwrap();
    assert_eq!(got.len(), 0);
}

#[test]
fn single_report_fields() {
    let got = decode(ONE_REPORT.as_bytes()).unwrap();
    assert_eq!(got.len(), 1);
    let r = &got[0];
    assert_eq!(r.user_agent, b"x".to_vec());
    assert_eq!(r.url, b"https://a.test/".to_vec());
    assert_eq!(r.report_type, b"network-error".to_vec());
    assert_eq!(r.age, 10);
    assert_eq!(r.body.error_type, b"dns.name_not_resolved".to_vec());
    assert_eq!(r.body.elapsed_time, 100);
    assert_eq!(r.body.method, b"GET".to_vec());
    assert_eq!(r.body.phase, b"dns".to_vec());
    assert_eq!(r.body.protocol, b"http/1.1".to_vec());
    assert_eq!(r.body.referrer, b"".to_vec());
    assert_eq!(r.body.sampling_fraction, b"1.0".to_vec());
    assert_eq!(r.body.server_ip, b"192.0.2.1".to_vec());
    assert_eq!(r.body.status_code, 0);
}

#[test]
fn order_is_submission_order() {
    let batch = format!("[{},{}]", report_json("https://one.test/"), report_json("https://two.test/"));
    let got = decode(batch.as_bytes()).unwrap();
    assert_eq!(got.len(), 2);
    assert_eq!(got[0].url, b"https://one.test/".to_vec());
    assert_eq!(got[1].url, b"https://two.test/".to_vec());
}

#[test]
fn whitespace_between_tokens_is_allowed() {
    let batch = format!(" [ {} ] ", report_json("https://ws.test/").replace("\":", "\" : "));
    let got = decode(batch.as_bytes()).unwrap();
    assert_eq!(got.len(), 1);
    assert_eq!(got[0].url, b"https://ws.test/".to_vec());
}

#[test]
fn one_invalid_member_fails_the_whole_batch() {
    // The second member lacks its body: nothing is returned, not even the
    // valid first member.
    let batch = format!(
        "[{},{}]",
        report_json("https://ok.test/"),
        r#"{"user_agent":"ua","url":"u","type":"t","age":1}"#,
    );
    assert!(decode(batch.as_bytes()).is_err());
}

#[test]
fn not_json_is_rejected() {
    assert!(decode(b"not json").is_err());
}

#[test]
fn wrong_top_level_shape_is_rejected() {
    assert!(decode(b"{}").is_err());
    assert!(decode(b"\"x\"").is_err());
    assert!(decode(b"").is_err());
}

#[test]
fn trailing_content_is_rejected() {
    assert!(decode(b"[] x").is_err());
    let batch = format!("[{}] ,", report_json("https://t.test/"));
    assert!(decode(batch.as_bytes()).is_err());
}

#[test]
fn string_escapes_are_decoded() {
    let batch = ONE_REPORT.replace(r#""user_agent":"x""#, r#""user_agent":"a\n\"b\"A\\""#);
    let got = decode(batch.as_bytes()).unwrap();
    assert_eq!(got[0].user_agent, b"a\n\"b\"A\\".to_vec());
}

#[test]
fn non_ascii_unicode_escape_is_decoded() {
    let batch = ONE_REPORT.replace(r#""user_agent":"x""#, r#""user_agent":"\u00e9""#);
    let got = decode(batch.as_bytes()).unwrap();
    assert_eq!(got[0].user_agent, "\u{e9}".as_bytes().to_vec());
}

#[test]
fn surrogate_pair_escape_is_decoded() {
    let batch = ONE_REPORT.replace(r#""user_agent":"x""#, r#""user_agent":"\ud83d\ude00""#);
    let got = decode(batch.as_bytes()).unwrap();
    assert_eq!(got[0].user_agent, "\u{1f600}".as_bytes().to_vec());
}

#[test]
fn lone_surrogate_escape_is_rejected() {
    let low = ONE_REPORT.replace(r#""user_agent":"x""#, r#""user_agent":"\udc00""#);
    assert!(decode(low.as_bytes()).is_err());
    let high = ONE_REPORT.replace(r#""user_agent":"x""#, r#""user_agent":"\ud800x""#);
    assert!(decode(high.as_bytes()).is_err());
}

#[test]
fn members_in_any_order_are_accepted() {
    let mut batch = String::new();
    batch.push_str(r#"[{"age":10,"body":{"status_code":0,"sampling_fraction":1.0,"type":"dns.name_not_resolved","#);
    batch.push_str(r#""elapsed_time":100,"server_ip":"192.0.2.1","method":"GET","referrer":"","phase":"dns","#);
    batch.push_str(r#""protocol":"http/1.1"},"type":"network-error","url":"https://a.test/","user_agent":"x"}]"#);
    let got = decode(batch.as_bytes()).unwrap();
    assert_eq!(got.len(), 1);
    assert_eq!(got[0].user_agent, b"x".to_vec());
    assert_eq!(got[0].age, 10);
    assert_eq!(got[0].body.error_type, b"dns.name_not_resolved".to_vec());
    assert_eq!(got[0].body.status_code, 0);
}

#[test]
fn unknown_members_are_skipped() {
    let batch = ONE_REPORT.replace(
        r#""user_agent":"x""#,
        r#""extra":{"nested":[1,"s",true,null,-2.5e3],"empty":{},"also":[]},"user_agent":"x","flag":false"#,
    );
    let got = decode(batch.as_bytes()).unwrap();
    assert_eq!(got[0].user_agent, b"x".to_vec());
}

#[test]
fn malformed_unknown_member_fails_the_batch() {
    let batch = ONE_REPORT.replace(r#""user_agent":"x""#, r#""extra":[1,,2],"user_agent":"x""#);
    assert!(decode(batch.as_bytes()).is_err());
}

#[test]
fn duplicate_member_is_rejected() {
    let batch = ONE_REPORT.replace(r#""user_agent":"x""#, r#""user_agent":"x","user_agent":"y""#);
    assert!(decode(batch.as_bytes()).is_err());
}

#[test]
fn missing_member_is_rejected() {
    let batch = ONE_REPORT.replace(r#""user_agent":"x","#, "");
    assert!(decode(batch.as_bytes()).is_err());
}

#[test]
fn ascii_unicode_escape_is_decoded() {
    let batch = ONE_REPORT.replace(r#""user_agent":"x""#, r#""user_agent":"A\u007a""#);
    let got = decode(batch.as_bytes()).unwrap();
    assert_eq!(got[0].user_agent, b"Az".to_vec());
}

#[test]
fn raw_utf8_in_strings_passes_through() {
    let batch = ONE_REPORT.replace(r#""user_agent":"x""#, "\"user_agent\":\"caf\u{e9}\"");
    let got = decode(batch.as_bytes()).unwrap();
    assert_eq!(got[0].user_agent, "caf\u{e9}".as_bytes().to_vec());
}

#[test]
fn negative_elapsed_time_is_kept() {
    let batch = format!("[{}]", report_json("https://n.test/"));
    let got = decode(batch.as_bytes()).unwrap();
    assert_eq!(got[0].body.elapsed_time, -1);
}

#[test]
fn fractional_age_is_rejected() {
    let batch = ONE_REPORT.replace(r#""age":10"#, r#""age":10.5"#);
    assert!(decode(batch.as_bytes()).is_err());
}

#[test]
fn age_overflow_is_rejected() {
    let batch = ONE_REPORT.replace(r#""age":10"#, r#""age":99999999999999999999"#);
    assert!(decode(batch.as_bytes()).is_err());
}

#[test]
fn leading_zero_integer_is_rejected() {
    let batch = ONE_REPORT.replace(r#""age":10"#, r#""age":010"#);
    assert!(decode(batch.as_bytes()).is_err());
}

#[test]
fn sampling_fraction_token_is_kept_verbatim() {
    let batch = ONE_REPORT.replace(r#""sampling_fraction":1.0"#, r#""sampling_fraction":2.5e-2"#);
    let got = decode(batch.as_bytes()).unwrap();
    assert_eq!(got[0].body.sampling_fraction, b"2.5e-2".to_vec());
}
