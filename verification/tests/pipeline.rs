//! Tests for context resolution, record assembly, serialization and the
//! whole report pipeline.

use nel_reporter::ip::IpAddress;
use nel_reporter::jsonout::render_log_line;
use nel_reporter::model::{ClientData, LogLine, Report, ReportBody};
use nel_reporter::pipeline::{
    no_content_headers, not_found_body, process_batch, resolve, route, GeoData, ResolveError,
    RouteDecision, UserAgent, STATUS_NOT_FOUND, STATUS_NO_CONTENT,
};

fn b(s: &str) -> Vec<u8> {
    s.as_bytes().to_vec()
}

fn sample_geo() -> GeoData {
    GeoData {
        asn: 64496,
        as_name: b("Example Carrier"),
        city: b("Berlin"),
        region: b("BE"),
        country_code: b("DE"),
        continent_code: b("EU"),
        latitude: b("52.52"),
        longitude: b("13.405"),
    }
}

fn sample_ua() -> UserAgent {
    UserAgent { family: b("Chrome"), major: b("91"), minor: b("0"), patch: b("4472") }
}

fn sample_report() -> Report {
    Report {
        user_agent: b("x"),
        url: b("https://a.test/"),
        report_type: b("network-error"),
        age: 10,
        body: ReportBody {
            error_type: b("dns.name_not_resolved"),
            elapsed_time: 100,
            method: b("GET"),
            phase: b("dns"),
            protocol: b("http/1.1"),
            referrer: b(""),
            sampling_fraction: b("1.0"),
            server_ip: b("192.0.2.1"),
            status_code: 0,
        },
    }
}

fn sample_client() -> ClientData {
    resolve(&IpAddress::V4([198, 51, 100, 37]), Some(sample_geo()), Some(sample_ua())).unwrap()
}

const SCENARIO_BODY: &str = r#"[{"user_agent":"x","url":"https://a.test/","type":"network-error","age":10,"body":{"type":"dns.name_not_resolved","elapsed_time":100,"method":"GET","phase":"dns","protocol":"http/1.1","referrer":"","sampling_fraction":1.0,"server_ip":"192.0.2.1","status_code":0}}]"#;

#[test]
fn resolve_requires_geo_data() {
    let r = resolve(&IpAddress::V4([198, 51, 100, 37]), None, Some(sample_ua()));
    assert_eq!(r.unwrap_err(), ResolveError::GeoLookupUnavailable);
}

#[test]
fn resolve_requires_parsed_user_agent() {
    let r = resolve(&IpAddress::V4([198, 51, 100, 37]), Some(sample_geo()), None);
    assert_eq!(r.unwrap_err(), ResolveError::UserAgentParseError);
}

#[test]
fn resolve_truncates_ip_and_normalizes_identity() {
    let c = sample_client();
    assert_eq!(c.client_ip, b("198.51.100.32/28"));
    assert_eq!(c.client_user_agent, b("Chrome 91.0.4472"));
    assert_eq!(c.client_asn, 64496);
    assert_eq!(c.client_asname, b("Example Carrier"));
    assert_eq!(c.client_country_code, b("DE"));
}

#[test]
fn assembled_record_keeps_its_parts() {
    let record = LogLine::new(sample_report(), sample_client(), 1_623_000_000);
    assert_eq!(record.timestamp, 1_623_000_000);
    assert_eq!(record.client.client_ip, b("198.51.100.32/28"));
    assert_eq!(record.report.url, b("https://a.test/"));
}

#[test]
fn rendered_record_round_trips_field_for_field() {
    let record = LogLine::new(sample_report(), sample_client(), 1_623_000_000);
    let line = String::from_utf8(render_log_line(&record)).unwrap();
    let v: serde_json::Value = serde_json::from_str(&line).unwrap();
    assert_eq!(v["timestamp"], serde_json::Value::from(1_623_000_000_i64));
    let client = &v["client"];
    assert_eq!(client["client_ip"], serde_json::Value::from("198.51.100.32/28"));
    assert_eq!(client["client_user_agent"], serde_json::Value::from("Chrome 91.0.4472"));
    assert_eq!(client["client_asn"], serde_json::Value::from(64496));
    assert_eq!(client["client_asname"], serde_json::Value::from("Example Carrier"));
    assert_eq!(client["client_city"], serde_json::Value::from("Berlin"));
    assert_eq!(client["client_region"], serde_json::Value::from("BE"));
    assert_eq!(client["client_country_code"], serde_json::Value::from("DE"));
    assert_eq!(client["client_continent_code"], serde_json::Value::from("EU"));
    assert_eq!(client["client_latitude"], serde_json::Value::from(52.52));
    assert_eq!(client["client_longitude"], serde_json::Value::from(13.405));
    let report = &v["report"];
    assert_eq!(report["user_agent"], serde_json::Value::from("x"));
    assert_eq!(report["url"], serde_json::Value::from("https://a.test/"));
    assert_eq!(report["type"], serde_json::Value::from("network-error"));
    assert_eq!(report["age"], serde_json::Value::from(10));
    let body = &report["body"];
    assert_eq!(body["type"], serde_json::Value::from("dns.name_not_resolved"));
    assert_eq!(body["elapsed_time"], serde_json::Value::from(100));
    assert_eq!(body["method"], serde_json::Value::from("GET"));
    assert_eq!(body["phase"], serde_json::Value::from("dns"));
    assert_eq!(body["protocol"], serde_json::Value::from("http/1.1"));
    assert_eq!(body["referrer"], serde_json::Value::from(""));
    assert_eq!(body["sampling_fraction"], serde_json::Value::from(1.0));
    assert_eq!(body["server_ip"], serde_json::Value::from("192.0.2.1"));
    assert_eq!(body["status_code"], serde_json::Value::from(0));
}

#[test]
fn rendered_record_escapes_strings() {
    let mut report = sample_report();
    report.url = b("https://a.test/?q=\"x\\y\"\n");
    let record = LogLine::new(report, sample_client(), 7);
    let line = String::from_utf8(render_log_line(&record)).unwrap();
    let v: serde_json::Value = serde_json::from_str(&line).unwrap();
    assert_eq!(v["report"]["url"], serde_json::Value::from("https://a.test/?q=\"x\\y\"\n"));
}

#[test]
fn batch_of_two_writes_two_lines_with_one_client() {
    let two = format!("[{},{}]", &SCENARIO_BODY[1..SCENARIO_BODY.len() - 1], &SCENARIO_BODY[1..SCENARIO_BODY.len() - 1]);
    let lines = process_batch(
        two.as_bytes(),
        &IpAddress::V4([198, 51, 100, 37]),
        Some(sample_geo()),
        Some(sample_ua()),
        1_623_000_000,
    );
    assert_eq!(lines.len(), 2);
    let v0: serde_json::Value =
        serde_json::from_str(&String::from_utf8(lines[0].clone()).unwrap()).unwrap();
    let v1: serde_json::Value =
        serde_json::from_str(&String::from_utf8(lines[1].clone()).unwrap()).unwrap();
    assert_eq!(v0["client"], v1["client"]);
    assert_eq!(v0["timestamp"], v1["timestamp"]);
}

#[test]
fn failed_resolution_writes_no_lines() {
    let lines = process_batch(
        SCENARIO_BODY.as_bytes(),
        &IpAddress::V4([198, 51, 100, 37]),
        None,
        Some(sample_ua()),
        1_623_000_000,
    );
    assert_eq!(lines.len(), 0);
}

#[test]
fn post_report_scenario_writes_one_anonymized_line() {
    assert_eq!(route(b"POST", b"/report"), RouteDecision::SubmitReports);
    assert_eq!(STATUS_NO_CONTENT, 204);
    let lines = process_batch(
        SCENARIO_BODY.as_bytes(),
        &IpAddress::V4([198, 51, 100, 37]),
        Some(sample_geo()),
        Some(sample_ua()),
        1_623_000_000,
    );
    assert_eq!(lines.len(), 1);
    let v: serde_json::Value =
        serde_json::from_str(&String::from_utf8(lines[0].clone()).unwrap()).unwrap();
    assert_eq!(v["client"]["client_ip"], serde_json::Value::from("198.51.100.32/28"));
}

#[test]
fn options_report_scenario_answers_preflight_without_the_pipeline() {
    assert_eq!(route(b"OPTIONS", b"/report"), RouteDecision::CorsPreflight);
    assert_eq!(STATUS_NO_CONTENT, 204);
}

#[test]
fn bad_body_scenario_swallows_the_failure() {
    assert_eq!(route(b"POST", b"/report"), RouteDecision::SubmitReports);
    let lines = process_batch(
        b"not json",
        &IpAddress::V4([198, 51, 100, 37]),
        Some(sample_geo()),
        Some(sample_ua()),
        1_623_000_000,
    );
    assert_eq!(lines.len(), 0);
    assert_eq!(STATUS_NO_CONTENT, 204);
}

#[test]
fn unknown_path_scenario_is_not_found() {
    assert_eq!(route(b"GET", b"/unknown"), RouteDecision::NotFound);
    assert_eq!(route(b"GET", b"/report"), RouteDecision::NotFound);
    assert_eq!(route(b"POST", b"/other"), RouteDecision::NotFound);
    assert_eq!(STATUS_NOT_FOUND, 404);
    assert_eq!(not_found_body(), b("Not found"));
}

#[test]
fn no_content_headers_are_fixed() {
    let hs = no_content_headers();
    let want: Vec<(&str, &str)> = vec![
        ("Content-Type", "application/json"),
        ("Cache-Control", "no-cache, no-store, max-age=0, must-revalidate"),
        ("Access-Control-Allow-Origin", "*"),
        ("Access-Control-Allow-Headers", "Content-Type"),
        ("Access-Control-Allow-Methods", "POST, OPTIONS"),
        ("Connection", "keep-alive"),
    ];
    assert_eq!(hs.len(), want.len());
    for (got, expected) in hs.iter().zip(want.iter()) {
        assert_eq!(got.0, expected.0.as_bytes().to_vec());
        assert_eq!(got.1, expected.1.as_bytes().to_vec());
    }
}
