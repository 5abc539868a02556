//! Data model of the report pipeline: the decoded NEL report, the resolved
//! client context and the assembled log record.
//!
//! String-valued fields hold raw UTF-8 bytes exactly as they appeared on the
//! wire; fractional numbers (`sampling_fraction`, latitude, longitude) hold
//! the JSON number token verbatim, so values pass through unaltered.

use vstd::prelude::*;
use vstd::slice::slice_to_vec;

verus! {

/// The NEL-specific payload of one report.
#[derive(Debug)]
pub struct ReportBody {
    /// Serialized under the JSON key `type`.
    pub error_type: Vec<u8>,
    /// Milliseconds; negative signals "not available".
    pub elapsed_time: i64,
    pub method: Vec<u8>,
    pub phase: Vec<u8>,
    pub protocol: Vec<u8>,
    pub referrer: Vec<u8>,
    /// Raw JSON number token, passed through verbatim.
    pub sampling_fraction: Vec<u8>,
    pub server_ip: Vec<u8>,
    pub status_code: u64,
}

pub struct ReportBodyView {
    pub error_type: Seq<u8>,
    pub elapsed_time: int,
    pub method: Seq<u8>,
    pub phase: Seq<u8>,
    pub protocol: Seq<u8>,
    pub referrer: Seq<u8>,
    pub sampling_fraction: Seq<u8>,
    pub server_ip: Seq<u8>,
    pub status_code: int,
}

impl View for ReportBody {
    type V = ReportBodyView;

    open spec fn view(&self) -> ReportBodyView {
        ReportBodyView {
            error_type: self.error_type@,
            elapsed_time: self.elapsed_time as int,
            method: self.method@,
            phase: self.phase@,
            protocol: self.protocol@,
            sampling_fraction: self.sampling_fraction@,
            server_ip: self.server_ip@,
            status_code: self.status_code as int,
            referrer: self.referrer@,
        }
    }
}

impl Clone for ReportBody {
    fn clone(&self) -> (r: Self)
        ensures
            r@ == self@,
    {
        ReportBody {
            error_type: slice_to_vec(self.error_type.as_slice()),
            elapsed_time: self.elapsed_time,
            method: slice_to_vec(self.method.as_slice()),
            phase: slice_to_vec(self.phase.as_slice()),
            protocol: slice_to_vec(self.protocol.as_slice()),
            referrer: slice_to_vec(self.referrer.as_slice()),
            sampling_fraction: slice_to_vec(self.sampling_fraction.as_slice()),
            server_ip: slice_to_vec(self.server_ip.as_slice()),
            status_code: self.status_code,
        }
    }
}

/// One NEL report, as submitted by a user agent.
#[derive(Debug)]
pub struct Report {
    pub user_agent: Vec<u8>,
    pub url: Vec<u8>,
    /// Serialized under the JSON key `type`.
    pub report_type: Vec<u8>,
    /// Milliseconds since the reported event.
    pub age: u64,
    pub body: ReportBody,
}

pub struct ReportView {
    pub user_agent: Seq<u8>,
    pub url: Seq<u8>,
    pub report_type: Seq<u8>,
    pub age: int,
    pub body: ReportBodyView,
}

impl View for Report {
    type V = ReportView;

    open spec fn view(&self) -> ReportView {
        ReportView {
            user_agent: self.user_agent@,
            url: self.url@,
            report_type: self.report_type@,
            age: self.age as int,
            body: self.body@,
        }
    }
}

impl Clone for Report {
    fn clone(&self) -> (r: Self)
        ensures
            r@ == self@,
    {
        Report {
            user_agent: slice_to_vec(self.user_agent.as_slice()),
            url: slice_to_vec(self.url.as_slice()),
            report_type: slice_to_vec(self.report_type.as_slice()),
            age: self.age,
            body: self.body.clone(),
        }
    }
}

/// Resolved, privacy-adjusted information about the submitting client.
///
/// Built once per request and shared by every log record of that request's
/// batch. `client_ip` only ever holds an anonymized CIDR prefix: the
/// resolver computes it with [`crate::ip::truncate`], never from the raw
/// address text.
#[derive(Debug)]
pub struct ClientData {
    /// Anonymized network prefix in CIDR notation.
    pub client_ip: Vec<u8>,
    /// Normalized browser identity: family and major.minor.patch version.
    pub client_user_agent: Vec<u8>,
    /// Autonomous system number of the client's network.
    pub client_asn: u32,
    pub client_asname: Vec<u8>,
    pub client_city: Vec<u8>,
    pub client_region: Vec<u8>,
    pub client_country_code: Vec<u8>,
    pub client_continent_code: Vec<u8>,
    /// Raw JSON number token, passed through verbatim.
    pub client_latitude: Vec<u8>,
    /// Raw JSON number token, passed through verbatim.
    pub client_longitude: Vec<u8>,
}

pub struct ClientDataView {
    pub client_ip: Seq<u8>,
    pub client_user_agent: Seq<u8>,
    pub client_asn: int,
    pub client_asname: Seq<u8>,
    pub client_city: Seq<u8>,
    pub client_region: Seq<u8>,
    pub client_country_code: Seq<u8>,
    pub client_continent_code: Seq<u8>,
    pub client_latitude: Seq<u8>,
    pub client_longitude: Seq<u8>,
}

impl View for ClientData {
    type V = ClientDataView;

    open spec fn view(&self) -> ClientDataView {
        ClientDataView {
            client_ip: self.client_ip@,
            client_user_agent: self.client_user_agent@,
            client_asn: self.client_asn as int,
            client_asname: self.client_asname@,
            client_city: self.client_city@,
            client_region: self.client_region@,
            client_country_code: self.client_country_code@,
            client_continent_code: self.client_continent_code@,
            client_latitude: self.client_latitude@,
            client_longitude: self.client_longitude@,
        }
    }
}

impl Clone for ClientData {
    fn clone(&self) -> (r: Self)
        ensures
            r@ == self@,
    {
        ClientData {
            client_ip: slice_to_vec(self.client_ip.as_slice()),
            client_user_agent: slice_to_vec(self.client_user_agent.as_slice()),
            client_asn: self.client_asn,
            client_asname: slice_to_vec(self.client_asname.as_slice()),
            client_city: slice_to_vec(self.client_city.as_slice()),
            client_region: slice_to_vec(self.client_region.as_slice()),
            client_country_code: slice_to_vec(self.client_country_code.as_slice()),
            client_continent_code: slice_to_vec(self.client_continent_code.as_slice()),
            client_latitude: slice_to_vec(self.client_latitude.as_slice()),
            client_longitude: slice_to_vec(self.client_longitude.as_slice()),
        }
    }
}

/// One emitted log line: a report joined with the client context and the
/// capture timestamp.
#[derive(Debug)]
pub struct LogLine {
    /// Seconds since the Unix epoch, captured when the batch was received.
    pub timestamp: i64,
    pub client: ClientData,
    pub report: Report,
}

pub struct LogLineView {
    pub timestamp: int,
    pub client: ClientDataView,
    pub report: ReportView,
}

impl View for LogLine {
    type V = LogLineView;

    open spec fn view(&self) -> LogLineView {
        LogLineView { timestamp: self.timestamp as int, client: self.client@, report: self.report@ }
    }
}

impl LogLine {
    /// Assemble a log record from one report, the batch's shared client
    /// context and the capture instant. Pure combination; cannot fail.
    pub fn new(report: Report, client: ClientData, timestamp: i64) -> (r: LogLine)
        ensures
            r@ == (LogLineView { timestamp: timestamp as int, client: client@, report: report@ }),
    {
        LogLine { timestamp, client, report }
    }
}

} // verus!
