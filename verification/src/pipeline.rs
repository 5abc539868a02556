//! The report pipeline and the request handler's decisions.
//!
//! The pipeline takes plain values the host extracted from the request —
//! body bytes, the client address, the geo lookup's answer and the parsed
//! user-agent identity — and returns the log lines to write. The two
//! external lookups are injected as arguments, so every decision made here
//! is verified for every answer they can give. Routing and the fixed
//! response surface are the handler's only other decisions, and they stand
//! here too; the host only moves bytes.

use vstd::prelude::*;
use vstd::string::StrSliceExecFns;
use crate::ip::IpAddress;
use crate::ip::truncate;
use crate::ip::truncate_spec;
use crate::jsonin::batch_at;
use crate::jsonin::bytes_eq;
use crate::jsonin::decode;
use crate::jsonout::lit;
use crate::jsonout::logline_json;
use crate::jsonout::render_log_line;
use crate::model::ClientData;
use crate::model::ClientDataView;
use crate::model::LogLine;
use crate::model::LogLineView;

verus! {

/// What the geo lookup answered for the client's address. Latitude and
/// longitude hold raw JSON number tokens, rendered by the host.
#[derive(Debug)]
pub struct GeoData {
    pub asn: u32,
    pub as_name: Vec<u8>,
    pub city: Vec<u8>,
    pub region: Vec<u8>,
    pub country_code: Vec<u8>,
    pub continent_code: Vec<u8>,
    pub latitude: Vec<u8>,
    pub longitude: Vec<u8>,
}

pub struct GeoDataView {
    pub asn: int,
    pub as_name: Seq<u8>,
    pub city: Seq<u8>,
    pub region: Seq<u8>,
    pub country_code: Seq<u8>,
    pub continent_code: Seq<u8>,
    pub latitude: Seq<u8>,
    pub longitude: Seq<u8>,
}

impl View for GeoData {
    type V = GeoDataView;

    open spec fn view(&self) -> GeoDataView {
        GeoDataView {
            asn: self.asn as int,
            as_name: self.as_name@,
            city: self.city@,
            region: self.region@,
            country_code: self.country_code@,
            continent_code: self.continent_code@,
            latitude: self.latitude@,
            longitude: self.longitude@,
        }
    }
}

/// The browser identity the user-agent parser extracted. Version parts the
/// parser left out stay empty.
#[derive(Debug)]
pub struct UserAgent {
    pub family: Vec<u8>,
    pub major: Vec<u8>,
    pub minor: Vec<u8>,
    pub patch: Vec<u8>,
}

pub struct UserAgentView {
    pub family: Seq<u8>,
    pub major: Seq<u8>,
    pub minor: Seq<u8>,
    pub patch: Seq<u8>,
}

impl View for UserAgent {
    type V = UserAgentView;

    open spec fn view(&self) -> UserAgentView {
        UserAgentView {
            family: self.family@,
            major: self.major@,
            minor: self.minor@,
            patch: self.patch@,
        }
    }
}

/// Why the client context could not be resolved. Either failure spoils the
/// whole batch, since the context is shared by all its records. Masking
/// the address itself is total here, so it adds no failure of its own.
#[derive(Debug, PartialEq, Eq, Structural)]
pub enum ResolveError {
    /// The geo lookup had no data for the address.
    GeoLookupUnavailable,
    /// The user-agent parser failed on the header value.
    UserAgentParseError,
}

/// The normalized browser identity: family, a space, and the dotted
/// version triple.
pub open spec fn ua_identity(u: UserAgentView) -> Seq<u8> {
    u.family + seq![32u8] + u.major + seq![46u8] + u.minor + seq![46u8] + u.patch
}

/// The client context resolved from an address and the two lookup answers.
pub open spec fn resolved_client(ip: IpAddress, g: GeoDataView, u: UserAgentView) -> ClientDataView {
    ClientDataView {
        client_ip: truncate_spec(ip),
        client_user_agent: ua_identity(u),
        client_asn: g.asn,
        client_asname: g.as_name,
        client_city: g.city,
        client_region: g.region,
        client_country_code: g.country_code,
        client_continent_code: g.continent_code,
        client_latitude: g.latitude,
        client_longitude: g.longitude,
    }
}

/// Append a copy of `s`.
fn append_bytes(out: &mut Vec<u8>, s: &Vec<u8>)
    ensures
        final(out)@ == old(out)@ + s@,
{
    let mut i: usize = 0;
    while i < s.len()
        invariant
            i <= s@.len(),
            out@ == old(out)@ + s@.take(i as int),
        decreases s@.len() - i,
    {
        let b: u8 = s[i];
        out.push(b);
        assert(out@ =~= old(out)@ + s@.take(i as int + 1));
        i = i + 1;
    }
    assert(s@.take(s@.len() as int) =~= s@);
}

/// Resolve the client context for one request: fail if the geo lookup had
/// no data, fail if the user-agent parse failed, and otherwise combine the
/// two answers with the anonymized address. The returned context never
/// holds the full address: its `client_ip` is the truncated CIDR prefix.
pub fn resolve(ip: &IpAddress, geo: Option<GeoData>, ua: Option<UserAgent>) -> (r: Result<
    ClientData,
    ResolveError,
>)
    ensures
        geo is None ==> r == Err::<ClientData, ResolveError>(ResolveError::GeoLookupUnavailable),
        geo is Some && ua is None ==> r == Err::<ClientData, ResolveError>(
            ResolveError::UserAgentParseError,
        ),
        geo is Some && ua is Some ==> r is Ok && r->Ok_0@ == resolved_client(
            *ip,
            geo->Some_0@,
            ua->Some_0@,
        ),
{
    let g = match geo {
        Some(g) => g,
        None => {
            return Err(ResolveError::GeoLookupUnavailable);
        },
    };
    let u = match ua {
        Some(u) => u,
        None => {
            return Err(ResolveError::UserAgentParseError);
        },
    };
    let mut ident: Vec<u8> = Vec::new();
    append_bytes(&mut ident, &u.family);
    ident.push(32);
    append_bytes(&mut ident, &u.major);
    ident.push(46);
    append_bytes(&mut ident, &u.minor);
    ident.push(46);
    append_bytes(&mut ident, &u.patch);
    assert(ident@ =~= ua_identity(u@));
    let client_ip = truncate(ip);
    Ok(
        ClientData {
            client_ip,
            client_user_agent: ident,
            client_asn: g.asn,
            client_asname: g.as_name,
            client_city: g.city,
            client_region: g.region,
            client_country_code: g.country_code,
            client_continent_code: g.continent_code,
            client_latitude: g.latitude,
            client_longitude: g.longitude,
        },
    )
}

/// The log line owed for report `i` of a batch handled at `now`.
pub open spec fn owed_line(
    rs: Seq<crate::model::ReportView>,
    i: int,
    ip: IpAddress,
    g: GeoDataView,
    u: UserAgentView,
    now: int,
) -> Seq<u8> {
    logline_json(
        LogLineView { timestamp: now, client: resolved_client(ip, g, u), report: rs[i] },
    )
}

/// Run the whole pipeline for one submission: decode the batch, resolve
/// the shared client context once, and serialize one log line per report,
/// all carrying `now` and the same context. A decode failure or a context
/// resolution failure drops the whole batch: no lines come back. No
/// serialization failure exists: for a decodable batch with a resolved
/// context, exactly one line per report comes back, in submission order.
pub fn process_batch(
    body: &[u8],
    ip: &IpAddress,
    geo: Option<GeoData>,
    ua: Option<UserAgent>,
    now: i64,
) -> (lines: Vec<Vec<u8>>)
    ensures
        batch_at(body@) is None ==> lines@.len() == 0,
        geo is None ==> lines@.len() == 0,
        ua is None ==> lines@.len() == 0,
        batch_at(body@) is Some && geo is Some && ua is Some ==> {
            &&& lines@.len() == batch_at(body@)->Some_0.len()
            &&& forall|i: int|
                0 <= i < batch_at(body@)->Some_0.len() ==> #[trigger] lines@[i]@ == owed_line(
                    batch_at(body@)->Some_0,
                    i,
                    *ip,
                    geo->Some_0@,
                    ua->Some_0@,
                    now as int,
                )
        },
{
    let reports = match decode(body) {
        Ok(v) => v,
        Err(_) => {
            return Vec::new();
        },
    };
    let client = match resolve(ip, geo, ua) {
        Ok(c) => c,
        Err(_) => {
            return Vec::new();
        },
    };
    let mut lines: Vec<Vec<u8>> = Vec::new();
    let mut idx: usize = 0;
    while idx < reports.len()
        invariant
            idx <= reports@.len(),
            lines@.len() == idx,
            batch_at(body@) == Some(crate::jsonin::reports_view(reports@)),
            geo is Some && ua is Some,
            client@ == resolved_client(*ip, geo->Some_0@, ua->Some_0@),
            forall|i: int|
                0 <= i < idx ==> #[trigger] lines@[i]@ == logline_json(
                    LogLineView {
                        timestamp: now as int,
                        client: client@,
                        report: reports@[i]@,
                    },
                ),
        decreases reports@.len() - idx,
    {
        let rep = reports[idx].clone();
        let record = LogLine::new(rep, client.clone(), now);
        let line = render_log_line(&record);
        lines.push(line);
        idx = idx + 1;
    }
    proof {
        assert(forall|i: int|
            0 <= i < reports@.len() ==> crate::jsonin::reports_view(reports@)[i] == reports@[i]@);
    }
    lines
}

/// Where a request goes: the CORS preflight answer, the report pipeline,
/// or the not-found answer.
#[derive(Debug, PartialEq, Eq, Structural)]
pub enum RouteDecision {
    /// `OPTIONS /report`: answer the preflight, touch no body.
    CorsPreflight,
    /// `POST /report`: run the pipeline on the body.
    SubmitReports,
    /// Anything else: the not-found answer; the pipeline never runs.
    NotFound,
}

/// The routing rule over the request method and path.
pub open spec fn route_spec(method: Seq<u8>, path: Seq<u8>) -> RouteDecision {
    if method == lit("OPTIONS"@) && path == lit("/report"@) {
        RouteDecision::CorsPreflight
    } else if method == lit("POST"@) && path == lit("/report"@) {
        RouteDecision::SubmitReports
    } else {
        RouteDecision::NotFound
    }
}

/// Decide where a request goes.
pub fn route(method: &[u8], path: &[u8]) -> (r: RouteDecision)
    ensures
        r == route_spec(method@, path@),
{
    let on_report = bytes_eq(path, "/report".as_bytes());
    if on_report && bytes_eq(method, "OPTIONS".as_bytes()) {
        RouteDecision::CorsPreflight
    } else if on_report && bytes_eq(method, "POST".as_bytes()) {
        RouteDecision::SubmitReports
    } else {
        RouteDecision::NotFound
    }
}

/// The status of the fixed response on the report path.
pub const STATUS_NO_CONTENT: u16 = 204;

/// The status of the not-found response.
pub const STATUS_NOT_FOUND: u16 = 404;

/// The fixed headers of every no-content response, exactly as the NEL
/// delivery contract asks: non-cacheable, CORS-open for POST and OPTIONS.
pub fn no_content_headers() -> (hs: Vec<(Vec<u8>, Vec<u8>)>)
    ensures
        hs@.len() == 6,
        hs@[0].0@ == lit("Content-Type"@) && hs@[0].1@ == lit("application/json"@),
        hs@[1].0@ == lit("Cache-Control"@) && hs@[1].1@ == lit(
            "no-cache, no-store, max-age=0, must-revalidate"@,
        ),
        hs@[2].0@ == lit("Access-Control-Allow-Origin"@) && hs@[2].1@ == lit("*"@),
        hs@[3].0@ == lit("Access-Control-Allow-Headers"@) && hs@[3].1@ == lit("Content-Type"@),
        hs@[4].0@ == lit("Access-Control-Allow-Methods"@) && hs@[4].1@ == lit("POST, OPTIONS"@),
        hs@[5].0@ == lit("Connection"@) && hs@[5].1@ == lit("keep-alive"@),
{
    let mut hs: Vec<(Vec<u8>, Vec<u8>)> = Vec::new();
    hs.push(("Content-Type".as_bytes_vec(), "application/json".as_bytes_vec()));
    hs.push(
        ("Cache-Control".as_bytes_vec(), "no-cache, no-store, max-age=0, must-revalidate".as_bytes_vec()),
    );
    hs.push(("Access-Control-Allow-Origin".as_bytes_vec(), "*".as_bytes_vec()));
    hs.push(("Access-Control-Allow-Headers".as_bytes_vec(), "Content-Type".as_bytes_vec()));
    hs.push(("Access-Control-Allow-Methods".as_bytes_vec(), "POST, OPTIONS".as_bytes_vec()));
    hs.push(("Connection".as_bytes_vec(), "keep-alive".as_bytes_vec()));
    hs
}

/// The plain-text body of the not-found response.
pub fn not_found_body() -> (r: Vec<u8>)
    ensures
        r@ == lit("Not found"@),
{
    "Not found".as_bytes_vec()
}

} // verus!
