//! One request's way through the proxy: admission, the rewrite of its target
//! to the upstream origin, and the response once forwarding has been tried.
use vstd::prelude::*;
use vstd::string::*;

use crate::auth::{authenticate, request_authorized, Verdict};
use crate::config::{challenge_text, chars_of, Config};
use crate::headers::{first_authorization, remove_authorization, without_authorization, Header};

verus! {

/// The parts of an inbound request that the proxy reads or changes. Its method
/// and body travel on unchanged beside it.
pub struct InboundRequest {
    /// The target as received, kept for the log.
    pub uri: String,
    /// Path and query of the target, where it has them.
    pub path_and_query: Option<String>,
    pub headers: Vec<Header>,
}

/// What is sent upstream in place of the inbound target and headers.
pub struct OutboundRequest {
    pub uri: String,
    pub headers: Vec<Header>,
}

/// A response made by the proxy itself rather than by the upstream.
pub struct SyntheticResponse {
    pub status: u16,
    /// The `WWW-Authenticate` header, where the response has one.
    pub www_authenticate: Option<String>,
    pub body: String,
}

/// The one structured event written for each request.
pub struct LogEvent {
    pub uri: String,
    pub authorized: bool,
    /// Why forwarding failed, where it did.
    pub error: Option<String>,
}

/// The proxy's decision on an inbound request.
pub enum Admission {
    /// Turned away with a challenge; the upstream is not contacted.
    Rejected { response: SyntheticResponse, log: LogEvent },
    /// To be sent upstream once, as given.
    Forward(OutboundRequest),
}

/// What the client receives for a forwarded request.
pub enum Reply<R> {
    /// The upstream's own response, relayed as it came.
    Upstream(R),
    Synthetic(SyntheticResponse),
}

pub open spec fn unauthorized_status() -> u16 {
    401
}

pub open spec fn unavailable_status() -> u16 {
    503
}

pub open spec fn unavailable_body() -> Seq<char> {
    "503 Service Unavailable"@
}

/// The upstream target: the configured scheme and authority, then the
/// request's own path and query (`/` where it has none).
pub open spec fn upstream_target(config: Config, path_and_query: Option<Seq<char>>) -> Seq<char> {
    config.scheme@ + "://"@ + config.authority@ + match path_and_query {
        Some(p) => p,
        None => "/"@,
    }
}

/// The 401 challenge for `config`, with an empty body.
pub open spec fn is_challenge(r: SyntheticResponse, config: Config) -> bool {
    &&& r.status == unauthorized_status()
    &&& r.www_authenticate matches Some(w) && w@ == challenge_text(config.realm@)
    &&& r.body@.len() == 0
}

/// The 503 sent where the upstream could not be reached.
pub open spec fn is_unavailable(r: SyntheticResponse) -> bool {
    &&& r.status == unavailable_status()
    &&& r.www_authenticate is None
    &&& r.body@ == unavailable_body()
}

/// Rewrites a request's target to the upstream origin, whatever scheme and
/// host the client used.
pub fn upstream_uri(config: &Config, path_and_query: &Option<String>) -> (r: String)
    ensures
        r@ == upstream_target(*config, chars_of(*path_and_query)),
{
    let mut s = config.scheme.clone();
    s.append("://");
    s.append(config.authority.as_str());
    match path_and_query {
        Some(p) => s.append(p.as_str()),
        None => s.append("/"),
    }
    s
}

/// The challenge sent to a client without the configured credentials.
pub fn unauthorized_response(config: &Config) -> (r: SyntheticResponse)
    ensures
        is_challenge(r, *config),
{
    SyntheticResponse { status: 401, www_authenticate: Some(config.challenge()), body: String::new() }
}

/// The response sent where the upstream could not be reached.
pub fn unavailable_response() -> (r: SyntheticResponse)
    ensures
        is_unavailable(r),
{
    SyntheticResponse {
        status: 503,
        www_authenticate: None,
        body: String::from_str("503 Service Unavailable"),
    }
}

/// Decides what becomes of an inbound request: a challenge, or an outbound
/// request without its `Authorization` headers, aimed at the upstream.
pub fn screen(config: &Config, request: InboundRequest) -> (r: Admission)
    ensures
        request_authorized(request.headers@, *config) <==> r is Forward,
        r matches Admission::Forward(o) ==> {
            &&& o.uri@ == upstream_target(*config, chars_of(request.path_and_query))
            &&& o.headers@ == without_authorization(request.headers@)
        },
        r matches Admission::Rejected { response, log } ==> {
            &&& is_challenge(response, *config)
            &&& log.uri@ == request.uri@
            &&& !log.authorized
            &&& log.error is None
        },
{
    let InboundRequest { uri, path_and_query, headers } = request;
    let mut headers = headers;
    let authorization = remove_authorization(&mut headers);
    match authenticate(&authorization, config) {
        Verdict::Authorized => {
            Admission::Forward(OutboundRequest { uri: upstream_uri(config, &path_and_query), headers })
        },
        Verdict::Unauthorized => Admission::Rejected {
            response: unauthorized_response(config),
            log: LogEvent { uri, authorized: false, error: None },
        },
    }
}

/// Turns the one forwarding attempt's outcome into what the client receives,
/// and the event to log: the upstream's response unchanged, or a 503 with the
/// failure kept for the log.
pub fn settle<R>(uri: String, outcome: Result<R, String>) -> (r: (Reply<R>, LogEvent))
    ensures
        r.1.uri@ == uri@,
        r.1.authorized,
        match outcome {
            Ok(response) => r.0 == Reply::Upstream(response) && r.1.error is None,
            Err(e) => r.0 matches Reply::Synthetic(s) && is_unavailable(s) && r.1.error
                == Some(e),
        },
{
    match outcome {
        Ok(response) => (Reply::Upstream(response), LogEvent { uri, authorized: true, error: None }),
        Err(e) => (
            Reply::Synthetic(unavailable_response()),
            LogEvent { uri, authorized: true, error: Some(e) },
        ),
    }
}

} // verus!
