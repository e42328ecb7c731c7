//! The DNS provider's REST API modelled as values: zones, records, the
//! uniform response envelope, structured errors, and descriptions of the
//! three requests the reconciler issues. Sending requests and decoding
//! JSON bodies is the driver's work; the decisions here are verified.

use vstd::prelude::*;
use vstd::string::*;
use crate::text::{dec_rep, dec_string};
use crate::status::{reason_phrase, reason_str};

verus! {

/// A provider-side DNS zone.
#[derive(Debug)]
pub struct Zone {
    pub id: String,
}

/// One hosted DNS record.
#[derive(Debug)]
pub struct DnsRecord {
    pub id: String,
    pub type_: String,
    pub content: String,
}

/// One structured error entry returned by the provider.
#[derive(Debug)]
pub struct ProviderError {
    pub code: u16,
    pub message: String,
}

/// A failed provider call.
#[derive(Debug)]
pub enum ApiFailure {
    /// The response body did not decode into the envelope.
    Decode { status: u16 },
    /// The envelope decoded but held no result; the provider rejected
    /// the request with zero or more structured errors.
    Rejected { status: u16, errors: Vec<ProviderError> },
}

/// The provider's uniform response envelope, already decoded from JSON:
/// a result when the call succeeded, and an error list.
#[derive(Debug)]
pub struct Envelope<T> {
    pub result: Option<T>,
    pub errors: Vec<ProviderError>,
}

/// Decides a provider response. `body` is the decoded envelope, or
/// `None` when the HTTP body did not decode into the envelope shape.
/// Success yields the envelope's result; a missing result yields the
/// provider's exact error list together with the HTTP status.
pub fn decode_envelope<T>(status: u16, body: Option<Envelope<T>>) -> (r: Result<T, ApiFailure>)
    ensures
        match body {
            None => r == Err::<T, ApiFailure>(ApiFailure::Decode { status }),
            Some(env) => match env.result {
                Some(v) => r == Ok::<T, ApiFailure>(v),
                None => r == Err::<T, ApiFailure>(
                    ApiFailure::Rejected { status, errors: env.errors },
                ),
            },
        },
{
    match body {
        None => Err(ApiFailure::Decode { status }),
        Some(env) => match env.result {
            Some(v) => Ok(v),
            None => Err(ApiFailure::Rejected { status, errors: env.errors }),
        },
    }
}

/// The text of one provider error entry, as one message line.
pub open spec fn provider_error_line(e: ProviderError) -> Seq<char> {
    seq!['\n'] + dec_rep(e.code as nat) + seq![':', ' '] + e.message@
}

/// The text of the first `i` provider error entries.
pub open spec fn error_lines(es: Seq<ProviderError>, i: int) -> Seq<char>
    decreases i when i <= es.len()
{
    if i <= 0 {
        Seq::empty()
    } else {
        error_lines(es, i - 1) + provider_error_line(es[i - 1])
    }
}

/// The status line of a failed call: the code and its canonical
/// reason phrase.
pub open spec fn status_text(status: u16) -> Seq<char> {
    ("HTTP ")@ + dec_rep(status as nat) + seq![' '] + reason_phrase(status)
}

/// The message text of a failed call: the HTTP status with its reason
/// phrase, then one line per provider error.
pub open spec fn api_failure_text(f: ApiFailure) -> Seq<char> {
    match f {
        ApiFailure::Decode { status } => status_text(status),
        ApiFailure::Rejected { status, errors } => status_text(status) + error_lines(
            errors@,
            errors@.len() as int,
        ),
    }
}

impl ApiFailure {
    /// Renders the failure for reporting.
    pub fn to_message(&self) -> (r: String)
        ensures
            r@ == api_failure_text(*self),
    {
        proof {
            reveal_strlit("HTTP ");
            reveal_strlit(" ");
            assert((" ")@ =~= seq![' ']);
        }
        match self {
            ApiFailure::Decode { status } => {
                let mut s = String::from_str("HTTP ");
                s.append(dec_string(*status as u32).as_str());
                s.append(" ");
                s.append(reason_str(*status));
                proof {
                    assert(s@ =~= status_text(*status));
                }
                s
            },
            ApiFailure::Rejected { status, errors } => {
                let mut s = String::from_str("HTTP ");
                s.append(dec_string(*status as u32).as_str());
                s.append(" ");
                s.append(reason_str(*status));
                proof {
                    assert(s@ =~= status_text(*status));
                }
                let ghost head = s@;
                let mut i: usize = 0;
                while i < errors.len()
                    invariant
                        0 <= i <= errors@.len(),
                        s@ == head + error_lines(errors@, i as int),
                    decreases errors@.len() - i,
                {
                    proof {
                        reveal_strlit("\n");
                        reveal_strlit(": ");
                        assert(("\n")@ =~= seq!['\n']);
                        assert((": ")@ =~= seq![':', ' ']);
                    }
                    s.append("\n");
                    s.append(dec_string(errors[i].code as u32).as_str());
                    s.append(": ");
                    s.append(errors[i].message.as_str());
                    proof {
                        assert(s@ =~= head + error_lines(errors@, i as int)
                            + provider_error_line(errors@[i as int]));
                    }
                    i = i + 1;
                }
                s
            },
        }
    }
}

/// The HTTP method of an API request.
#[derive(Clone, Copy, Debug, PartialEq, Eq, Structural)]
pub enum HttpMethod {
    Get,
    Patch,
}

/// One API request, described as plain values for a driver to send:
/// the method, the resolved URL, an optional `name` query parameter, an
/// optional `content` body field, and the bearer token to attach.
#[derive(Debug)]
pub struct ApiRequest {
    pub method: HttpMethod,
    pub url: String,
    pub query_name: Option<String>,
    pub body_content: Option<String>,
    pub bearer: String,
}

/// What `url::Url::join` yields for `path` against the fixed API root
/// `https://api.cloudflare.com/client/v4/`.
pub uninterp spec fn url_join(path: Seq<char>) -> Seq<char>;

/// Whether `url::Url::join` resolves `path` against the fixed API
/// root at all; like the joined text, a function of the path alone.
pub uninterp spec fn url_joins(path: Seq<char>) -> bool;

/// Relies on `url::Url::parse` and `url::Url::join`: resolving a path
/// against the fixed API root is a function of the path alone, and so
/// is whether it resolves; `None` exactly when it does not.
#[verifier::external_body]
fn api_url(path: &str) -> (r: Option<String>)
    ensures
        r is Some <==> url_joins(path@),
        r is Some ==> r->0@ == url_join(path@),
{
    let base = match url::Url::parse("https://api.cloudflare.com/client/v4/") {
        Ok(b) => b,
        Err(_) => return None,
    };
    match base.join(path) {
        Ok(u) => Some(String::from(u)),
        Err(_) => None,
    }
}

/// A typed client for the provider's REST API: it holds the bearer
/// token and describes the requests; a driver performs them.
pub struct Client {
    pub token: String,
}

impl Client {
    pub fn new(token: String) -> (c: Client)
        ensures
            c.token == token,
    {
        Client { token }
    }

    /// The request listing the zones whose name is exactly `name`.
    pub fn zones(&self, name: &str) -> (r: Option<ApiRequest>)
        ensures
            r is Some <==> url_joins(("zones")@),
            r is Some ==> {
                &&& r->0.method == HttpMethod::Get
                &&& r->0.url@ == url_join(("zones")@)
                &&& r->0.query_name matches Some(q) && q@ == name@
                &&& r->0.body_content is None
                &&& r->0.bearer@ == self.token@
            },
    {
        let url = match api_url("zones") {
            Some(u) => u,
            None => return None,
        };
        Some(
            ApiRequest {
                method: HttpMethod::Get,
                url,
                query_name: Some(String::from_str(name)),
                body_content: None,
                bearer: String::from_str(self.token.as_str()),
            },
        )
    }

    /// The request listing the records of zone `zone_id` whose name is
    /// exactly `name`.
    pub fn dns_records(&self, zone_id: &str, name: &str) -> (r: Option<ApiRequest>)
        ensures
            r is Some <==> url_joins(("zones/")@ + zone_id@ + ("/dns_records")@),
            r is Some ==> {
                &&& r->0.method == HttpMethod::Get
                &&& r->0.url@ == url_join(("zones/")@ + zone_id@ + ("/dns_records")@)
                &&& r->0.query_name matches Some(q) && q@ == name@
                &&& r->0.body_content is None
                &&& r->0.bearer@ == self.token@
            },
    {
        let mut path = String::from_str("zones/");
        path.append(zone_id);
        path.append("/dns_records");
        let url = match api_url(path.as_str()) {
            Some(u) => u,
            None => return None,
        };
        Some(
            ApiRequest {
                method: HttpMethod::Get,
                url,
                query_name: Some(String::from_str(name)),
                body_content: None,
                bearer: String::from_str(self.token.as_str()),
            },
        )
    }

    /// The request patching record `record_id` of zone `zone_id` so that
    /// only its `content` field becomes `content`.
    pub fn patch_dns_record(&self, zone_id: &str, record_id: &str, content: &str) -> (r: Option<
        ApiRequest,
    >)
        ensures
            r is Some <==> url_joins(
                ("zones/")@ + zone_id@ + ("/dns_records/")@ + record_id@,
            ),
            r is Some ==> {
                &&& r->0.method == HttpMethod::Patch
                &&& r->0.url@ == url_join(
                    ("zones/")@ + zone_id@ + ("/dns_records/")@ + record_id@,
                )
                &&& r->0.query_name is None
                &&& r->0.body_content matches Some(c) && c@ == content@
                &&& r->0.bearer@ == self.token@
            },
    {
        let mut path = String::from_str("zones/");
        path.append(zone_id);
        path.append("/dns_records/");
        path.append(record_id);
        let url = match api_url(path.as_str()) {
            Some(u) => u,
            None => return None,
        };
        Some(
            ApiRequest {
                method: HttpMethod::Patch,
                url,
                query_name: None,
                body_content: Some(String::from_str(content)),
                bearer: String::from_str(self.token.as_str()),
            },
        )
    }
}

} // verus!
