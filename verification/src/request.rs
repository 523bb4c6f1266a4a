//! Preparing one outbound request: parsing the URL, fixing the port, and
//! building the literal request line.
//!
//! The transport work — connecting, the handshake, writing the line — is the
//! caller's: this module decides what is to be sent and where.

use vstd::prelude::*;

verus! {

use vstd::slice::slice_to_vec;
use vstd::utf8::encode_utf8;

/// The port used when the URL does not name one.
pub const DEFAULT_GEMINI_PORT: u16 = 1965;

/// Issues one outbound request (the transport part lives with the caller).
pub struct Request;

/// How preparing or performing a request fails.
#[derive(Clone, Copy, Debug, PartialEq, Eq, Structural)]
pub enum Error {
    /// The URL did not parse, or names no host.
    URL,
    /// The transport failed below the record layer.
    IO,
    /// The handshake or record layer failed.
    TLS,
}

/// Everything decided about an outbound request: where to connect and the
/// exact line to send.
pub struct RequestPlan {
    /// The host to connect to, as the URL names it.
    pub host: String,
    /// The port to connect to, the default when the URL names none.
    pub port: u16,
    /// The absolute URL, as serialized by the parser.
    pub absolute: String,
    /// The literal request line: the absolute URL followed by CR LF.
    pub line: Vec<u8>,
}

/// The host text of the URL that `s` parses to, or `None` when `s` does not
/// parse as an absolute URL or the URL names no host. Parsing depends on the
/// input text alone; the host's value is not modelled here.
pub uninterp spec fn url_host_of(s: Seq<char>) -> Option<Seq<char>>;

/// The port the URL that `s` parses to names explicitly, if it names one.
pub uninterp spec fn url_port_of(s: Seq<char>) -> Option<u16>;

/// The serialization of the URL that `s` parses to.
pub uninterp spec fn url_serialization_of(s: Seq<char>) -> Seq<char>;

/// Relies on `url::Url::parse` and the accessors `Url::host_str`, `Url::port`
/// and `Url::as_str`: parsing depends on the input text alone, and this
/// wrapper hands the parse outcome back as plain values — the host, the
/// explicit port and the serialization — or `None` when the text does not
/// parse or the URL names no host.
#[verifier::external_body]
fn parse_url_parts(input: &str) -> (r: Option<(String, Option<u16>, String)>)
    ensures
        r is Some <==> url_host_of(input@) is Some,
        r matches Some(parts) ==> url_host_of(input@) matches Some(host) && parts.0@ == host
            && parts.1 == url_port_of(input@) && parts.2@ == url_serialization_of(input@),
{
    match url::Url::parse(input) {
        Ok(parsed) => match parsed.host_str() {
            Some(host) => Some((host.to_owned(), parsed.port(), parsed.as_str().to_owned())),
            None => None,
        },
        Err(_) => None,
    }
}

/// The port a request uses: the one the URL names, or the default.
pub open spec fn spec_effective_port(port: Option<u16>) -> u16 {
    match port {
        Some(p) => p,
        None => DEFAULT_GEMINI_PORT,
    }
}

/// Picks the port to connect to: the URL's own, or the default when it
/// names none.
pub fn effective_port(port: Option<u16>) -> (r: u16)
    ensures
        r == spec_effective_port(port),
{
    match port {
        Some(p) => p,
        None => DEFAULT_GEMINI_PORT,
    }
}

/// Builds the literal request line: the absolute URL's bytes followed by
/// CR LF.
pub fn request_line(absolute: &str) -> (r: Vec<u8>)
    ensures
        r@ == encode_utf8(absolute@) + seq![13u8, 10u8],
{
    let mut line = slice_to_vec(absolute.as_bytes());
    line.push(13);
    line.push(10);
    proof {
        assert(line@ =~= encode_utf8(absolute@) + seq![13u8, 10u8]);
    }
    line
}

impl Request {
    /// Prepares one request from a URL in text form. It succeeds exactly
    /// when the URL parses and names a host; the plan then carries that
    /// host, the URL's port (the default when it names none), the parser's
    /// serialization of the URL, and the request line: that serialization
    /// followed by CR LF. Any other input fails with the URL error.
    pub fn prepare(url: &str) -> (r: Result<RequestPlan, Error>)
        ensures
            r is Ok <==> url_host_of(url@) is Some,
            r matches Ok(plan) ==> url_host_of(url@) matches Some(host) && plan.host@ == host
                && plan.port == spec_effective_port(url_port_of(url@))
                && plan.absolute@ == url_serialization_of(url@)
                && plan.line@ == encode_utf8(plan.absolute@) + seq![13u8, 10u8],
            r matches Err(e) ==> e == Error::URL,
    {
        match parse_url_parts(url) {
            Some((host, explicit_port, absolute)) => {
                let port = effective_port(explicit_port);
                let line = request_line(absolute.as_str());
                Ok(RequestPlan { host, port, absolute, line })
            },
            None => Err(Error::URL),
        }
    }
}

} // verus!
