//! Where an RTSP URI points: its host and port.
use vstd::prelude::*;
use vstd::string::StringExecFns;

verus! {

/// Whether `hyper::Uri` accepts the text.
pub uninterp spec fn uri_parses(s: Seq<char>) -> bool;

/// The scheme of the URI the text gives.
pub uninterp spec fn uri_scheme(s: Seq<char>) -> Option<Seq<char>>;

/// The host of the URI the text gives.
pub uninterp spec fn uri_host(s: Seq<char>) -> Option<Seq<char>>;

/// The port of the URI the text gives.
pub uninterp spec fn uri_port(s: Seq<char>) -> Option<u16>;

/// The parts of a URI that a connection needs.
#[derive(Debug)]
pub struct UriParts {
    pub scheme: Option<String>,
    pub host: Option<String>,
    pub port: Option<u16>,
}

pub open spec fn opt_view(o: Option<String>) -> Option<Seq<char>> {
    match o {
        Some(s) => Some(s@),
        None => None,
    }
}

/// Relies on `hyper::Uri`'s `FromStr`, and on its `scheme_str`, `host` and
/// `port_u16`: each is a function of the text alone.
#[verifier::external_body]
fn parse_uri(s: &str) -> (r: Option<UriParts>)
    ensures
        r is Some <==> uri_parses(s@),
        r matches Some(p) ==> opt_view(p.scheme) == uri_scheme(s@) && opt_view(p.host) == uri_host(s@)
            && p.port == uri_port(s@),
{
    match s.parse::<hyper::Uri>() {
        Ok(u) => Some(UriParts {
            scheme: u.scheme_str().map(|x| x.to_string()),
            host: u.host().map(|x| x.to_string()),
            port: u.port_u16(),
        }),
        Err(_) => None,
    }
}

/// Why a relay cannot connect to the URI it was given.
#[derive(Debug, PartialEq, Eq, Structural)]
pub enum UriError {
    /// The text is not a URI.
    Parse,
    /// The URI's scheme is not `rtsp`, or it has no host.
    NotRtsp,
}

pub const RTSP_DEFAULT_PORT: u16 = 554;

/// The host and port to connect to: an `rtsp` URI with a host, on its port
/// or else 554.
pub open spec fn target_of(scheme: Option<Seq<char>>, host: Option<Seq<char>>, port: Option<u16>) -> Result<(Seq<char>, u16), UriError> {
    if scheme == Some("rtsp"@) && host is Some {
        Ok((host->0, if port is Some { port->0 } else { RTSP_DEFAULT_PORT }))
    } else {
        Err(UriError::NotRtsp)
    }
}

pub open spec fn target_view(r: Result<(String, u16), UriError>) -> Result<(Seq<char>, u16), UriError> {
    match r {
        Ok((h, p)) => Ok((h@, p)),
        Err(e) => Err(e),
    }
}

/// The host and port that the parts of a URI name for an RTSP connection.
pub fn rtsp_target_of(parts: &UriParts) -> (r: Result<(String, u16), UriError>)
    ensures
        target_view(r) == target_of(opt_view(parts.scheme), opt_view(parts.host), parts.port),
{
    let rtsp = String::from_str("rtsp");
    let is_rtsp = match &parts.scheme {
        Some(s) => s.eq(&rtsp),
        None => false,
    };
    match &parts.host {
        Some(h) => {
            if is_rtsp {
                let port = match parts.port {
                    Some(p) => p,
                    None => RTSP_DEFAULT_PORT,
                };
                Ok((h.clone(), port))
            } else {
                Err(UriError::NotRtsp)
            }
        },
        None => Err(UriError::NotRtsp),
    }
}

/// The host and port of the RTSP server that `uri` names.
pub fn rtsp_target(uri: &str) -> (r: Result<(String, u16), UriError>)
    ensures
        !uri_parses(uri@) ==> r == Err::<(String, u16), UriError>(UriError::Parse),
        uri_parses(uri@) ==> target_view(r) == target_of(uri_scheme(uri@), uri_host(uri@), uri_port(uri@)),
{
    match parse_uri(uri) {
        None => Err(UriError::Parse),
        Some(parts) => rtsp_target_of(&parts),
    }
}

} // verus!
