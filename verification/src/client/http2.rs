//! The target of an HTTP/2 (or HTTP/1.1) connection.
use vstd::prelude::*;
use crate::client::request::spec_port;
use crate::http_parts::{http_uri, spec_http_uri};

verus! {

/// The scheme, host and port to connect to for a URL: the URL must parse
/// and have a host and a scheme; the port defaults to 443 for `https`,
/// else 80.
pub fn url_parts(peer: &str) -> (r: Result<(Vec<u8>, Vec<u8>, u16), &'static str>)
    ensures
        match spec_http_uri(peer@) {
            None => r == Err::<(Vec<u8>, Vec<u8>, u16), &'static str>("Failed to parse peer URL"),
            Some(u) => match (u.2, u.0) {
                (None, _) => r == Err::<(Vec<u8>, Vec<u8>, u16), &'static str>("Peer URL must include host"),
                (Some(_), None) => r == Err::<(Vec<u8>, Vec<u8>, u16), &'static str>(
                    "Peer URL must include scheme (http or https)",
                ),
                (Some(h), Some(s)) => r matches Ok((scheme, host, port)) && scheme@ == s && host@ == h && port
                    == spec_port(u.0, u.3),
            },
        },
{
    let uri = match http_uri(peer) {
        Some(u) => u,
        None => return Err("Failed to parse peer URL"),
    };
    let host = match &uri.host {
        Some(h) => h,
        None => return Err("Peer URL must include host"),
    };
    let is_https = match &uri.scheme {
        Some(s) => s.len() == 5 && s[0] == 104u8 && s[1] == 116u8 && s[2] == 116u8 && s[3] == 112u8 && s[4] == 115u8,
        None => false,
    };
    proof {
        if let Some(s) = &uri.scheme {
            if is_https {
                assert(s@ =~= crate::client::request::https_bytes());
            }
            if s@ == crate::client::request::https_bytes() {
                assert(s@[0] == 104u8 && s@[1] == 116u8 && s@[2] == 116u8 && s@[3] == 112u8 && s@[4] == 115u8);
            }
        }
    }
    let port = match uri.port {
        Some(p) => p,
        None => if is_https {
            443
        } else {
            80
        },
    };
    let scheme = match &uri.scheme {
        Some(s) => s,
        None => return Err("Peer URL must include scheme (http or https)"),
    };
    let scheme_bytes = scheme.clone();
    let host_bytes = host.clone();
    assert(scheme_bytes@ =~= scheme@);
    assert(host_bytes@ =~= host@);
    Ok((scheme_bytes, host_bytes, port))
}

} // verus!
