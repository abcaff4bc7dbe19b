//! The command-line client: what it decides and computes around its
//! network transports.
use vstd::prelude::*;
use vstd::string::{StrSliceExecFns, StringExecFns};
use crate::args::{Args, Method, RequestArgs, ResolveOverride};
use crate::bhttp::{Field, FieldV};
use crate::text::{ascii_chars, ascii_to_string, contains_str, find_char, hex_encode, spec_contains, spec_find, spec_hex, spec_lowercase, spec_trim, to_lowercase, trim, hex_digit};

pub mod cert;
pub mod http2;
pub mod http3;
pub mod ohttp;
pub mod request;
pub mod resolver;

verus! {

/// The field name whose values are never shown.
pub open spec fn authorization() -> Seq<char> {
    seq!['a', 'u', 't', 'h', 'o', 'r', 'i', 'z', 'a', 't', 'i', 'o', 'n']
}

/// A header line as it may be shown: when its name (what comes before
/// the first `:`) contains `authorization` once in lower case, the name,
/// trimmed, then `: REDACTED`; otherwise the line as it is.
pub open spec fn spec_redact_header(h: Seq<char>) -> Seq<char> {
    match spec_find(h, ':') {
        Some(i) => {
            let key = h.take(i);
            if spec_contains(spec_lowercase(key), authorization()) {
                spec_trim(key) + seq![':', ' ', 'R', 'E', 'D', 'A', 'C', 'T', 'E', 'D']
            } else {
                h
            }
        },
        None => h,
    }
}

/// Redaction hides the credential: two header lines with the same name
/// (what comes before the first `:`), a name that mentions
/// `authorization`, are shown alike, whatever their values.
pub proof fn law_redaction_hides_value(h1: Seq<char>, h2: Seq<char>, i: int)
    requires
        spec_find(h1, ':') == Some(i),
        spec_find(h2, ':') == Some(i),
        h1.take(i) == h2.take(i),
        spec_contains(spec_lowercase(h1.take(i)), authorization()),
    ensures
        spec_redact_header(h1) == spec_redact_header(h2),
        spec_redact_header(h1) == spec_trim(h1.take(i)) + seq![':', ' ', 'R', 'E', 'D', 'A', 'C', 'T', 'E', 'D'],
{
}

/// The views of a list of strings.
pub open spec fn strings_view(v: Seq<String>) -> Seq<Seq<char>> {
    Seq::new(v.len(), |i: int| v[i]@)
}

/// The view of an optional string.
pub open spec fn opt_str(o: Option<String>) -> Option<Seq<char>> {
    match o {
        Some(s) => Some(s@),
        None => None,
    }
}

/// One header line, with its value hidden when its name is about
/// authorization.
pub fn redact_header(h: &String) -> (r: String)
    ensures
        r@ == spec_redact_header(h@),
{
    let s = h.as_str();
    match find_char(s, ':') {
        Some(i) => {
            let key = s.substring_char(0, i);
            assert(key@ =~= h@.take(i as int));
            let lower = to_lowercase(key);
            let needle = "authorization";
            proof {
                reveal_strlit("authorization");
                assert(needle@ =~= authorization());
            }
            if contains_str(lower.as_str(), needle) {
                let mut out = String::from_str(trim(key));
                out.append(": REDACTED");
                proof {
                    reveal_strlit(": REDACTED");
                    assert(": REDACTED"@ =~= seq![':', ' ', 'R', 'E', 'D', 'A', 'C', 'T', 'E', 'D']);
                }
                out
            } else {
                h.clone()
            }
        },
        None => h.clone(),
    }
}

/// Header lines, each with its value hidden when its name is about
/// authorization.
pub fn redact_headers_vec(headers: &[String]) -> (r: Vec<String>)
    ensures
        r@.len() == headers@.len(),
        forall|i: int| 0 <= i < headers@.len() ==> (#[trigger] r@[i])@ == spec_redact_header(headers@[i]@),
{
    let mut out: Vec<String> = Vec::new();
    let mut i: usize = 0;
    while i < headers.len()
        invariant
            i <= headers@.len(),
            out@.len() == i,
            forall|j: int| 0 <= j < i ==> (#[trigger] out@[j])@ == spec_redact_header(headers@[j]@),
        decreases headers@.len() - i,
    {
        let r = redact_header(&headers[i]);
        out.push(r);
        i = i + 1;
    }
    out
}

/// A copy of an optional string.
fn clone_opt(o: &Option<String>) -> (r: Option<String>)
    ensures
        opt_str(r) == opt_str(*o),
{
    match o {
        Some(s) => Some(s.clone()),
        None => None,
    }
}

/// The command line with every header value about authorization hidden.
pub fn redact_args(args: &Args) -> (r: Args)
    ensures
        r.url@ == args.url@,
        r.verbosity == args.verbosity,
        r.silent == args.silent,
        r.method == args.method,
        opt_str(r.data) == opt_str(args.data),
        r.ohttp == args.ohttp,
        r.http3 == args.http3,
        opt_str(r.proxy) == opt_str(args.proxy),
        r.proxy_http3 == args.proxy_http3,
        r.gateway_path@ == args.gateway_path@,
        r.config_path@ == args.config_path@,
        opt_str(r.first_hop) == opt_str(args.first_hop),
        r.header@.len() == args.header@.len(),
        forall|i: int| 0 <= i < args.header@.len() ==> (#[trigger] r.header@[i])@ == spec_redact_header(args.header@[i]@),
        r.proxy_header@.len() == args.proxy_header@.len(),
        forall|i: int| 0 <= i < args.proxy_header@.len() ==> (#[trigger] r.proxy_header@[i])@ == spec_redact_header(
            args.proxy_header@[i]@,
        ),
        r.first_hop_header@.len() == args.first_hop_header@.len(),
        forall|i: int|
            0 <= i < args.first_hop_header@.len() ==> (#[trigger] r.first_hop_header@[i])@ == spec_redact_header(
                args.first_hop_header@[i]@,
            ),
        r.resolve@.len() == args.resolve@.len(),
        forall|i: int| 0 <= i < args.resolve@.len() ==> override_view(#[trigger] r.resolve@[i]) == override_view(
            args.resolve@[i],
        ),
{
    Args {
        url: args.url.clone(),
        verbosity: args.verbosity,
        silent: args.silent,
        method: args.method,
        header: redact_headers_vec(args.header.as_slice()),
        data: clone_opt(&args.data),
        ohttp: args.ohttp,
        http3: args.http3,
        proxy: clone_opt(&args.proxy),
        proxy_http3: args.proxy_http3,
        proxy_header: redact_headers_vec(args.proxy_header.as_slice()),
        gateway_path: args.gateway_path.clone(),
        config_path: args.config_path.clone(),
        first_hop: clone_opt(&args.first_hop),
        first_hop_header: redact_headers_vec(args.first_hop_header.as_slice()),
        resolve: clone_overrides(&args.resolve),
    }
}

/// A resolution override by its plain values.
pub open spec fn override_view(o: ResolveOverride) -> (Seq<char>, u16, Seq<Seq<char>>) {
    (o.host@, o.port, strings_view(o.addresses@))
}

fn clone_strings(v: &Vec<String>) -> (r: Vec<String>)
    ensures
        strings_view(r@) == strings_view(v@),
{
    let mut out: Vec<String> = Vec::new();
    let mut i: usize = 0;
    while i < v.len()
        invariant
            i <= v@.len(),
            out@.len() == i,
            forall|j: int| 0 <= j < i ==> (#[trigger] out@[j])@ == v@[j]@,
        decreases v@.len() - i,
    {
        out.push(v[i].clone());
        i = i + 1;
    }
    assert(strings_view(out@) =~= strings_view(v@));
    out
}

fn clone_overrides(v: &Vec<ResolveOverride>) -> (r: Vec<ResolveOverride>)
    ensures
        r@.len() == v@.len(),
        forall|i: int| 0 <= i < v@.len() ==> override_view(#[trigger] r@[i]) == override_view(v@[i]),
{
    let mut out: Vec<ResolveOverride> = Vec::new();
    let mut i: usize = 0;
    while i < v.len()
        invariant
            i <= v@.len(),
            out@.len() == i,
            forall|j: int| 0 <= j < i ==> override_view(#[trigger] out@[j]) == override_view(v@[j]),
        decreases v@.len() - i,
    {
        let o = &v[i];
        out.push(ResolveOverride { host: o.host.clone(), port: o.port, addresses: clone_strings(&o.addresses) });
        i = i + 1;
    }
    out
}

/// A request with every header value about authorization hidden.
pub fn redact_request_args(args: &RequestArgs) -> (r: RequestArgs)
    ensures
        r.method == args.method,
        r.url@ == args.url@,
        crate::http_parts::opt_view(r.body) == crate::http_parts::opt_view(args.body),
        r.headers@.len() == args.headers@.len(),
        forall|i: int| 0 <= i < args.headers@.len() ==> (#[trigger] r.headers@[i])@ == spec_redact_header(args.headers@[i]@),
        opt_str(r.proxy_connect) == opt_str(args.proxy_connect),
        r.proxy_header@.len() == args.proxy_header@.len(),
        forall|i: int| 0 <= i < args.proxy_header@.len() ==> (#[trigger] r.proxy_header@[i])@ == spec_redact_header(
            args.proxy_header@[i]@,
        ),
{
    let body = match &args.body {
        Some(b) => {
            let c = b.clone();
            assert(c@ =~= b@);
            Some(c)
        },
        None => None,
    };
    RequestArgs {
        method: args.method,
        url: args.url.clone(),
        headers: redact_headers_vec(args.headers.as_slice()),
        body,
        proxy_connect: clone_opt(&args.proxy_connect),
        proxy_header: redact_headers_vec(args.proxy_header.as_slice()),
    }
}

/// The HTTP version of a response.
#[derive(Clone, Copy, Debug, PartialEq, Eq, Structural)]
pub enum HttpVersion {
    Http09,
    Http10,
    Http11,
    H2,
    H3,
}

/// A response as the client reports it.
#[derive(Clone, Debug)]
pub struct HttpResponse {
    pub version: HttpVersion,
    pub status: u16,
    pub headers: Vec<Field>,
    pub body: Vec<u8>,
}

/// What `String::from_utf8_lossy` makes of bytes: each invalid sequence
/// replaced by U+FFFD.
pub uninterp spec fn spec_utf8_lossy(b: Seq<u8>) -> Seq<char>;

/// `String::from_utf8_lossy`, as an owned string.
#[verifier::external_body]
pub(crate) fn utf8_lossy(b: &[u8]) -> (s: String)
    ensures
        s@ == spec_utf8_lossy(b@),
{
    String::from_utf8_lossy(b).to_string()
}

/// The value of a header as a log shows it: as text (invalid UTF-8
/// replaced), or `REDACTED` where the name mentions authorization.
pub open spec fn spec_redacted_value(name: Seq<char>, value: Seq<u8>) -> Seq<char> {
    if spec_contains(name, authorization()) {
        seq!['R', 'E', 'D', 'A', 'C', 'T', 'E', 'D']
    } else {
        spec_utf8_lossy(value)
    }
}

/// Headers as a log shows them: a map from each name (as text) to its
/// redacted value; of a name given twice, the last value is kept.
pub open spec fn spec_redact_headers(h: Seq<FieldV>) -> Map<Seq<char>, Seq<char>>
    decreases h.len(),
{
    if h.len() == 0 {
        Map::empty()
    } else {
        let n = spec_utf8_lossy(h.last().0);
        spec_redact_headers(h.drop_last()).insert(n, spec_redacted_value(n, h.last().1))
    }
}

/// Whether the pairs hold each name once and give the map's value of it,
/// for every name of the map.
pub open spec fn pairs_are_map(v: Seq<(String, String)>, m: Map<Seq<char>, Seq<char>>) -> bool {
    &&& forall|i: int, j: int| 0 <= i < j < v.len() ==> (#[trigger] v[i]).0@ != (#[trigger] v[j]).0@
    &&& forall|i: int| 0 <= i < v.len() ==> m.contains_key((#[trigger] v[i]).0@) && m[v[i].0@] == v[i].1@
    &&& forall|k: Seq<char>| #[trigger] m.contains_key(k) ==> exists|i: int| 0 <= i < v.len() && v[i].0@ == k
}

/// Headers for a log, each name once with its redacted value.
pub fn redact_headers(headers: &Vec<Field>) -> (r: Vec<(String, String)>)
    ensures
        pairs_are_map(r@, spec_redact_headers(crate::bhttp::fields_view(headers@))),
{
    let ghost h = crate::bhttp::fields_view(headers@);
    let mut out: Vec<(String, String)> = Vec::new();
    let mut i: usize = 0;
    proof {
        assert(h.take(0) =~= Seq::<FieldV>::empty());
    }
    while i < headers.len()
        invariant
            h == crate::bhttp::fields_view(headers@),
            i <= headers@.len(),
            pairs_are_map(out@, spec_redact_headers(h.take(i as int))),
        decreases headers@.len() - i,
    {
        let ghost m = spec_redact_headers(h.take(i as int));
        proof {
            assert(h.take(i + 1).drop_last() =~= h.take(i as int));
            assert(h.take(i + 1).last() == headers@[i as int]@);
        }
        let name = utf8_lossy(headers[i].name.as_slice());
        let authorization_str = "authorization";
        proof {
            reveal_strlit("authorization");
            assert(authorization_str@ =~= authorization());
        }
        let value = if contains_str(name.as_str(), authorization_str) {
            let v = String::from_str("REDACTED");
            proof {
                reveal_strlit("REDACTED");
                assert(v@ =~= seq!['R', 'E', 'D', 'A', 'C', 'T', 'E', 'D']);
            }
            v
        } else {
            utf8_lossy(headers[i].value.as_slice())
        };
        let ghost m2 = m.insert(name@, value@);
        assert(m2 == spec_redact_headers(h.take(i + 1)));
        let mut j: usize = 0;
        let mut found = false;
        while j < out.len()
            invariant_except_break
                !found,
                forall|k: int| 0 <= k < j ==> (#[trigger] out@[k]).0@ != name@,
            invariant
                j <= out@.len(),
                pairs_are_map(out@, m),
            ensures
                found ==> j < out@.len() && out@[j as int].0@ == name@,
                !found ==> forall|k: int| 0 <= k < out@.len() ==> (#[trigger] out@[k]).0@ != name@,
            decreases out@.len() - j,
        {
            if out[j].0 == name {
                found = true;
                break;
            }
            j = j + 1;
        }
        let ghost before = out@;
        if found {
            let key = out[j].0.clone();
            out.set(j, (key, value));
            proof {
                assert forall|a: int, b: int| 0 <= a < b < out@.len() implies (#[trigger] out@[a]).0@ != (
                #[trigger] out@[b]).0@ by {
                    assert(out@[a].0@ == before[a].0@ && out@[b].0@ == before[b].0@);
                }
                assert forall|a: int| 0 <= a < out@.len() implies m2.contains_key((#[trigger] out@[a]).0@)
                    && m2[out@[a].0@] == out@[a].1@ by {
                    if a != j {
                        assert(before[a].0@ != before[j as int].0@);
                    }
                }
                assert forall|k: Seq<char>| #[trigger] m2.contains_key(k) implies exists|a: int|
                    0 <= a < out@.len() && out@[a].0@ == k by {
                    if k == name@ {
                        assert(out@[j as int].0@ == k);
                    } else {
                        let a = choose|a: int| 0 <= a < before.len() && before[a].0@ == k;
                        assert(out@[a].0@ == k);
                    }
                }
            }
        } else {
            out.push((name, value));
            proof {
                let n = before.len() as int;
                assert forall|a: int, b: int| 0 <= a < b < out@.len() implies (#[trigger] out@[a]).0@ != (
                #[trigger] out@[b]).0@ by {
                    if b == n {
                        assert(before[a].0@ != name@);
                    } else {
                        assert(out@[a] == before[a] && out@[b] == before[b]);
                    }
                }
                assert forall|a: int| 0 <= a < out@.len() implies m2.contains_key((#[trigger] out@[a]).0@)
                    && m2[out@[a].0@] == out@[a].1@ by {
                    if a < n {
                        assert(out@[a] == before[a]);
                        assert(before[a].0@ != name@);
                    }
                }
                assert forall|k: Seq<char>| #[trigger] m2.contains_key(k) implies exists|a: int|
                    0 <= a < out@.len() && out@[a].0@ == k by {
                    if k == name@ {
                        assert(out@[n].0@ == k);
                    } else {
                        let a = choose|a: int| 0 <= a < before.len() && before[a].0@ == k;
                        assert(out@[a] == before[a]);
                    }
                }
            }
        }
        i = i + 1;
    }
    proof {
        assert(h.take(i as int) =~= h);
    }
    out
}

/// A byte as it is shown in a log: printable ASCII (graphic characters and
/// space) as itself, anything else as `\x` and two lower-case hexadecimal
/// digits.
pub open spec fn spec_escape_byte(b: u8) -> Seq<u8> {
    if (0x21 <= b && b <= 0x7e) || b == 0x20 {
        seq![b]
    } else {
        seq![92u8, 120u8, hex_digit(b as nat / 16), hex_digit(b as nat % 16)]
    }
}

/// Bytes as they are shown in a log.
pub open spec fn spec_escape(b: Seq<u8>) -> Seq<u8>
    decreases b.len(),
{
    if b.len() == 0 {
        Seq::empty()
    } else {
        spec_escape(b.drop_last()) + spec_escape_byte(b.last())
    }
}

impl HttpResponse {
    /// The body as text, invalid UTF-8 replaced.
    pub fn body_as_string_lossy(&self) -> (s: String)
        ensures
            s@ == spec_utf8_lossy(self.body@),
    {
        utf8_lossy(self.body.as_slice())
    }

    /// The body as it is shown in a log: printable ASCII kept, other bytes
    /// escaped.
    pub fn body_as_string_escaped(&self) -> (s: String)
        ensures
            s@ == ascii_chars(spec_escape(self.body@)),
    {
        escape_bytes(&self.body)
    }

    /// The body in lower-case hexadecimal.
    pub fn body_as_hex(&self) -> (s: String)
        ensures
            s@ == spec_hex(self.body@),
    {
        hex_encode(self.body.as_slice())
    }
}

/// Bytes as text: printable ASCII as it is, every other byte as `\x`
/// and two hexadecimal digits.
pub fn escape_bytes(b: &Vec<u8>) -> (s: String)
    ensures
        s@ == ascii_chars(spec_escape(b@)),
{
    let mut out: Vec<u8> = Vec::new();
    let mut i: usize = 0;
    proof {
        assert(b@.take(0) =~= Seq::<u8>::empty());
    }
    while i < b.len()
        invariant
            i <= b@.len(),
            out@ == spec_escape(b@.take(i as int)),
            forall|j: int| 0 <= j < out@.len() ==> out@[j] < 128,
        decreases b@.len() - i,
    {
        let x = b[i];
        let ghost before = out@;
        if (0x21 <= x && x <= 0x7e) || x == 0x20 {
            out.push(x);
        } else {
            let hi = x / 16;
            let lo = x % 16;
            out.push(92u8);
            out.push(120u8);
            out.push(if hi < 10 { 48 + hi } else { 87 + hi });
            out.push(if lo < 10 { 48 + lo } else { 87 + lo });
        }
        proof {
            assert(b@.take(i + 1).drop_last() =~= b@.take(i as int));
            assert(b@.take(i + 1).last() == x);
            assert(out@ =~= before + spec_escape_byte(x));
        }
        i = i + 1;
    }
    proof {
        assert(b@.take(i as int) =~= b@);
    }
    ascii_to_string(out)
}

/// The transport the client sends its request with.
#[derive(Clone, Copy, Debug, PartialEq, Eq, Structural)]
pub enum HttpClientKind {
    /// Oblivious HTTP, through the proxy.
    OHttp,
    /// HTTP/2 (or HTTP/1.1), directly or tunnelled through the proxy.
    Http2,
    Http3,
}

/// The transport for a command line: Oblivious HTTP when asked for;
/// through a proxy, HTTP/2 only (HTTP/3 proxying is not available);
/// otherwise HTTP/3 when asked for, else HTTP/2.
pub fn select_http_client(args: &Args) -> (r: Result<HttpClientKind, &'static str>)
    ensures
        args.ohttp ==> r == Ok::<HttpClientKind, &'static str>(HttpClientKind::OHttp),
        !args.ohttp && args.proxy is Some ==> (if args.proxy_http3 {
            r is Err
        } else {
            r == Ok::<HttpClientKind, &'static str>(HttpClientKind::Http2)
        }),
        !args.ohttp && args.proxy is None ==> r == Ok::<HttpClientKind, &'static str>(
            if args.http3 { HttpClientKind::Http3 } else { HttpClientKind::Http2 },
        ),
{
    if args.ohttp {
        return Ok(HttpClientKind::OHttp);
    }
    if args.proxy.is_some() {
        if args.proxy_http3 {
            if args.http3 {
                return Err("MASQUE, or proxy-http3 connect with inner http3 is not implemented yet");
            }
            return Err("CONNECT-TLS proxying through http3 is not implemented yet");
        } else {
            return Ok(HttpClientKind::Http2);
        }
    }
    if args.http3 {
        return Ok(HttpClientKind::Http3);
    }
    Ok(HttpClientKind::Http2)
}

/// How much the client logs.
#[derive(Clone, Copy, Debug, PartialEq, Eq, Structural)]
pub enum LogVerbosity {
    Critical,
    Warning,
    Info,
    Debug,
    Trace,
}

/// The log level of a command line: critical only when silent, else
/// warnings, then one more level per `-v`, up to trace.
pub fn log_verbosity(silent: bool, verbosity: u8) -> (v: LogVerbosity)
    ensures
        v == (if silent {
            LogVerbosity::Critical
        } else if verbosity == 0 {
            LogVerbosity::Warning
        } else if verbosity == 1 {
            LogVerbosity::Info
        } else if verbosity == 2 {
            LogVerbosity::Debug
        } else {
            LogVerbosity::Trace
        }),
{
    if silent {
        LogVerbosity::Critical
    } else {
        match verbosity {
            0 => LogVerbosity::Warning,
            1 => LogVerbosity::Info,
            2 => LogVerbosity::Debug,
            _ => LogVerbosity::Trace,
        }
    }
}

} // verus!
