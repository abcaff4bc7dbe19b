//! Name resolution overrides: addresses given on the command line for a
//! host and port, or for every host (`*`) on a port, before DNS.
use vstd::prelude::*;
use vstd::string::StringExecFns;
use crate::args::ResolveOverride;
use crate::client::{override_view, strings_view};

verus! {

/// An override: a host (or `*`), a port, and the addresses to use.
pub type OverrideV = (Seq<char>, u16, Seq<Seq<char>>);

/// The views of a list of strings.
pub open spec fn addrs_view(v: Seq<String>) -> Seq<Seq<char>> {
    Seq::new(v.len(), |i: int| v[i]@)
}

/// The addresses of the last override for `host` and `port`, as a map
/// built from the list would keep them.
pub open spec fn spec_lookup(o: Seq<OverrideV>, host: Seq<char>, port: u16) -> Option<Seq<Seq<char>>>
    decreases o.len(),
{
    if o.len() == 0 {
        None
    } else if o.last().0 == host && o.last().1 == port {
        Some(o.last().2)
    } else {
        spec_lookup(o.drop_last(), host, port)
    }
}

/// The wildcard host.
pub open spec fn wildcard() -> Seq<char> {
    seq!['*']
}

/// The addresses to use for `host` and `port`: those of its own override,
/// else those of the wildcard override for the port; `None` means DNS.
pub open spec fn spec_resolve_override(o: Seq<OverrideV>, host: Seq<char>, port: u16) -> Option<Seq<Seq<char>>> {
    match spec_lookup(o, host, port) {
        Some(a) => Some(a),
        None => spec_lookup(o, wildcard(), port),
    }
}

/// Resolution overrides.
pub struct Resolver {
    resolve_overrides: Vec<(String, u16, Vec<String>)>,
}

impl Resolver {
    pub closed spec fn overrides(&self) -> Seq<OverrideV> {
        Seq::new(self.resolve_overrides@.len(), |i: int| {
            let e = self.resolve_overrides@[i];
            (e.0@, e.1, addrs_view(e.2@))
        })
    }

    /// A resolver with the given overrides.
    pub fn new(resolve_overrides: Vec<(String, u16, Vec<String>)>) -> (r: Self)
        ensures
            r.overrides() == Seq::new(resolve_overrides@.len(), |i: int| {
                let e = resolve_overrides@[i];
                (e.0@, e.1, addrs_view(e.2@))
            }),
    {
        Resolver { resolve_overrides }
    }

    /// A resolver with the overrides of the command line, in order.
    pub fn from_overrides(overrides: &Vec<ResolveOverride>) -> (r: Self)
        ensures
            r.overrides() == Seq::new(overrides@.len(), |i: int| override_view(overrides@[i])),
    {
        let mut v: Vec<(String, u16, Vec<String>)> = Vec::new();
        let mut i: usize = 0;
        while i < overrides.len()
            invariant
                i <= overrides@.len(),
                v@.len() == i,
                forall|j: int| 0 <= j < i ==> {
                    let e = #[trigger] v@[j];
                    (e.0@, e.1, addrs_view(e.2@)) == override_view(overrides@[j])
                },
            decreases overrides@.len() - i,
        {
            let o = &overrides[i];
            let mut addrs: Vec<String> = Vec::new();
            let mut k: usize = 0;
            while k < o.addresses.len()
                invariant
                    k <= o.addresses@.len(),
                    addrs@.len() == k,
                    forall|j: int| 0 <= j < k ==> (#[trigger] addrs@[j])@ == o.addresses@[j]@,
                decreases o.addresses@.len() - k,
            {
                addrs.push(o.addresses[k].clone());
                k = k + 1;
            }
            assert(addrs_view(addrs@) =~= strings_view(o.addresses@));
            v.push((o.host.clone(), o.port, addrs));
            i = i + 1;
        }
        let r = Resolver::new(v);
        assert(r.overrides() =~= Seq::new(overrides@.len(), |i: int| override_view(overrides@[i])));
        r
    }

    fn lookup(&self, host: &String, port: u16) -> (r: Option<Vec<String>>)
        ensures
            match spec_lookup(self.overrides(), host@, port) {
                Some(a) => r matches Some(v) && addrs_view(v@) == a,
                None => r is None,
            },
    {
        let o = &self.resolve_overrides;
        let mut i = o.len();
        proof {
            assert(self.overrides().take(i as int) =~= self.overrides());
        }
        while i > 0
            invariant
                i <= o@.len(),
                *o == self.resolve_overrides,
                spec_lookup(self.overrides(), host@, port) == spec_lookup(self.overrides().take(i as int), host@, port),
            decreases i,
        {
            let e = &o[i - 1];
            let ghost t = self.overrides().take(i as int);
            assert(t.last() == (e.0@, e.1, addrs_view(e.2@)));
            assert(t.drop_last() =~= self.overrides().take(i - 1));
            if e.1 == port && e.0 == *host {
                let mut out: Vec<String> = Vec::new();
                let mut j: usize = 0;
                while j < e.2.len()
                    invariant
                        j <= e.2@.len(),
                        out@.len() == j,
                        forall|k: int| 0 <= k < j ==> out@[k]@ == e.2@[k]@,
                    decreases e.2@.len() - j,
                {
                    out.push(e.2[j].clone());
                    j = j + 1;
                }
                assert(addrs_view(out@) =~= addrs_view(e.2@));
                return Some(out);
            }
            i = i - 1;
        }
        None
    }

    /// The override addresses for `host` and `port`: its own, else the
    /// wildcard's for the port; `None` when DNS is to be used.
    pub fn resolve_override(&self, host: &str, port: u16) -> (r: Option<Vec<String>>)
        ensures
            match spec_resolve_override(self.overrides(), host@, port) {
                Some(a) => r matches Some(v) && addrs_view(v@) == a,
                None => r is None,
            },
    {
        let h = String::from_str(host);
        match self.lookup(&h, port) {
            Some(a) => Some(a),
            None => {
                let star = String::from_str("*");
                proof {
                    reveal_strlit("*");
                    assert(star@ =~= wildcard());
                }
                self.lookup(&star, port)
            },
        }
    }
}

/// What `url::Url::parse` gives of a URL: its host, and its port or the
/// known default port of its scheme; `None` where it refuses the URL.
pub uninterp spec fn spec_url_host_port(s: Seq<char>) -> Option<(Option<Seq<char>>, Option<u16>)>;

/// `url::Url::parse`, then `host_str` and `port_or_known_default`.
#[verifier::external_body]
pub(crate) fn url_host_port(s: &str) -> (r: Option<(Option<String>, Option<u16>)>)
    ensures
        match r {
            Some((h, p)) => spec_url_host_port(s@) == Some((crate::client::opt_str(h), p)),
            None => spec_url_host_port(s@) is None,
        },
{
    let u = url::Url::parse(s).ok()?;
    Some((u.host_str().map(|h| h.to_string()), u.port_or_known_default()))
}

/// The host and port a URL names: the URL must parse and have a host; the
/// port defaults to that of the scheme, else 443.
pub fn resolve_target(url: &str) -> (r: Result<(String, u16), &'static str>)
    ensures
        match spec_url_host_port(url@) {
            None => r is Err,
            Some((None, _)) => r is Err,
            Some((Some(h), p)) => r matches Ok((host, port)) && host@ == h && port == match p {
                Some(x) => x,
                None => 443u16,
            },
        },
{
    let (host, port) = match url_host_port(url) {
        Some(x) => x,
        None => return Err("invalid URL"),
    };
    let host = match host {
        Some(h) => h,
        None => return Err("No host name in the URL"),
    };
    let port = match port {
        Some(p) => p,
        None => 443,
    };
    Ok((host, port))
}

} // verus!
