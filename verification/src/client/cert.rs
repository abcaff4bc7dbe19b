//! The TLS material of a QUIC connection.
use vstd::prelude::*;

verus! {

/// Extra TLS material for a connection: a CA certificate to trust, and a
/// client certificate with its key for mutual TLS (PEM file paths).
pub struct X509ConnectionHook {
    pub cacert: Option<String>,
    pub client: Option<String>,
    pub key: Option<String>,
}

impl X509ConnectionHook {
    /// The client certificate and key to present, if any: both or neither
    /// must be given.
    pub fn mtls_files(&self) -> (r: Result<Option<(String, String)>, &'static str>)
        ensures
            self.client is Some != self.key is Some ==> r == Err::<Option<(String, String)>, &'static str>(
                "Both client certificate and key must be provided for mTLS",
            ),
            self.client is None && self.key is None ==> r == Ok::<Option<(String, String)>, &'static str>(None),
            self.client is Some && self.key is Some ==> (r matches Ok(Some((c, k))) && c@ == self.client.unwrap()@
                && k@ == self.key.unwrap()@),
    {
        match (&self.client, &self.key) {
            (Some(_), None) | (None, Some(_)) => Err("Both client certificate and key must be provided for mTLS"),
            (Some(c), Some(k)) => Ok(Some((c.clone(), k.clone()))),
            (None, None) => Ok(None),
        }
    }
}

} // verus!
