//! The options of the command-line client.
use vstd::prelude::*;

verus! {

/// The method of the request to send.
#[derive(Clone, Copy, Debug, PartialEq, Eq, Structural)]
pub enum Method {
    Get,
    Post,
}

/// The command line: the target, how to reach it, and what to send.
#[derive(Clone, Debug)]
pub struct Args {
    pub url: String,
    /// `-v` info, `-vv` debug, `-vvv` trace.
    pub verbosity: u8,
    /// Only errors are logged.
    pub silent: bool,
    pub method: Option<Method>,
    pub header: Vec<String>,
    pub data: Option<String>,
    /// Send the request through Oblivious HTTP.
    pub ohttp: bool,
    pub http3: bool,
    /// The relay or proxy to go through.
    pub proxy: Option<String>,
    pub proxy_http3: bool,
    pub proxy_header: Vec<String>,
    /// The path of the gateway, below the proxy.
    pub gateway_path: String,
    /// The path of the key configuration, below the proxy.
    pub config_path: String,
    /// A relay to send the encapsulated request to first.
    pub first_hop: Option<String>,
    pub first_hop_header: Vec<String>,
    /// Addresses to use for a host and port in place of DNS.
    pub resolve: Vec<ResolveOverride>,
}

/// The addresses to connect to for a host and port, in place of DNS.
#[derive(Clone, Debug)]
pub struct ResolveOverride {
    pub host: String,
    pub port: u16,
    pub addresses: Vec<String>,
}

/// A request to send.
#[derive(Clone, Debug)]
pub struct RequestArgs {
    pub method: Method,
    pub url: String,
    pub headers: Vec<String>,
    pub body: Option<Vec<u8>>,
    /// The proxy to tunnel through with `CONNECT`, if any.
    pub proxy_connect: Option<String>,
    pub proxy_header: Vec<String>,
}

} // verus!
