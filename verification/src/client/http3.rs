//! The log lines of the HTTP/3 transport.
use vstd::prelude::*;
use crate::text::concat;

verus! {

/// Formats the log lines of the HTTP/3 connection.
pub struct H3ConnectionLogger;

impl H3ConnectionLogger {
    /// A log line: the message after the HTTP/3 marker.
    pub fn line(message: &str) -> (s: String)
        ensures
            s@ == "---HTTP/3--- "@ + message@,
    {
        concat("---HTTP/3--- ", message)
    }
}

} // verus!
