//! Binary HTTP (RFC 9292) and Oblivious HTTP (RFC 9458) message handling.
use vstd::prelude::*;

pub mod args;
pub mod bhttp;
pub mod client;
pub mod error;
pub mod gateway;
pub mod http_parts;
pub mod ohttp;
pub mod stream_buf;
pub mod text;
pub mod varint;

verus! {

} // verus!
