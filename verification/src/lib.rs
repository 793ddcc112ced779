//! Verified core of a small TCP toolkit: an HTTP request parser, router and
//! response builder, and the bookkeeping of a length-prefixed socket server.
pub mod http;
pub mod socket;
pub mod text;
