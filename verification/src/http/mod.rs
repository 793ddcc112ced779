//! The HTTP side: request parsing, endpoint routing and response text.
pub mod endpoint;
pub mod keyed_map;
pub mod pattern;
pub mod reasons;
pub mod request;
pub mod response;
pub mod types;
