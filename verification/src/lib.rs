//! A small verified HTTP/1.1 protocol core: request parsing, a response
//! model with byte-exact serialization, route dispatch, and gzip content
//! negotiation.

pub mod bytes;
pub mod dispatch;
pub mod encoding;
pub mod headers;
pub mod lit;
pub mod request;
pub mod response;
