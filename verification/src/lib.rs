//! A small HTTP/1.x message engine: it reads a request out of raw text and
//! builds the bytes of the response for what the request path names.

pub mod decimal;
pub mod escape;
pub mod http;
pub mod sniff;
pub mod text;
