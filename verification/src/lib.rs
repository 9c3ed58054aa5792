//! A minimal HTTP/1.1 protocol engine: request parsing, URI and cookie
//! decoding, response serialization, and exact-match routing, with the
//! wire behaviour of every operation stated and proved.
//!
//! Socket handling lives outside this crate; the engine works on plain
//! strings and values and decides each step of a connection's lifecycle.

pub mod text;
pub mod http;
pub mod router;
pub mod conn;
