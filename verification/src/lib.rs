//! A minimal HTTP/1.1 request–response engine.
//!
//! Raw bytes from a connection are parsed into a typed [`request::HttpRequest`],
//! dispatched to a handler by exact (method, path) match through a
//! [`router::Router`], and the handler's [`response::HttpResponse`] is
//! serialized back into HTTP/1.1 wire form. All parsing, routing and
//! serialization logic is verified; socket and file I/O live outside
//! this crate.

pub mod request;
pub mod response;
pub mod router;
pub mod server;
pub mod strutil;
