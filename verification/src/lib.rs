//! A minimal HTTP/1.1 engine over plain bytes: a request decoder, a
//! response builder and encoder with gzip negotiation, a router over path
//! templates with named parameters, and a dispatcher that serves one
//! exchange per connection.

pub mod framing;
pub mod gzip;
pub mod handlers;
pub mod payload;
pub mod request;
pub mod response;
pub mod router;
pub mod server;
pub mod shared;
pub mod text;
