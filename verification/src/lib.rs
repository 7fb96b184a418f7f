//! A minimal HTTP/1.1 request pipeline: request-line and header parsing,
//! dispatch to a route table or a static-file candidate, and response
//! planning. All decision logic is verified; reading from and writing to
//! sockets and the filesystem is left to the embedding program.

pub mod connection;
pub mod dispatch;
pub mod headers;
pub mod request;
pub mod response;
pub mod routes;
pub mod text;
