//! A Twirp-style RPC protocol runtime: a server-side router and a client-side
//! request pipeline over plain HTTP POST, with a JSON error envelope.
//!
//! The protocol engine itself — the error taxonomy and its wire mapping, the
//! error envelope codec, route lookup, content negotiation, URL handling, the
//! middleware chain and in-process direct dispatch — is verified. Transport
//! (sockets, TLS, connection pooling) and message codecs (protobuf, JSON
//! bodies of application messages) are external collaborators reached from
//! unverified glue.

pub mod client;
pub mod context;
pub mod endpoint;
pub mod error;
pub mod json;
pub mod server;
pub mod text;

pub use client::Client;
pub use client::ClientBuilder;
pub use client::DirectHandler;
pub use client::Middleware;
pub use client::Next;
pub use context::Context;
pub use error::TwirpErrorCode;
pub use error::TwirpErrorResponse;
pub use server::Router;
pub use server::Timings;
