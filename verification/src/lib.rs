//! A small HTTP toolkit: request parsing, routing, response serialisation,
//! multipart form decoding, chunked transfer decoding and a few helpers
//! around logging and graceful shutdown.
pub mod client;
pub mod clock;
pub mod transport;
pub mod logger;
pub mod request;
pub mod response;
pub mod router;
pub mod server;
pub mod text;
