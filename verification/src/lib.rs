//! Extraction of the TLS ClientHello from the leading bytes of a connection.
//!
//! The crate reassembles TLS record-layer frames, joins the handshake
//! bytes they carry into the first handshake message, decodes a
//! ClientHello, and projects out the fields a router needs: server name
//! (SNI), ALPN protocols, cipher suites and signature schemes.  Every
//! step is specified against a pure model of the wire format, so the
//! result of a parse depends only on the bytes seen so far, never on how
//! they were chunked.

pub mod wire;
pub mod types;
pub mod hostname;
pub mod extensions;
pub mod payload;
pub mod deframe;
pub mod parser;
pub mod client_hello;
pub mod detector;
pub mod encode;
pub mod laws;

pub use client_hello::ClientHello;
pub use detector::{DetectError, Detector};
pub use extensions::Extension;
pub use parser::Parser;
pub use payload::ClientHelloPayload;
pub use types::{ContentType, HandshakeType, ParseError};
