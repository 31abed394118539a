//! Protocol tags and the error taxonomy of a detection attempt.

use vstd::prelude::*;

verus! {

/// Upper bound on the payload length a record header may declare:
/// 2^14 bytes of plaintext plus the expansion allowance.  A larger
/// declared length is corruption, not partial data.
pub const MAX_RECORD_PAYLOAD: u16 = 18432;

/// Cap on the bytes gathered during one detection attempt; a peer that
/// trickles bytes past this bound without completing a ClientHello is
/// rejected rather than buffered without limit.
pub const PEEK_BUFFER_LIMIT: usize = 65536;

/// Record-layer content type.
#[derive(Clone, Copy, PartialEq, Eq, Structural, Debug)]
pub enum ContentType {
    ChangeCipherSpec,
    Alert,
    Handshake,
    ApplicationData,
    Unknown(u8),
}

pub open spec fn spec_content_type(b: u8) -> ContentType {
    if b == 20 {
        ContentType::ChangeCipherSpec
    } else if b == 21 {
        ContentType::Alert
    } else if b == 22 {
        ContentType::Handshake
    } else if b == 23 {
        ContentType::ApplicationData
    } else {
        ContentType::Unknown(b)
    }
}

impl ContentType {
    pub fn from_byte(b: u8) -> (r: ContentType)
        ensures
            r == spec_content_type(b),
    {
        if b == 20 {
            ContentType::ChangeCipherSpec
        } else if b == 21 {
            ContentType::Alert
        } else if b == 22 {
            ContentType::Handshake
        } else if b == 23 {
            ContentType::ApplicationData
        } else {
            ContentType::Unknown(b)
        }
    }
}

/// Handshake-layer message type.
#[derive(Clone, Copy, PartialEq, Eq, Structural, Debug)]
pub enum HandshakeType {
    ClientHello,
    ServerHello,
    Unknown(u8),
}

pub open spec fn spec_handshake_type(b: u8) -> HandshakeType {
    if b == 1 {
        HandshakeType::ClientHello
    } else if b == 2 {
        HandshakeType::ServerHello
    } else {
        HandshakeType::Unknown(b)
    }
}

impl HandshakeType {
    pub fn from_byte(b: u8) -> (r: HandshakeType)
        ensures
            r == spec_handshake_type(b),
    {
        if b == 1 {
            HandshakeType::ClientHello
        } else if b == 2 {
            HandshakeType::ServerHello
        } else {
            HandshakeType::Unknown(b)
        }
    }
}

/// Why a detection attempt failed.  "Not enough bytes yet" is never an
/// error; it is the control-flow outcome that asks the caller to loop.
#[derive(Clone, Copy, PartialEq, Eq, Structural, Debug)]
pub enum ParseError {
    /// The stream ended while the first handshake message was still
    /// incomplete.
    EndOfStream,
    /// A record header declared a payload longer than the protocol
    /// maximum; record boundaries can never be recovered.
    CorruptRecord,
    /// A complete record arrived whose content type is not Handshake
    /// before the first handshake message was finished.
    UnexpectedContentType(ContentType),
    /// The first handshake message is not a ClientHello.
    InappropriateHandshakeMessage { expected: HandshakeType, got: HandshakeType },
    /// A length field inside the ClientHello body is inconsistent with
    /// the number of bytes the handshake header declared.
    CorruptMessagePayload,
    /// The ClientHello is structurally valid but carries no usable
    /// signature_algorithms extension.
    MissingSignatureAlgorithms,
}

} // verus!
