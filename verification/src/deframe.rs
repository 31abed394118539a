//! Record-layer deframing and handshake reassembly.
//!
//! `outcome_of` is the pure model of one detection attempt: it walks
//! complete records at the front of the bytes seen so far, concatenates
//! Handshake payloads, and decides Partial, Invalid or Done.  Every
//! executable entry point of the crate is specified against it, which
//! is what makes the result independent of how the bytes arrived.

use vstd::prelude::*;

use crate::payload::{decode_client_hello, ClientHelloPayload, ClientHelloView, decode_body};
use crate::types::{
    spec_content_type, spec_handshake_type, ContentType, HandshakeType, ParseError,
    MAX_RECORD_PAYLOAD,
};
use crate::wire::{append_range, read_u16, read_u24, u16_of, u24_of};

verus! {

/// What the bytes gathered so far amount to.
#[verifier::ext_equal]
pub ghost enum Outcome {
    /// No decision yet: more bytes are needed.
    Partial,
    /// The attempt failed; the error is final for every extension of
    /// the input.
    Invalid(ParseError),
    /// A complete ClientHello was read.
    Done(ClientHelloView),
}

/// One step per record: `bytes` is what remains of the input, `acc`
/// the handshake bytes of the records already consumed.  A record is
/// examined only when complete; its header's declared length is
/// checked against the protocol maximum as soon as the header itself
/// is complete.
pub open spec fn scan(bytes: Seq<u8>, acc: Seq<u8>) -> Outcome
    decreases bytes.len(),
{
    if bytes.len() < 5 {
        Outcome::Partial
    } else {
        let rlen = u16_of(bytes[3], bytes[4]) as int;
        if rlen > MAX_RECORD_PAYLOAD as int {
            Outcome::Invalid(ParseError::CorruptRecord)
        } else if bytes.len() < 5 + rlen {
            Outcome::Partial
        } else if spec_content_type(bytes[0]) != ContentType::Handshake {
            Outcome::Invalid(ParseError::UnexpectedContentType(spec_content_type(bytes[0])))
        } else {
            let acc2 = acc + bytes.subrange(5, 5 + rlen);
            if acc2.len() < 4 {
                scan(bytes.skip(5 + rlen), acc2)
            } else {
                let mt = spec_handshake_type(acc2[0]);
                let hlen = u24_of(acc2[1], acc2[2], acc2[3]);
                if mt != HandshakeType::ClientHello {
                    Outcome::Invalid(ParseError::InappropriateHandshakeMessage {
                        expected: HandshakeType::ClientHello,
                        got: mt,
                    })
                } else if acc2.len() < 4 + hlen {
                    scan(bytes.skip(5 + rlen), acc2)
                } else {
                    match decode_client_hello(acc2.subrange(4, 4 + hlen)) {
                        Option::Some(v) => Outcome::Done(v),
                        Option::None => Outcome::Invalid(ParseError::CorruptMessagePayload),
                    }
                }
            }
        }
    }
}

/// The outcome of a detection attempt that has seen exactly `bytes`.
pub open spec fn outcome_of(bytes: Seq<u8>) -> Outcome {
    scan(bytes, Seq::empty())
}

/// `scan` decides framing only: running out of bytes is Partial, never
/// the EndOfStream error, which belongs to the caller that knows the
/// stream ended.
pub proof fn lemma_scan_errors(bytes: Seq<u8>, acc: Seq<u8>)
    ensures
        scan(bytes, acc) matches Outcome::Invalid(e) ==> e != ParseError::EndOfStream,
    decreases bytes.len(),
{
    if bytes.len() >= 5 {
        let rlen = u16_of(bytes[3], bytes[4]) as int;
        if rlen <= MAX_RECORD_PAYLOAD as int && bytes.len() >= 5 + rlen {
            let acc2 = acc + bytes.subrange(5, 5 + rlen);
            lemma_scan_errors(bytes.skip(5 + rlen), acc2);
        }
    }
}

/// Runs the deframer and reassembler over everything available.
/// `Ok(None)` is the Partial outcome: no error, more bytes needed.
pub fn parse_available(buf: &[u8]) -> (r: Result<Option<ClientHelloPayload>, ParseError>)
    ensures
        match outcome_of(buf@) {
            Outcome::Partial => r matches Ok(None),
            Outcome::Invalid(e) => r matches Err(pe) && pe == e,
            Outcome::Done(v) => r matches Ok(Some(p)) && p@ == v,
        },
{
    let mut off: usize = 0;
    let mut acc: Vec<u8> = Vec::new();
    proof {
        assert(buf@.skip(0) =~= buf@);
        assert(acc@ =~= Seq::<u8>::empty());
    }
    loop
        invariant
            off <= buf@.len(),
            acc@.len() <= off,
            outcome_of(buf@) == scan(buf@.skip(off as int), acc@),
        decreases buf@.len() - off,
    {
        let ghost rem = buf@.skip(off as int);
        let remaining = buf.len() - off;
        if remaining < 5 {
            return Ok(None);
        }
        proof {
            assert(rem[0] == buf@[off as int]);
            assert(rem[3] == buf@[off + 3]);
            assert(rem[4] == buf@[off + 4]);
        }
        let rlen = read_u16(buf[off + 3], buf[off + 4]);
        if rlen > MAX_RECORD_PAYLOAD {
            return Err(ParseError::CorruptRecord);
        }
        let rlen = rlen as usize;
        if remaining < 5 + rlen {
            return Ok(None);
        }
        let ct = ContentType::from_byte(buf[off]);
        if ct != ContentType::Handshake {
            return Err(ParseError::UnexpectedContentType(ct));
        }
        let ghost acc_pre = acc@;
        append_range(&mut acc, buf, off + 5, off + 5 + rlen);
        proof {
            assert(rem.subrange(5, 5 + rlen as int) =~= buf@.subrange(off + 5, off + 5 + rlen));
            assert(acc@ == acc_pre + rem.subrange(5, 5 + rlen as int));
            assert(rem.skip(5 + rlen as int) =~= buf@.skip(off + 5 + rlen));
        }
        if acc.len() >= 4 {
            let mt = HandshakeType::from_byte(acc[0]);
            if mt != HandshakeType::ClientHello {
                return Err(ParseError::InappropriateHandshakeMessage {
                    expected: HandshakeType::ClientHello,
                    got: mt,
                });
            }
            let hlen = read_u24(acc[1], acc[2], acc[3]);
            if acc.len() >= 4 + hlen {
                proof {
                    assert(acc@.subrange(4, 4 + hlen as int) == acc@.subrange(
                        4,
                        4 + u24_of(acc@[1], acc@[2], acc@[3]),
                    ));
                }
                let body = vstd::slice::slice_subrange(acc.as_slice(), 4, 4 + hlen);
                return match decode_body(body) {
                    Option::Some(p) => Ok(Some(p)),
                    Option::None => Err(ParseError::CorruptMessagePayload),
                };
            }
        }
        off = off + 5 + rlen;
    }
}

} // verus!
