//! The detection state machine: one decision step per peeked chunk.
//!
//! The surrounding program is expected to loop: peek at the
//! connection, hand the newly visible bytes to `feed`, and stop at the
//! first terminal result.  `feed` never blocks and performs no I/O, so
//! a blocking and a suspending driver share this logic unchanged.

use vstd::prelude::*;

use crate::deframe::{outcome_of, Outcome};
use crate::extensions::sigalgs_of;
use crate::parser::Parser;
use crate::payload::ClientHelloPayload;
use crate::types::{ParseError, PEEK_BUFFER_LIMIT};

verus! {

/// Why a detection attempt ended without a ClientHello.
#[derive(Clone, Copy, PartialEq, Eq, Structural, Debug)]
pub enum DetectError {
    /// The peer stopped sending before the first handshake message
    /// was complete.
    EndOfStream,
    /// The attempt gathered more bytes than the buffer cap allows
    /// without reaching a decision.
    BufferLimitExceeded,
    /// The bytes themselves were unusable.
    Parse(ParseError),
}

/// Detects the ClientHello at the front of one inbound connection.
/// One instance serves one attempt; a terminal result is final.
pub struct Detector {
    parser: Parser,
}

impl View for Detector {
    type V = Seq<u8>;

    closed spec fn view(&self) -> Seq<u8> {
        self.parser@
    }
}

impl Default for Detector {
    fn default() -> (r: Detector)
        ensures
            r@ == Seq::<u8>::empty(),
    {
        Detector::new()
    }
}

impl Detector {
    /// A detector that has seen no bytes.
    pub fn new() -> (r: Detector)
        ensures
            r@ == Seq::<u8>::empty(),
    {
        Detector { parser: Parser::new() }
    }

    /// One step of the detection loop.  `chunk` holds the bytes newly
    /// visible since the last step, an empty chunk meaning the stream
    /// ended.  `Ok(None)` asks the caller to peek again; everything
    /// else is terminal: the complete ClientHello (which is then
    /// guaranteed to carry signature schemes), or the reason the
    /// attempt failed.
    pub fn feed(&mut self, chunk: &[u8]) -> (r: Result<Option<ClientHelloPayload>, DetectError>)
        ensures
            old(self)@.len() + chunk@.len() > PEEK_BUFFER_LIMIT as int ==> final(self)@ == old(
                self,
            )@ && (r matches Err(e) && e == DetectError::BufferLimitExceeded),
            old(self)@.len() + chunk@.len() <= PEEK_BUFFER_LIMIT as int ==> final(self)@ == old(
                self,
            )@ + chunk@ && (match outcome_of(old(self)@ + chunk@) {
                Outcome::Done(v) => match sigalgs_of(v.extensions) {
                    Option::Some(_) => r matches Ok(Some(p)) && p@ == v,
                    Option::None => r matches Err(e) && e == DetectError::Parse(
                        ParseError::MissingSignatureAlgorithms,
                    ),
                },
                Outcome::Invalid(e) => r matches Err(de) && de == DetectError::Parse(e),
                Outcome::Partial => if chunk@.len() == 0 {
                    r matches Err(e) && e == DetectError::EndOfStream
                } else {
                    r matches Ok(None)
                },
            }),
    {
        if chunk.len() > PEEK_BUFFER_LIMIT || self.parser.buffered_len() > PEEK_BUFFER_LIMIT
            - chunk.len() {
            return Err(DetectError::BufferLimitExceeded);
        }
        proof {
            crate::deframe::lemma_scan_errors(old(self)@ + chunk@, Seq::empty());
        }
        match self.parser.parse(chunk) {
            Result::Ok(Option::Some(p)) => match p.signature_schemes_list() {
                Option::Some(_) => Ok(Some(p)),
                Option::None => Err(DetectError::Parse(ParseError::MissingSignatureAlgorithms)),
            },
            Result::Ok(Option::None) => Ok(None),
            Result::Err(ParseError::EndOfStream) => Err(DetectError::EndOfStream),
            Result::Err(e) => Err(DetectError::Parse(e)),
        }
    }
}

} // verus!
