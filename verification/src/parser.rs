//! The incremental parser: owns the bytes seen so far and re-examines
//! them whenever more arrive.

use vstd::prelude::*;

use crate::deframe::{outcome_of, parse_available, Outcome};
use crate::payload::ClientHelloPayload;
use crate::types::ParseError;
use crate::wire::append_range;

verus! {

/// Accumulates the bytes of one detection attempt and parses the
/// first ClientHello out of them.  Not reusable across attempts: after
/// a terminal result the accumulated state keeps producing it.
pub struct Parser {
    buf: Vec<u8>,
}

impl View for Parser {
    type V = Seq<u8>;

    closed spec fn view(&self) -> Seq<u8> {
        self.buf@
    }
}

impl Default for Parser {
    fn default() -> (r: Parser)
        ensures
            r@ == Seq::<u8>::empty(),
    {
        Parser::new()
    }
}

impl Parser {
    /// A parser that has seen no bytes.
    pub fn new() -> (r: Parser)
        ensures
            r@ == Seq::<u8>::empty(),
    {
        Parser { buf: Vec::new() }
    }

    /// How many bytes this attempt has gathered so far.
    pub fn buffered_len(&self) -> (n: usize)
        ensures
            n == self@.len(),
    {
        self.buf.len()
    }

    /// Appends the bytes that arrived since the last call and decides
    /// what everything seen so far amounts to.  `Ok(None)` asks for
    /// more data.  An empty `chunk` says the stream ended: if no
    /// complete ClientHello is buffered by then, that is
    /// `EndOfStream`.
    pub fn parse(&mut self, chunk: &[u8]) -> (r: Result<Option<ClientHelloPayload>, ParseError>)
        ensures
            final(self)@ == old(self)@ + chunk@,
            match outcome_of(old(self)@ + chunk@) {
                Outcome::Done(v) => r matches Ok(Some(p)) && p@ == v,
                Outcome::Invalid(e) => r matches Err(pe) && pe == e,
                Outcome::Partial => if chunk@.len() == 0 {
                    r matches Err(pe) && pe == ParseError::EndOfStream
                } else {
                    r matches Ok(None)
                },
            },
    {
        let at_end = chunk.len() == 0;
        append_range(&mut self.buf, chunk, 0, chunk.len());
        proof {
            assert(chunk@.subrange(0, chunk@.len() as int) =~= chunk@);
        }
        match parse_available(self.buf.as_slice()) {
            Result::Ok(Option::Some(p)) => Ok(Some(p)),
            Result::Ok(Option::None) => if at_end {
                Err(ParseError::EndOfStream)
            } else {
                Ok(None)
            },
            Result::Err(e) => Err(e),
        }
    }
}

} // verus!
