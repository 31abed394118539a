//! The decoded ClientHello body and its decoder.
//!
//! `decode_client_hello` is the mathematical statement of the wire
//! format: fixed fields in order, each length-prefixed field checked
//! against the number of bytes the handshake header declared, and the
//! extensions block required to fill the body exactly.  `decode_body`
//! is the executable decoder, proved to return exactly what the
//! statement says for every input.

use vstd::prelude::*;

use crate::extensions::{exts_view, Extension, ExtensionView};
use crate::wire::{copy_range, read_u16, read_u16_list, u16_list_of, u16_of};

verus! {

/// A structurally valid ClientHello body.
#[derive(Debug, PartialEq, Eq)]
pub struct ClientHelloPayload {
    pub legacy_version: u16,
    pub random: Vec<u8>,
    pub session_id: Vec<u8>,
    pub cipher_suites: Vec<u16>,
    pub compression_methods: Vec<u8>,
    pub extensions: Vec<Extension>,
}

/// Mathematical image of a ClientHello body.
#[verifier::ext_equal]
pub ghost struct ClientHelloView {
    pub legacy_version: u16,
    pub random: Seq<u8>,
    pub session_id: Seq<u8>,
    pub cipher_suites: Seq<u16>,
    pub compression_methods: Seq<u8>,
    pub extensions: Seq<ExtensionView>,
}

impl View for ClientHelloPayload {
    type V = ClientHelloView;

    open spec fn view(&self) -> ClientHelloView {
        ClientHelloView {
            legacy_version: self.legacy_version,
            random: self.random@,
            session_id: self.session_id@,
            cipher_suites: self.cipher_suites@,
            compression_methods: self.compression_methods@,
            extensions: exts_view(self.extensions@),
        }
    }
}

/// The extensions encoded by `d`: {type: u16, length: u16, data}
/// repeated, filling `d` exactly; `None` on any inconsistency.
pub open spec fn exts_of(d: Seq<u8>) -> Option<Seq<ExtensionView>>
    decreases d.len(),
{
    if d.len() == 0 {
        Some(Seq::empty())
    } else if d.len() < 4 {
        None
    } else {
        let l = u16_of(d[2], d[3]) as int;
        if d.len() < 4 + l {
            None
        } else {
            match exts_of(d.skip(4 + l)) {
                Option::None => Option::None,
                Option::Some(rest) => Option::Some(
                    seq![ExtensionView { extension_type: u16_of(d[0], d[1]), data: d.subrange(4, 4 + l) }]
                        + rest,
                ),
            }
        }
    }
}

/// The ClientHello encoded by a handshake body: protocol version,
/// 32 bytes of random, length-prefixed session id of at most 32 bytes,
/// length-prefixed cipher-suite list of whole 16-bit values,
/// length-prefixed compression-method list, then an extensions block
/// that fills the rest exactly (or nothing at all).  `None` means the
/// body is corrupt.
pub open spec fn decode_client_hello(body: Seq<u8>) -> Option<ClientHelloView> {
    if body.len() < 35 {
        None
    } else {
        let sid_len = body[34] as int;
        if sid_len > 32 {
            None
        } else if body.len() < 35 + sid_len + 2 {
            None
        } else {
            let cs_off = 35 + sid_len;
            let cs_len = u16_of(body[cs_off], body[cs_off + 1]) as int;
            if cs_len % 2 != 0 {
                None
            } else if body.len() < cs_off + 2 + cs_len + 1 {
                None
            } else {
                let cm_off = cs_off + 2 + cs_len;
                let cm_len = body[cm_off] as int;
                if body.len() < cm_off + 1 + cm_len {
                    None
                } else {
                    let ext_off = cm_off + 1 + cm_len;
                    let fields = ClientHelloView {
                        legacy_version: u16_of(body[0], body[1]),
                        random: body.subrange(2, 34),
                        session_id: body.subrange(35, 35 + sid_len),
                        cipher_suites: u16_list_of(body.subrange(cs_off + 2, cs_off + 2 + cs_len)),
                        compression_methods: body.subrange(cm_off + 1, cm_off + 1 + cm_len),
                        extensions: Seq::empty(),
                    };
                    if body.len() == ext_off {
                        Some(fields)
                    } else if body.len() < ext_off + 2 {
                        None
                    } else {
                        let ext_len = u16_of(body[ext_off], body[ext_off + 1]) as int;
                        if body.len() != ext_off + 2 + ext_len {
                            None
                        } else {
                            match exts_of(body.subrange(ext_off + 2, body.len() as int)) {
                                Option::None => Option::None,
                                Option::Some(exts) => Option::Some(
                                    ClientHelloView { extensions: exts, ..fields },
                                ),
                            }
                        }
                    }
                }
            }
        }
    }
}

/// Decodes the extensions block `body[start..]`, which must fill it
/// exactly.
fn decode_exts(body: &[u8], start: usize) -> (r: Option<Vec<Extension>>)
    requires
        start <= body@.len(),
    ensures
        match exts_of(body@.skip(start as int)) {
            Option::Some(exts) => r matches Some(v) && exts_view(v@) == exts,
            Option::None => r is None,
        },
{
    let mut acc: Vec<Extension> = Vec::new();
    let mut pos: usize = start;
    proof {
        match exts_of(body@.skip(start as int)) {
            Option::None => {},
            Option::Some(rest) => {
                assert(exts_view(acc@) + rest =~= rest);
            },
        }
    }
    loop
        invariant
            start <= pos <= body@.len(),
            match exts_of(body@.skip(pos as int)) {
                Option::None => exts_of(body@.skip(start as int)) is None,
                Option::Some(rest) => exts_of(body@.skip(start as int)) == Some(
                    exts_view(acc@) + rest,
                ),
            },
        decreases body@.len() - pos,
    {
        let ghost d = body@.skip(pos as int);
        let remaining = body.len() - pos;
        if remaining == 0 {
            proof {
                assert(exts_view(acc@) + Seq::<ExtensionView>::empty() =~= exts_view(acc@));
            }
            return Some(acc);
        }
        if remaining < 4 {
            return None;
        }
        let t = read_u16(body[pos], body[pos + 1]);
        let l = read_u16(body[pos + 2], body[pos + 3]) as usize;
        proof {
            assert(d[0] == body@[pos as int]);
            assert(d[1] == body@[pos + 1]);
            assert(d[2] == body@[pos + 2]);
            assert(d[3] == body@[pos + 3]);
        }
        if remaining < 4 + l {
            return None;
        }
        let data = copy_range(body, pos + 4, pos + 4 + l);
        let ghost pre = exts_view(acc@);
        acc.push(Extension { extension_type: t, data });
        proof {
            assert(d.subrange(4, 4 + l as int) =~= body@.subrange(pos + 4, pos + 4 + l));
            assert(d.skip(4 + l as int) =~= body@.skip(pos + 4 + l));
            match exts_of(body@.skip(pos + 4 + l)) {
                Option::None => {},
                Option::Some(rest) => {
                    assert(exts_of(d) == Some(
                        seq![ExtensionView { extension_type: t, data: d.subrange(4, 4 + l as int) }]
                            + rest,
                    ));
                    assert(pre + (seq![
                        ExtensionView { extension_type: t, data: d.subrange(4, 4 + l as int) },
                    ] + rest) =~~= exts_view(acc@) + rest);
                },
            }
        }
        pos = pos + 4 + l;
    }
}

/// Decodes a complete handshake body as a ClientHello.
pub fn decode_body(body: &[u8]) -> (r: Option<ClientHelloPayload>)
    ensures
        match decode_client_hello(body@) {
            Option::Some(v) => r matches Some(p) && p@ == v,
            Option::None => r is None,
        },
{
    let n = body.len();
    if n < 35 {
        return None;
    }
    let sid_len = body[34] as usize;
    if sid_len > 32 {
        return None;
    }
    if n < 35 + sid_len + 2 {
        return None;
    }
    let cs_off = 35 + sid_len;
    let cs_len = read_u16(body[cs_off], body[cs_off + 1]) as usize;
    if cs_len % 2 != 0 {
        return None;
    }
    if n < cs_off + 2 + cs_len + 1 {
        return None;
    }
    let cm_off = cs_off + 2 + cs_len;
    let cm_len = body[cm_off] as usize;
    if n < cm_off + 1 + cm_len {
        return None;
    }
    let ext_off = cm_off + 1 + cm_len;
    let legacy_version = read_u16(body[0], body[1]);
    let random = copy_range(body, 2, 34);
    let session_id = copy_range(body, 35, 35 + sid_len);
    let cipher_suites = read_u16_list(body, cs_off + 2, cs_off + 2 + cs_len);
    let compression_methods = copy_range(body, cm_off + 1, cm_off + 1 + cm_len);
    if n == ext_off {
        let p = ClientHelloPayload {
            legacy_version,
            random,
            session_id,
            cipher_suites,
            compression_methods,
            extensions: Vec::new(),
        };
        proof {
            assert(exts_view(p.extensions@) =~= Seq::<ExtensionView>::empty());
        }
        return Some(p);
    }
    if n < ext_off + 2 {
        return None;
    }
    let ext_len = read_u16(body[ext_off], body[ext_off + 1]) as usize;
    if n != ext_off + 2 + ext_len {
        return None;
    }
    proof {
        assert(body@.subrange(ext_off + 2, body@.len() as int) =~= body@.skip(ext_off + 2));
    }
    match decode_exts(body, ext_off + 2) {
        Option::Some(extensions) => {
            let p = ClientHelloPayload {
                legacy_version,
                random,
                session_id,
                cipher_suites,
                compression_methods,
                extensions,
            };
            Some(p)
        },
        Option::None => None,
    }
}

} // verus!
