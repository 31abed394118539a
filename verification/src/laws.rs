//! The global guarantees of the streaming parser, stated over the pure
//! model that every executable contract refers to.

use vstd::prelude::*;

use crate::deframe::{outcome_of, scan, Outcome};
use crate::encode::{
    be16, be24, encodable, encode_body, encode_client_hello, encode_ext, encode_exts,
    encode_u16_list, lemma_encode_u16_list_len,
};
use crate::extensions::ExtensionView;
use crate::payload::{decode_client_hello, exts_of, ClientHelloView};
use crate::types::{
    spec_content_type, spec_handshake_type, ContentType, HandshakeType, MAX_RECORD_PAYLOAD,
};
use crate::wire::{u16_list_of, u16_of, u24_of};

verus! {

/// Reading back the two big-endian bytes of a 16-bit value gives the
/// value.
pub proof fn lemma_be16_inverse(x: u16)
    ensures
        u16_of(be16(x)[0], be16(x)[1]) == x,
{
    assert(x / 256 <= 255) by (nonlinear_arith);
    assert((x / 256) * 256 + x % 256 == x) by (nonlinear_arith);
}

/// Once the model has decided, more bytes never change the decision:
/// `scan` of any extension of a decided input is the same decision.
pub proof fn lemma_scan_stable(p: Seq<u8>, s: Seq<u8>, acc: Seq<u8>)
    requires
        p.len() <= s.len(),
        p == s.subrange(0, p.len() as int),
        scan(p, acc) != Outcome::Partial,
    ensures
        scan(s, acc) == scan(p, acc),
    decreases p.len(),
{
    assert(p.len() >= 5);
    assert(p[0] == s[0] && p[3] == s[3] && p[4] == s[4]);
    let rlen = u16_of(p[3], p[4]) as int;
    if rlen <= MAX_RECORD_PAYLOAD as int {
        assert(p.len() >= 5 + rlen);
        if spec_content_type(p[0]) == ContentType::Handshake {
            let acc2 = acc + p.subrange(5, 5 + rlen);
            assert(p.subrange(5, 5 + rlen) =~= s.subrange(5, 5 + rlen));
            let p2 = p.skip(5 + rlen);
            let s2 = s.skip(5 + rlen);
            assert(p2 =~= s2.subrange(0, p2.len() as int));
            if acc2.len() < 4 {
                lemma_scan_stable(p2, s2, acc2);
            } else {
                let hlen = u24_of(acc2[1], acc2[2], acc2[3]);
                if spec_handshake_type(acc2[0]) == HandshakeType::ClientHello && acc2.len() < 4
                    + hlen {
                    lemma_scan_stable(p2, s2, acc2);
                }
            }
        }
    }
}

/// Chunk-size independence.  A detector stops at the first chunk
/// boundary where the bytes seen so far decide; by this lemma that
/// early decision equals the decision on the full byte sequence, so
/// the reported result depends only on the bytes, never on how they
/// were cut into chunks.
pub proof fn lemma_chunk_size_independence(p: Seq<u8>, s: Seq<u8>)
    requires
        p.len() <= s.len(),
        p == s.subrange(0, p.len() as int),
        outcome_of(p) != Outcome::Partial,
    ensures
        outcome_of(s) == outcome_of(p),
{
    lemma_scan_stable(p, s, Seq::empty());
}

/// Partiality.  A strict prefix of an encoded ClientHello is always
/// Partial: never Done, never Invalid.  With the stability lemma this
/// pins the whole detection run on a trickled valid ClientHello: every
/// step before the last byte asks for more data.
pub proof fn lemma_strict_prefix_partial(v: ClientHelloView, n: int)
    requires
        encodable(v),
        0 <= n < encode_client_hello(v).len(),
    ensures
        outcome_of(encode_client_hello(v).take(n)) == Outcome::Partial,
{
    let e = encode_client_hello(v);
    let body = encode_body(v);
    let t = e.take(n);
    if n >= 5 {
        let rlen16 = (4 + body.len()) as u16;
        assert(e[3] == be16(rlen16)[0]);
        assert(e[4] == be16(rlen16)[1]);
        lemma_be16_inverse(rlen16);
        assert(u16_of(t[3], t[4]) as int == 4 + body.len());
        assert(e.len() == 9 + body.len());
        assert(t.len() < 5 + (4 + body.len()));
    }
}

/// A prefix of an input that ends in a complete ClientHello is never
/// rejected: while a valid hello is still trickling in, every
/// intermediate step either asks for more data or, when trailing
/// bytes were redundant, reports the same hello.
pub proof fn lemma_prefix_of_accepted_never_invalid(p: Seq<u8>, s: Seq<u8>)
    requires
        p.len() <= s.len(),
        p == s.subrange(0, p.len() as int),
        outcome_of(s) matches Outcome::Done(_),
    ensures
        !(outcome_of(p) matches Outcome::Invalid(_)),
{
    if outcome_of(p) matches Outcome::Invalid(_) {
        lemma_scan_stable(p, s, Seq::empty());
    }
}

/// Reading back the three big-endian bytes of a 24-bit value gives
/// the value.
pub proof fn lemma_be24_inverse(x: int)
    requires
        0 <= x < 16777216,
    ensures
        u24_of(be24(x)[0], be24(x)[1], be24(x)[2]) == x,
{
    assert(x / 65536 <= 255) by (nonlinear_arith)
        requires
            0 <= x < 16777216,
    ;
    assert((x / 256) % 256 == x / 256 - 256 * (x / 65536)) by (nonlinear_arith)
        requires
            0 <= x < 16777216,
    ;
    assert((x / 65536) * 65536 + ((x / 256) % 256) * 256 + x % 256 == x) by (nonlinear_arith)
        requires
            0 <= x < 16777216,
    ;
}

/// Decoding the byte-pair encoding of a 16-bit list gives the list.
proof fn lemma_u16_list_round(l: Seq<u16>)
    ensures
        u16_list_of(encode_u16_list(l)) == l,
    decreases l.len(),
{
    if l.len() == 0 {
        assert(u16_list_of(encode_u16_list(l)) =~= l);
    } else {
        let e = encode_u16_list(l);
        lemma_encode_u16_list_len(l.skip(1));
        assert(e[0] == be16(l[0])[0]);
        assert(e[1] == be16(l[0])[1]);
        lemma_be16_inverse(l[0]);
        assert(e.skip(2) =~= encode_u16_list(l.skip(1)));
        lemma_u16_list_round(l.skip(1));
        assert(u16_list_of(e) =~= l);
    }
}

/// Decoding an encoded extension list gives the list back, provided
/// every extension's data fits its 16-bit length field.
proof fn lemma_exts_round(exts: Seq<ExtensionView>)
    requires
        forall|j: int| 0 <= j < exts.len() ==> exts[j].data.len() <= 65535,
    ensures
        exts_of(encode_exts(exts)) == Some(exts),
    decreases exts.len(),
{
    if exts.len() == 0 {
        assert(exts_of(encode_exts(exts)) =~= Some(exts));
    } else {
        let e = encode_exts(exts);
        let first = encode_ext(exts[0]);
        let dlen = exts[0].data.len() as int;
        assert(first.len() == 4 + dlen);
        assert(e.len() == first.len() + encode_exts(exts.skip(1)).len());
        assert(e[0] == be16(exts[0].extension_type)[0]);
        assert(e[1] == be16(exts[0].extension_type)[1]);
        assert(e[2] == be16(exts[0].data.len() as u16)[0]);
        assert(e[3] == be16(exts[0].data.len() as u16)[1]);
        lemma_be16_inverse(exts[0].extension_type);
        lemma_be16_inverse(exts[0].data.len() as u16);
        assert(u16_of(e[2], e[3]) as int == dlen);
        assert(e.subrange(4, 4 + dlen) =~= exts[0].data);
        assert(e.skip(4 + dlen) =~= encode_exts(exts.skip(1)));
        lemma_exts_round(exts.skip(1));
        let head = ExtensionView { extension_type: u16_of(e[0], e[1]), data: e.subrange(4, 4 + dlen) };
        assert(head =~= exts[0]);
        assert(seq![head] + exts.skip(1) =~= exts);
    }
}

/// Decoding an encoded ClientHello body gives the ClientHello back.
#[verifier::rlimit(100)]
proof fn lemma_decode_body(v: ClientHelloView)
    requires
        encodable(v),
    ensures
        decode_client_hello(encode_body(v)) == Some(v),
{
    let body = encode_body(v);
    let sid = v.session_id.len() as int;
    let csn = v.cipher_suites.len() as int;
    let cmn = v.compression_methods.len() as int;
    let ebytes = encode_exts(v.extensions);
    let eln = ebytes.len() as int;
    lemma_encode_u16_list_len(v.cipher_suites);
    assert(body.len() == 40 + sid + 2 * csn + cmn + eln);
    assert(body[0] == be16(v.legacy_version)[0]);
    assert(body[1] == be16(v.legacy_version)[1]);
    lemma_be16_inverse(v.legacy_version);
    assert(body.subrange(2, 34) =~= v.random);
    assert(body[34] == sid as u8);
    assert(body.subrange(35, 35 + sid) =~= v.session_id);
    let cs_off = 35 + sid;
    assert(body[cs_off] == be16((2 * csn) as u16)[0]);
    assert(body[cs_off + 1] == be16((2 * csn) as u16)[1]);
    lemma_be16_inverse((2 * csn) as u16);
    assert(u16_of(body[cs_off], body[cs_off + 1]) as int == 2 * csn);
    assert(body.subrange(cs_off + 2, cs_off + 2 + 2 * csn) =~= encode_u16_list(v.cipher_suites));
    lemma_u16_list_round(v.cipher_suites);
    let cm_off = cs_off + 2 + 2 * csn;
    assert(body[cm_off] == cmn as u8);
    assert(body.subrange(cm_off + 1, cm_off + 1 + cmn) =~= v.compression_methods);
    let ext_off = cm_off + 1 + cmn;
    assert(body[ext_off] == be16(eln as u16)[0]);
    assert(body[ext_off + 1] == be16(eln as u16)[1]);
    lemma_be16_inverse(eln as u16);
    assert(u16_of(body[ext_off], body[ext_off + 1]) as int == eln);
    assert(body.len() == ext_off + 2 + eln);
    assert(body.subrange(ext_off + 2, body.len() as int) =~= ebytes);
    lemma_exts_round(v.extensions);
    let decoded = decode_client_hello(body);
    assert(decoded matches Some(w) && w =~~= v);
}

/// Round trip.  Feeding an encoded ClientHello to a fresh detection
/// attempt yields Done with exactly the encoded fields.
pub proof fn lemma_round_trip(v: ClientHelloView)
    requires
        encodable(v),
    ensures
        outcome_of(encode_client_hello(v)) == Outcome::Done(v),
{
    let e = encode_client_hello(v);
    let body = encode_body(v);
    let bl = body.len() as int;
    assert(bl >= 40);
    assert(e.len() == 9 + bl);
    assert(e[0] == 22);
    let rlen16 = (4 + bl) as u16;
    assert(e[3] == be16(rlen16)[0]);
    assert(e[4] == be16(rlen16)[1]);
    lemma_be16_inverse(rlen16);
    assert(u16_of(e[3], e[4]) as int == 4 + bl);
    let acc2 = Seq::<u8>::empty() + e.subrange(5, 5 + (4 + bl));
    assert(acc2 =~= seq![1u8] + be24(bl) + body);
    assert(acc2[0] == 1);
    assert(acc2[1] == be24(bl)[0]);
    assert(acc2[2] == be24(bl)[1]);
    assert(acc2[3] == be24(bl)[2]);
    lemma_be24_inverse(bl);
    assert(u24_of(acc2[1], acc2[2], acc2[3]) == bl);
    assert(acc2.len() == 4 + bl);
    assert(acc2.subrange(4, 4 + bl) =~= body);
    lemma_decode_body(v);
    assert(scan(e, Seq::empty()) == Outcome::Done(v));
}

} // verus!
