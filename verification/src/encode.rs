//! Encoding a ClientHello back to wire bytes: one Handshake record
//! holding one ClientHello message.  The encoder is the inverse the
//! tests and the partiality law lean on: its output is a valid
//! ClientHello byte sequence by construction.

use vstd::prelude::*;

use crate::extensions::{exts_view, ExtensionView};
use crate::payload::{ClientHelloPayload, ClientHelloView};
use crate::types::MAX_RECORD_PAYLOAD;
use crate::wire::append_range;

verus! {

/// The two big-endian bytes of a 16-bit value.
pub open spec fn be16(v: u16) -> Seq<u8> {
    seq![(v / 256) as u8, (v % 256) as u8]
}

/// The three big-endian bytes of a 24-bit value.
pub open spec fn be24(v: int) -> Seq<u8> {
    seq![(v / 65536) as u8, ((v / 256) % 256) as u8, (v % 256) as u8]
}

/// Byte-pair encoding of a list of 16-bit values.
pub open spec fn encode_u16_list(l: Seq<u16>) -> Seq<u8>
    decreases l.len(),
{
    if l.len() == 0 {
        Seq::empty()
    } else {
        be16(l[0]) + encode_u16_list(l.skip(1))
    }
}

/// Wire form of one extension.
pub open spec fn encode_ext(e: ExtensionView) -> Seq<u8> {
    be16(e.extension_type) + be16(e.data.len() as u16) + e.data
}

/// Wire form of an extension list.
pub open spec fn encode_exts(exts: Seq<ExtensionView>) -> Seq<u8>
    decreases exts.len(),
{
    if exts.len() == 0 {
        Seq::empty()
    } else {
        encode_ext(exts[0]) + encode_exts(exts.skip(1))
    }
}

/// Wire form of a ClientHello handshake body.
pub open spec fn encode_body(v: ClientHelloView) -> Seq<u8> {
    be16(v.legacy_version) + v.random + seq![v.session_id.len() as u8] + v.session_id + be16(
        (2 * v.cipher_suites.len()) as u16,
    ) + encode_u16_list(v.cipher_suites) + seq![v.compression_methods.len() as u8]
        + v.compression_methods + be16(encode_exts(v.extensions).len() as u16) + encode_exts(
        v.extensions,
    )
}

/// Wire form of the whole detection input: a record header of type
/// Handshake, then the handshake header, then the body.
pub open spec fn encode_client_hello(v: ClientHelloView) -> Seq<u8> {
    let body = encode_body(v);
    seq![22u8, 3u8, 1u8] + be16((4 + body.len()) as u16) + seq![1u8] + be24(body.len() as int)
        + body
}

/// The ClientHello values the encoder accepts: every length fits its
/// field and the whole message fits one record.
pub open spec fn encodable(v: ClientHelloView) -> bool {
    &&& v.random.len() == 32
    &&& v.session_id.len() <= 32
    &&& v.cipher_suites.len() <= 32767
    &&& v.compression_methods.len() <= 255
    &&& (forall|j: int| 0 <= j < v.extensions.len() ==> v.extensions[j].data.len() <= 65535)
    &&& encode_exts(v.extensions).len() <= 65535
    &&& 4 + encode_body(v).len() <= MAX_RECORD_PAYLOAD as int
}

/// The encoding of a list of 16-bit values takes two bytes each.
pub proof fn lemma_encode_u16_list_len(l: Seq<u16>)
    ensures
        encode_u16_list(l).len() == 2 * l.len(),
    decreases l.len(),
{
    if l.len() > 0 {
        lemma_encode_u16_list_len(l.skip(1));
    }
}

fn push_u16(out: &mut Vec<u8>, v: u16)
    ensures
        final(out)@ == old(out)@ + be16(v),
{
    out.push((v / 256) as u8);
    out.push((v % 256) as u8);
    proof {
        assert(out@ =~= old(out)@ + be16(v));
    }
}

fn push_u24(out: &mut Vec<u8>, v: usize)
    requires
        v < 16777216,
    ensures
        final(out)@ == old(out)@ + be24(v as int),
{
    out.push((v / 65536) as u8);
    out.push(((v / 256) % 256) as u8);
    out.push((v % 256) as u8);
    proof {
        assert(out@ =~= old(out)@ + be24(v as int));
    }
}

/// Appends the byte-pair encoding of `l`.
fn push_u16_values(out: &mut Vec<u8>, l: &Vec<u16>)
    ensures
        final(out)@ == old(out)@ + encode_u16_list(l@),
{
    let mut k: usize = 0;
    proof {
        assert(l@.skip(0) =~= l@);
    }
    while k < l.len()
        invariant
            k <= l@.len(),
            out@ + encode_u16_list(l@.skip(k as int)) == old(out)@ + encode_u16_list(l@),
        decreases l@.len() - k,
    {
        let ghost rest = l@.skip(k as int);
        proof {
            assert(rest[0] == l@[k as int]);
            assert(rest.skip(1) =~= l@.skip(k + 1 as int));
        }
        push_u16(out, l[k]);
        proof {
            assert(out@ + encode_u16_list(l@.skip(k + 1 as int)) =~= old(out)@ + encode_u16_list(
                l@,
            ));
        }
        k = k + 1;
    }
    proof {
        assert(l@.skip(k as int) =~= Seq::<u16>::empty());
        assert(out@ + Seq::<u8>::empty() =~= out@);
    }
}

/// Encodes `p` when every field fits its wire form; `None` otherwise.
#[verifier::rlimit(60)]
pub fn encode(p: &ClientHelloPayload) -> (r: Option<Vec<u8>>)
    ensures
        encodable(p@) ==> (r matches Some(v) && v@ == encode_client_hello(p@)),
        !encodable(p@) ==> r is None,
{
    if p.random.len() != 32 {
        return None;
    }
    if p.session_id.len() > 32 {
        return None;
    }
    if p.cipher_suites.len() > 32767 {
        return None;
    }
    if p.compression_methods.len() > 255 {
        return None;
    }
    let mut exts_len: usize = 0;
    let mut k: usize = 0;
    proof {
        assert(exts_view(p.extensions@).skip(0) =~= exts_view(p.extensions@));
    }
    while k < p.extensions.len()
        invariant
            k <= p.extensions@.len(),
            exts_len <= 65535,
            forall|j: int| 0 <= j < k ==> exts_view(p.extensions@)[j].data.len() <= 65535,
            exts_len + encode_exts(exts_view(p.extensions@).skip(k as int)).len() == encode_exts(
                exts_view(p.extensions@),
            ).len(),
        decreases p.extensions@.len() - k,
    {
        let ghost rest = exts_view(p.extensions@).skip(k as int);
        proof {
            assert(rest[0] == exts_view(p.extensions@)[k as int]);
            assert(rest.skip(1) =~= exts_view(p.extensions@).skip(k + 1 as int));
            assert(encode_exts(rest) == encode_ext(rest[0]) + encode_exts(rest.skip(1)));
        }
        let dlen = p.extensions[k].data.len();
        if dlen > 65535 {
            return None;
        }
        if exts_len + 4 > 65535 - dlen {
            proof {
                lemma_encode_exts_len_at_least(exts_view(p.extensions@), k as int);
            }
            return None;
        }
        exts_len = exts_len + 4 + dlen;
        k = k + 1;
    }
    proof {
        assert(exts_view(p.extensions@).skip(k as int) =~= Seq::<ExtensionView>::empty());
        assert(exts_len == encode_exts(exts_view(p.extensions@)).len());
    }
    let body_len = 2 + 32 + 1 + p.session_id.len() + 2 + 2 * p.cipher_suites.len() + 1
        + p.compression_methods.len() + 2 + exts_len;
    proof {
        lemma_encode_u16_list_len(p@.cipher_suites);
        assert(encode_body(p@).len() == body_len);
    }
    if 4 + body_len > MAX_RECORD_PAYLOAD as usize {
        return None;
    }
    let mut out: Vec<u8> = Vec::new();
    out.push(22);
    out.push(3);
    out.push(1);
    proof {
        assert(out@ =~= seq![22u8, 3u8, 1u8]);
    }
    push_u16(&mut out, (4 + body_len) as u16);
    out.push(1);
    proof {
        assert(out@ =~= (seq![22u8, 3u8, 1u8] + be16((4 + body_len) as u16)) + seq![1u8]);
    }
    push_u24(&mut out, body_len);
    let ghost header = out@;
    push_u16(&mut out, p.legacy_version);
    append_range(&mut out, p.random.as_slice(), 0, 32);
    out.push(p.session_id.len() as u8);
    let sid_end = p.session_id.len();
    append_range(&mut out, p.session_id.as_slice(), 0, sid_end);
    proof {
        assert(p.random@.subrange(0, 32) =~= p@.random);
        assert(p.session_id@.subrange(0, sid_end as int) =~= p@.session_id);
        assert(out@ =~= header + (be16(p@.legacy_version) + p@.random + seq![
            p@.session_id.len() as u8,
        ] + p@.session_id));
    }
    let ghost mid1 = out@;
    push_u16(&mut out, (2 * p.cipher_suites.len()) as u16);
    push_u16_values(&mut out, &p.cipher_suites);
    out.push(p.compression_methods.len() as u8);
    let cm_end = p.compression_methods.len();
    append_range(&mut out, p.compression_methods.as_slice(), 0, cm_end);
    proof {
        assert(p.compression_methods@.subrange(0, cm_end as int) =~= p@.compression_methods);
        assert(out@ =~= mid1 + (be16((2 * p@.cipher_suites.len()) as u16) + encode_u16_list(
            p@.cipher_suites,
        ) + seq![p@.compression_methods.len() as u8] + p@.compression_methods));
    }
    let ghost mid2 = out@;
    push_u16(&mut out, exts_len as u16);
    let ghost pre_exts = out@;
    let mut k2: usize = 0;
    proof {
        assert(exts_view(p.extensions@).skip(0) =~= exts_view(p.extensions@));
    }
    while k2 < p.extensions.len()
        invariant
            k2 <= p.extensions@.len(),
            out@ + encode_exts(exts_view(p.extensions@).skip(k2 as int)) == pre_exts + encode_exts(
                exts_view(p.extensions@),
            ),
            forall|j: int|
                0 <= j < p.extensions@.len() ==> exts_view(p.extensions@)[j].data.len() <= 65535,
        decreases p.extensions@.len() - k2,
    {
        let ghost rest = exts_view(p.extensions@).skip(k2 as int);
        proof {
            assert(rest[0] == exts_view(p.extensions@)[k2 as int]);
            assert(rest.skip(1) =~= exts_view(p.extensions@).skip(k2 + 1 as int));
        }
        push_u16(&mut out, p.extensions[k2].extension_type);
        let dlen = p.extensions[k2].data.len();
        push_u16(&mut out, dlen as u16);
        append_range(&mut out, p.extensions[k2].data.as_slice(), 0, dlen);
        proof {
            assert(p.extensions@[k2 as int].data@.subrange(0, dlen as int) =~= rest[0].data);
            assert(encode_exts(rest) == encode_ext(rest[0]) + encode_exts(rest.skip(1)));
            assert(out@ + encode_exts(exts_view(p.extensions@).skip(k2 + 1 as int)) =~= pre_exts
                + encode_exts(exts_view(p.extensions@)));
        }
        k2 = k2 + 1;
    }
    proof {
        assert(exts_view(p.extensions@).skip(k2 as int) =~= Seq::<ExtensionView>::empty());
        assert(out@ + Seq::<u8>::empty() =~= out@);
        assert(out@ =~= mid2 + (be16(encode_exts(p@.extensions).len() as u16) + encode_exts(
            p@.extensions,
        )));
        assert(out@ =~= header + encode_body(p@));
        assert(header =~= seq![22u8, 3u8, 1u8] + be16((4 + encode_body(p@).len()) as u16) + seq![
            1u8,
        ] + be24(encode_body(p@).len() as int));
        assert(out@ =~= encode_client_hello(p@));
    }
    Some(out)
}

/// A partial sum of extension encodings never exceeds the whole.
proof fn lemma_encode_exts_len_at_least(exts: Seq<ExtensionView>, k: int)
    requires
        0 <= k < exts.len(),
    ensures
        encode_exts(exts).len() >= encode_exts(exts.skip(k)).len(),
        encode_exts(exts.skip(k)).len() >= 4 + exts[k].data.len(),
    decreases k,
{
    if k > 0 {
        assert(exts.skip(0) =~= exts);
        lemma_encode_exts_skip(exts, k);
    } else {
        assert(exts.skip(0) =~= exts);
    }
    let rest = exts.skip(k);
    assert(rest[0] == exts[k]);
    assert(encode_exts(rest) == encode_ext(rest[0]) + encode_exts(rest.skip(1)));
}

/// Encoding a suffix never takes more bytes than encoding the whole.
proof fn lemma_encode_exts_skip(exts: Seq<ExtensionView>, k: int)
    requires
        0 <= k <= exts.len(),
    ensures
        encode_exts(exts).len() >= encode_exts(exts.skip(k)).len(),
    decreases k,
{
    if k == 0 {
        assert(exts.skip(0) =~= exts);
    } else {
        lemma_encode_exts_skip(exts, k - 1);
        let r1 = exts.skip(k - 1);
        assert(r1.len() > 0);
        assert(r1.skip(1) =~= exts.skip(k));
        assert(encode_exts(r1) == encode_ext(r1[0]) + encode_exts(r1.skip(1)));
    }
}

} // verus!
