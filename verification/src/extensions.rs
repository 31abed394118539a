//! ClientHello extensions: the raw {type, data} pairs and the
//! interpretation of the four extension types the detector reads.
//!
//! Interpretation is deliberately soft where the specification allows
//! it: a server_name, ALPN or supported_versions extension whose inner
//! structure is inconsistent counts as absent.  The same holds for
//! signature_algorithms, whose absence the caller then reports as a
//! distinct fatal error.

use vstd::prelude::*;

use crate::hostname::valid_hostname;
use crate::wire::{read_u16, u16_list_of, u16_of, copy_range, read_u16_list};

verus! {

/// Extension number of server_name.
pub const EXT_SERVER_NAME: u16 = 0;

/// Extension number of signature_algorithms.
pub const EXT_SIGNATURE_ALGORITHMS: u16 = 13;

/// Extension number of application_layer_protocol_negotiation.
pub const EXT_ALPN: u16 = 16;

/// Extension number of supported_versions.
pub const EXT_SUPPORTED_VERSIONS: u16 = 43;

/// One extension as it stands on the wire: its type and its opaque data.
#[derive(Debug, PartialEq, Eq)]
pub struct Extension {
    pub extension_type: u16,
    pub data: Vec<u8>,
}

/// Mathematical image of one extension.
#[verifier::ext_equal]
pub ghost struct ExtensionView {
    pub extension_type: u16,
    pub data: Seq<u8>,
}

impl View for Extension {
    type V = ExtensionView;

    open spec fn view(&self) -> ExtensionView {
        ExtensionView { extension_type: self.extension_type, data: self.data@ }
    }
}

/// The views of a sequence of extensions.
pub open spec fn exts_view(s: Seq<Extension>) -> Seq<ExtensionView> {
    s.map_values(|e: Extension| e@)
}

/// Data of the first extension of type `t`, if any.
pub open spec fn first_ext(exts: Seq<ExtensionView>, t: u16) -> Option<Seq<u8>>
    decreases exts.len(),
{
    if exts.len() == 0 {
        None
    } else if exts[0].extension_type == t {
        Some(exts[0].data)
    } else {
        first_ext(exts.skip(1), t)
    }
}

/// Bytes of the first host_name entry in a server_name list, walking
/// entries of {name_type: u8, length: u16, name}; `None` if no such
/// entry exists or the list structure is inconsistent.
pub open spec fn sni_entries(d: Seq<u8>) -> Option<Seq<u8>>
    decreases d.len(),
{
    if d.len() == 0 {
        None
    } else if d.len() < 3 {
        None
    } else {
        let elen = u16_of(d[1], d[2]) as int;
        if d.len() < 3 + elen {
            None
        } else if d[0] == 0 {
            Some(d.subrange(3, 3 + elen))
        } else {
            sni_entries(d.skip(3 + elen))
        }
    }
}

/// Host name carried by a server_name extension's data, which is a
/// 16-bit length followed by exactly that many bytes of entries.
pub open spec fn sni_host_name(data: Seq<u8>) -> Option<Seq<u8>> {
    if data.len() < 2 {
        None
    } else if u16_of(data[0], data[1]) as int != data.len() - 2 {
        None
    } else {
        sni_entries(data.skip(2))
    }
}

/// The validated server name of an extension list: the first host_name
/// entry of the first server_name extension, kept only if it is a
/// syntactically valid hostname.
pub open spec fn sni_of(exts: Seq<ExtensionView>) -> Option<Seq<u8>> {
    match first_ext(exts, EXT_SERVER_NAME) {
        Option::None => Option::None,
        Option::Some(data) => match sni_host_name(data) {
            Option::None => Option::None,
            Option::Some(name) => if valid_hostname(name) {
                Option::Some(name)
            } else {
                Option::None
            },
        },
    }
}

/// Protocol names of an ALPN list body: entries of {length: u8, name}.
pub open spec fn alpn_entries(d: Seq<u8>) -> Option<Seq<Seq<u8>>>
    decreases d.len(),
{
    if d.len() == 0 {
        Some(Seq::empty())
    } else {
        let l = d[0] as int;
        if d.len() < 1 + l {
            None
        } else {
            match alpn_entries(d.skip(1 + l)) {
                Option::None => Option::None,
                Option::Some(rest) => Option::Some(seq![d.subrange(1, 1 + l)] + rest),
            }
        }
    }
}

/// Protocol names carried by an ALPN extension's data: a 16-bit length
/// followed by exactly that many bytes of entries.
pub open spec fn alpn_of_data(data: Seq<u8>) -> Option<Seq<Seq<u8>>> {
    if data.len() < 2 {
        None
    } else if u16_of(data[0], data[1]) as int != data.len() - 2 {
        None
    } else {
        alpn_entries(data.skip(2))
    }
}

/// The ALPN protocol list of an extension list.
pub open spec fn alpn_of(exts: Seq<ExtensionView>) -> Option<Seq<Seq<u8>>> {
    match first_ext(exts, EXT_ALPN) {
        Option::None => Option::None,
        Option::Some(data) => alpn_of_data(data),
    }
}

/// Signature schemes carried by a signature_algorithms extension's
/// data: a 16-bit length, exactly filling the data, covering whole
/// 16-bit identifiers.
pub open spec fn sigalgs_of_data(data: Seq<u8>) -> Option<Seq<u16>> {
    if data.len() < 2 {
        None
    } else if u16_of(data[0], data[1]) as int != data.len() - 2 {
        None
    } else if (data.len() - 2) % 2 != 0 {
        None
    } else {
        Some(u16_list_of(data.skip(2)))
    }
}

/// The usable signature scheme list of an extension list; `None` when
/// the extension is absent or its structure is inconsistent.
pub open spec fn sigalgs_of(exts: Seq<ExtensionView>) -> Option<Seq<u16>> {
    match first_ext(exts, EXT_SIGNATURE_ALGORITHMS) {
        Option::None => Option::None,
        Option::Some(data) => sigalgs_of_data(data),
    }
}

/// Versions carried by a supported_versions extension's data: an 8-bit
/// length, exactly filling the data, covering whole 16-bit versions.
pub open spec fn versions_of_data(data: Seq<u8>) -> Option<Seq<u16>> {
    if data.len() < 1 {
        None
    } else if data[0] as int != data.len() - 1 {
        None
    } else if (data.len() - 1) % 2 != 0 {
        None
    } else {
        Some(u16_list_of(data.skip(1)))
    }
}

/// The supported version list of an extension list.
pub open spec fn versions_of(exts: Seq<ExtensionView>) -> Option<Seq<u16>> {
    match first_ext(exts, EXT_SUPPORTED_VERSIONS) {
        Option::None => Option::None,
        Option::Some(data) => versions_of_data(data),
    }
}

/// Index of the first extension of type `t` in `exts`.
pub fn find_extension(exts: &Vec<Extension>, t: u16) -> (r: Option<usize>)
    ensures
        match r {
            Option::Some(i) => i < exts@.len() && exts@[i as int].extension_type == t
                && first_ext(exts_view(exts@), t) == Some(exts@[i as int].data@),
            Option::None => first_ext(exts_view(exts@), t) is None,
        },
{
    let ghost whole = exts_view(exts@);
    let mut i: usize = 0;
    proof {
        assert(whole.skip(0) =~= whole);
    }
    loop
        invariant
            i <= exts@.len(),
            whole == exts_view(exts@),
            first_ext(whole, t) == first_ext(whole.skip(i as int), t),
        decreases exts@.len() - i,
    {
        if i == exts.len() {
            return None;
        }
        proof {
            assert(whole.skip(i as int)[0] == whole[i as int]);
            assert(whole[i as int] == exts@[i as int]@);
            assert(whole.skip(i as int).skip(1) =~= whole.skip(i + 1 as int));
        }
        if exts[i].extension_type == t {
            return Some(i);
        }
        i = i + 1;
    }
}

/// Extracts the first host_name entry of a server_name extension's
/// data, before hostname validation.
pub fn sni_bytes(data: &Vec<u8>) -> (r: Option<Vec<u8>>)
    ensures
        match sni_host_name(data@) {
            Option::Some(name) => r matches Some(v) && v@ == name,
            Option::None => r is None,
        },
{
    if data.len() < 2 {
        return None;
    }
    let list_len = read_u16(data[0], data[1]);
    if list_len as usize != data.len() - 2 {
        return None;
    }
    let mut pos: usize = 2;
    loop
        invariant
            2 <= pos <= data@.len(),
            sni_host_name(data@) == sni_entries(data@.skip(pos as int)),
        decreases data@.len() - pos,
    {
        let ghost d = data@.skip(pos as int);
        let remaining = data.len() - pos;
        if remaining == 0 {
            return None;
        }
        if remaining < 3 {
            return None;
        }
        let elen = read_u16(data[pos + 1], data[pos + 2]) as usize;
        proof {
            assert(d[0] == data@[pos as int]);
            assert(d[1] == data@[pos + 1]);
            assert(d[2] == data@[pos + 2]);
        }
        if remaining < 3 + elen {
            return None;
        }
        if data[pos] == 0 {
            let name = copy_range(data.as_slice(), pos + 3, pos + 3 + elen);
            proof {
                assert(d.subrange(3, 3 + elen as int) =~= data@.subrange(
                    pos + 3,
                    pos + 3 + elen,
                ));
            }
            return Some(name);
        }
        proof {
            assert(d.skip(3 + elen as int) =~= data@.skip(pos + 3 + elen));
        }
        pos = pos + 3 + elen;
    }
}

/// Extracts the protocol names of an ALPN extension's data.
pub fn alpn_list(data: &Vec<u8>) -> (r: Option<Vec<Vec<u8>>>)
    ensures
        match alpn_of_data(data@) {
            Option::Some(list) => r matches Some(v) && v.deep_view() == list,
            Option::None => r is None,
        },
{
    if data.len() < 2 {
        return None;
    }
    let list_len = read_u16(data[0], data[1]);
    if list_len as usize != data.len() - 2 {
        return None;
    }
    let mut acc: Vec<Vec<u8>> = Vec::new();
    let mut pos: usize = 2;
    proof {
        match alpn_entries(data@.skip(2)) {
            Option::None => {},
            Option::Some(rest) => {
                assert(acc.deep_view() + rest =~~= rest);
            },
        }
    }
    loop
        invariant
            2 <= pos <= data@.len(),
            match alpn_entries(data@.skip(pos as int)) {
                Option::None => alpn_of_data(data@) is None,
                Option::Some(rest) => alpn_of_data(data@) == Some(acc.deep_view() + rest),
            },
        decreases data@.len() - pos,
    {
        let ghost d = data@.skip(pos as int);
        let remaining = data.len() - pos;
        if remaining == 0 {
            proof {
                assert(acc.deep_view() + Seq::<Seq<u8>>::empty() =~= acc.deep_view());
            }
            return Some(acc);
        }
        let l = data[pos] as usize;
        proof {
            assert(d[0] == data@[pos as int]);
        }
        if remaining < 1 + l {
            return None;
        }
        let entry = copy_range(data.as_slice(), pos + 1, pos + 1 + l);
        let ghost pre = acc.deep_view();
        acc.push(entry);
        proof {
            assert(d.subrange(1, 1 + l as int) =~= data@.subrange(pos + 1, pos + 1 + l));
            assert(d.skip(1 + l as int) =~= data@.skip(pos + 1 + l));
            match alpn_entries(data@.skip(pos + 1 + l)) {
                Option::None => {},
                Option::Some(rest) => {
                    assert(alpn_entries(d) == Some(seq![d.subrange(1, 1 + l as int)] + rest));
                    assert(pre + (seq![d.subrange(1, 1 + l as int)] + rest) =~~= acc.deep_view()
                        + rest);
                },
            }
        }
        pos = pos + 1 + l;
    }
}

/// Extracts the signature schemes of a signature_algorithms
/// extension's data.
pub fn sigalgs_list(data: &Vec<u8>) -> (r: Option<Vec<u16>>)
    ensures
        match sigalgs_of_data(data@) {
            Option::Some(list) => r matches Some(v) && v@ == list,
            Option::None => r is None,
        },
{
    if data.len() < 2 {
        return None;
    }
    let list_len = read_u16(data[0], data[1]);
    if list_len as usize != data.len() - 2 {
        return None;
    }
    if (data.len() - 2) % 2 != 0 {
        return None;
    }
    let r = read_u16_list(data.as_slice(), 2, data.len());
    proof {
        assert(data@.subrange(2, data@.len() as int) =~= data@.skip(2));
    }
    Some(r)
}

/// Extracts the versions of a supported_versions extension's data.
pub fn versions_list(data: &Vec<u8>) -> (r: Option<Vec<u16>>)
    ensures
        match versions_of_data(data@) {
            Option::Some(list) => r matches Some(v) && v@ == list,
            Option::None => r is None,
        },
{
    if data.len() < 1 {
        return None;
    }
    if data[0] as usize != data.len() - 1 {
        return None;
    }
    if (data.len() - 1) % 2 != 0 {
        return None;
    }
    let r = read_u16_list(data.as_slice(), 1, data.len());
    proof {
        assert(data@.subrange(1, data@.len() as int) =~= data@.skip(1));
    }
    Some(r)
}

} // verus!
