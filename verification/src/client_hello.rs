//! Projection of a decoded ClientHello body onto the fields a router
//! reads: server name, signature schemes, ALPN protocols, cipher
//! suites.

use vstd::prelude::*;

use crate::extensions::{
    alpn_of, find_extension, sigalgs_of, sigalgs_list, sni_bytes, sni_of, versions_list,
    versions_of, EXT_ALPN, EXT_SERVER_NAME, EXT_SIGNATURE_ALGORITHMS, EXT_SUPPORTED_VERSIONS,
    ExtensionView,
};
use crate::hostname::{check_hostname, is_hostname_byte, labels_ok_from, valid_hostname};
use crate::payload::ClientHelloPayload;
use crate::types::ParseError;
use crate::wire::copy_u16_list;

verus! {

/// The characters of a byte sequence that is known to be ASCII.
pub open spec fn ascii_chars(bytes: Seq<u8>) -> Seq<char> {
    bytes.map_values(|b: u8| b as char)
}

/// The validated server name of an extension list, as characters.
pub open spec fn server_name_of(exts: Seq<ExtensionView>) -> Option<Seq<char>> {
    match sni_of(exts) {
        Option::Some(name) => Option::Some(ascii_chars(name)),
        Option::None => Option::None,
    }
}

proof fn lemma_labels_ascii(s: Seq<u8>, i: int, n: int)
    requires
        0 <= i,
        labels_ok_from(s, i, n),
    ensures
        forall|j: int| i <= j < s.len() ==> s[j] < 128,
    decreases s.len() - i,
{
    if i < s.len() {
        if s[i] == 46 {
            lemma_labels_ascii(s, i + 1, 0);
        } else {
            lemma_labels_ascii(s, i + 1, n + 1);
        }
    }
}

/// A valid hostname consists of ASCII bytes.
proof fn lemma_hostname_ascii(s: Seq<u8>)
    requires
        valid_hostname(s),
    ensures
        forall|j: int| 0 <= j < s.len() ==> s[j] < 128,
{
    lemma_labels_ascii(s, 0, 0);
}

/// Relies on String::from_utf8: bytes below 128 are ASCII, hence valid
/// UTF-8, and decode to one character each, the character with the
/// byte's code.
#[verifier::external_body]
fn ascii_string(bytes: &Vec<u8>) -> (r: String)
    requires
        forall|j: int| 0 <= j < bytes@.len() ==> bytes@[j] < 128,
    ensures
        r@ == ascii_chars(bytes@),
{
    String::from_utf8(bytes.clone()).unwrap_or_default()
}

/// Mathematical image of the projected ClientHello.
#[verifier::ext_equal]
pub ghost struct ClientHelloSpec {
    pub server_name: Option<Seq<char>>,
    pub signature_schemes: Seq<u16>,
    pub alpn: Option<Seq<Seq<u8>>>,
    pub cipher_suites: Seq<u16>,
}

/// The view of an optional owned string.
pub open spec fn opt_string_view(o: Option<String>) -> Option<Seq<char>> {
    match o {
        Option::Some(s) => Option::Some(s@),
        Option::None => Option::None,
    }
}

/// The view of an optional protocol-name list.
pub open spec fn opt_protocols_view(o: Option<Vec<Vec<u8>>>) -> Option<Seq<Seq<u8>>> {
    match o {
        Option::Some(v) => Option::Some(v.deep_view()),
        Option::None => Option::None,
    }
}

/// The fields a router reads from a ClientHello.
#[derive(Debug)]
pub struct ClientHello {
    server_name: Option<String>,
    signature_schemes: Vec<u16>,
    alpn: Option<Vec<Vec<u8>>>,
    cipher_suites: Vec<u16>,
}

impl View for ClientHello {
    type V = ClientHelloSpec;

    closed spec fn view(&self) -> ClientHelloSpec {
        ClientHelloSpec {
            server_name: opt_string_view(self.server_name),
            signature_schemes: self.signature_schemes@,
            alpn: opt_protocols_view(self.alpn),
            cipher_suites: self.cipher_suites@,
        }
    }
}

impl ClientHello {
    pub fn new(
        server_name: Option<String>,
        signature_schemes: Vec<u16>,
        alpn: Option<Vec<Vec<u8>>>,
        cipher_suites: Vec<u16>,
    ) -> (r: ClientHello)
        ensures
            r@ == (ClientHelloSpec {
                server_name: opt_string_view(server_name),
                signature_schemes: signature_schemes@,
                alpn: opt_protocols_view(alpn),
                cipher_suites: cipher_suites@,
            }),
    {
        ClientHello { server_name, signature_schemes, alpn, cipher_suites }
    }

    /// The requested server name, if a syntactically valid one was
    /// present.
    pub fn server_name(&self) -> (r: &Option<String>)
        ensures
            opt_string_view(*r) == self@.server_name,
    {
        &self.server_name
    }

    /// The advertised signature schemes.
    pub fn signature_schemes(&self) -> (r: &Vec<u16>)
        ensures
            r@ == self@.signature_schemes,
    {
        &self.signature_schemes
    }

    /// The ALPN protocol names, if the extension was present and well
    /// formed.
    pub fn alpn(&self) -> (r: &Option<Vec<Vec<u8>>>)
        ensures
            opt_protocols_view(*r) == self@.alpn,
    {
        &self.alpn
    }

    /// The offered cipher suites, in offer order.
    pub fn cipher_suites(&self) -> (r: &Vec<u16>)
        ensures
            r@ == self@.cipher_suites,
    {
        &self.cipher_suites
    }
}

impl ClientHelloPayload {
    /// The validated server name carried by the server_name extension,
    /// or `None` when the extension is absent, structurally
    /// inconsistent, or names an invalid hostname.
    pub fn sni_hostname(&self) -> (r: Option<String>)
        ensures
            match server_name_of(self@.extensions) {
                Option::Some(cs) => r matches Some(s) && s@ == cs,
                Option::None => r is None,
            },
    {
        match find_extension(&self.extensions, EXT_SERVER_NAME) {
            Option::Some(i) => match sni_bytes(&self.extensions[i].data) {
                Option::Some(name) => {
                    if check_hostname(name.as_slice()) {
                        proof {
                            lemma_hostname_ascii(name@);
                        }
                        Some(ascii_string(&name))
                    } else {
                        None
                    }
                },
                Option::None => None,
            },
            Option::None => None,
        }
    }

    /// The signature schemes of the signature_algorithms extension, or
    /// `None` when it is absent or structurally inconsistent.
    pub fn signature_schemes_list(&self) -> (r: Option<Vec<u16>>)
        ensures
            match sigalgs_of(self@.extensions) {
                Option::Some(l) => r matches Some(v) && v@ == l,
                Option::None => r is None,
            },
    {
        match find_extension(&self.extensions, EXT_SIGNATURE_ALGORITHMS) {
            Option::Some(i) => sigalgs_list(&self.extensions[i].data),
            Option::None => None,
        }
    }

    /// The protocol names of the ALPN extension, or `None` when it is
    /// absent or structurally inconsistent.
    pub fn alpn_protocols(&self) -> (r: Option<Vec<Vec<u8>>>)
        ensures
            match alpn_of(self@.extensions) {
                Option::Some(l) => r matches Some(v) && v.deep_view() == l,
                Option::None => r is None,
            },
    {
        match find_extension(&self.extensions, EXT_ALPN) {
            Option::Some(i) => crate::extensions::alpn_list(&self.extensions[i].data),
            Option::None => None,
        }
    }

    /// The versions of the supported_versions extension, or `None`
    /// when it is absent or structurally inconsistent.
    pub fn get_versions_extension(&self) -> (r: Option<Vec<u16>>)
        ensures
            match versions_of(self@.extensions) {
                Option::Some(l) => r matches Some(v) && v@ == l,
                Option::None => r is None,
            },
    {
        match find_extension(&self.extensions, EXT_SUPPORTED_VERSIONS) {
            Option::Some(i) => versions_list(&self.extensions[i].data),
            Option::None => None,
        }
    }

    /// Projects the fields a router reads.  Fails exactly when the
    /// ClientHello carries no usable signature_algorithms extension.
    pub fn client_hello(&self) -> (r: Result<ClientHello, ParseError>)
        ensures
            match sigalgs_of(self@.extensions) {
                Option::None => r matches Err(e) && e == ParseError::MissingSignatureAlgorithms,
                Option::Some(schemes) => r matches Ok(ch) && ch@ == (ClientHelloSpec {
                    server_name: server_name_of(self@.extensions),
                    signature_schemes: schemes,
                    alpn: alpn_of(self@.extensions),
                    cipher_suites: self@.cipher_suites,
                }),
            },
    {
        let schemes = match self.signature_schemes_list() {
            Option::Some(v) => v,
            Option::None => {
                return Err(ParseError::MissingSignatureAlgorithms);
            },
        };
        let server_name = self.sni_hostname();
        let alpn = self.alpn_protocols();
        let suites = copy_u16_list(&self.cipher_suites);
        let ch = ClientHello {
            server_name,
            signature_schemes: schemes,
            alpn,
            cipher_suites: suites,
        };
        proof {
            assert(ch@ =~~= ClientHelloSpec {
                server_name: server_name_of(self@.extensions),
                signature_schemes: sigalgs_of(self@.extensions)->Some_0,
                alpn: alpn_of(self@.extensions),
                cipher_suites: self@.cipher_suites,
            });
        }
        Ok(ch)
    }
}

} // verus!
