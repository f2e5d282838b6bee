//! Keys held in memory.
use bergshamra_crypto::sign::SigningKey;
use bergshamra_keys::key::Key;
use bergshamra_keys::loader;
use rsa::pkcs1v15::Pkcs1v15Sign;
use rsa::pss::Pss;
use rsa::rand_core::OsRng;
use sha1::Sha1;
use sha2::{Sha224, Sha256, Sha384, Sha512};
use sha3::{Sha3_224, Sha3_256, Sha3_384, Sha3_512};
use vstd::prelude::*;
use vstd::string::*;

use crate::crypto::container;
use crate::crypto::digest;
use crate::crypto::Signer;
use crate::error;
use crate::error::{ErrorView, LibError};
use crate::ns;
use crate::text;
use crate::x509;

verus! {

/// A key of the `bergshamra-keys` crate.
#[verifier::external_type_specification]
#[verifier::external_body]
pub struct ExKey(bergshamra_keys::key::Key);

/// What a key can sign with.
#[derive(Clone, Copy, PartialEq, Eq, Structural)]
pub enum KeyKind {
    /// An RSA private key.
    Rsa,
    /// An ECDSA private key on P-256.
    EcP256,
    /// An ECDSA private key on P-384.
    EcP384,
    /// An ECDSA private key on P-521.
    EcP521,
    /// Any other key, and every public key.
    Other,
}

/// What a key can sign with, if it can sign or verify at all.
pub uninterp spec fn key_kind(key: Key) -> Option<KeyKind>;

/// `Key::to_signing_key`, as far as which kind of key it gives.
#[verifier::external_body]
fn read_kind(key: &Key) -> (r: Option<KeyKind>)
    ensures
        r == key_kind(*key),
{
    key.to_signing_key().map(|k| match k {
        SigningKey::Rsa(_) => KeyKind::Rsa,
        SigningKey::EcP256(_) => KeyKind::EcP256,
        SigningKey::EcP384(_) => KeyKind::EcP384,
        SigningKey::EcP521(_) => KeyKind::EcP521,
        _ => KeyKind::Other,
    })
}

/// The certificates that came with a key.
pub uninterp spec fn key_chain(key: Key) -> Seq<Seq<u8>>;

/// `Key::x509_chain`.
#[verifier::external_body]
fn read_chain(key: &Key) -> (r: Vec<Vec<u8>>)
    ensures
        text::byte_strings(r@) == key_chain(*key),
{
    key.x509_chain.clone()
}

/// The certificates and the kind of a loaded key, or the failure as text.
pub open spec fn loaded_view(r: Result<Key, String>) -> Result<
    (Seq<Seq<u8>>, Option<KeyKind>),
    Seq<char>,
> {
    match r {
        Ok(k) => Ok((key_chain(k), key_kind(k))),
        Err(e) => Err(e@),
    }
}

/// The certificates and the kind of the key in a PKCS#12 bundle, or why there is none.
pub uninterp spec fn pkcs12_key(data: Seq<u8>, password: Seq<char>) -> Result<
    (Seq<Seq<u8>>, Option<KeyKind>),
    Seq<char>,
>;

/// `bergshamra_keys::loader::load_pkcs12`.
///
/// Bundles with parts that are not elements all through, and a first key that announces more than
/// it holds, are left out: there the outside function panics.
#[verifier::external_body]
fn load_pkcs12(data: &[u8], password: &str) -> (r: Result<Key, String>)
    requires
        container::is_loadable_bundle(data@, password@),
    ensures
        loaded_view(r) == pkcs12_key(data@, password@),
{
    loader::load_pkcs12(data, password).map_err(|e| e.to_string())
}

/// The certificates and the kind of a PEM key, or why there is none.
pub uninterp spec fn pem_key(pem: Seq<u8>, password: Option<Seq<char>>) -> Result<
    (Seq<Seq<u8>>, Option<KeyKind>),
    Seq<char>,
>;

/// `bergshamra_keys::loader::load_pem_auto`.
///
/// A key that announces more than it holds, and memory for scrypt that cannot be addressed, are
/// left out: there the outside function panics.
#[verifier::external_body]
fn load_pem(pem: &[u8], password: Option<&str>) -> (r: Result<Key, String>)
    requires
        container::is_loadable(pem@, text::opt_str(password)),
    ensures
        loaded_view(r) == pem_key(pem@, text::opt_str(password)),
{
    loader::load_pem_auto(pem, password).map_err(|e| e.to_string())
}

/// The signature method for a kind of key, where there is one.
pub open spec fn default_method(kind: KeyKind) -> Option<Seq<char>> {
    match kind {
        KeyKind::Rsa => Some(ns::RSA_SHA256@),
        KeyKind::EcP256 => Some(ns::ECDSA_SHA256@),
        KeyKind::EcP384 => Some(ns::ECDSA_SHA384@),
        KeyKind::EcP521 => Some(ns::ECDSA_SHA512@),
        KeyKind::Other => None,
    }
}

/// Picks the signature method for a kind of key.
pub fn default_algorithm(kind: KeyKind) -> (r: Result<&'static str, LibError>)
    ensures
        match default_method(kind) {
            Some(uri) => r matches Ok(u) && u@ == uri,
            None => r matches Err(e) && e@ == ErrorView::Unsupported(
                "only RSA and ECDSA P-256/P-384/P-521 keys are supported"@,
            ),
        },
{
    match kind {
        KeyKind::Rsa => Ok(ns::RSA_SHA256),
        KeyKind::EcP256 => Ok(ns::ECDSA_SHA256),
        KeyKind::EcP384 => Ok(ns::ECDSA_SHA384),
        KeyKind::EcP521 => Ok(ns::ECDSA_SHA512),
        KeyKind::Other => Err(
            LibError::Unsupported(
                "only RSA and ECDSA P-256/P-384/P-521 keys are supported".to_owned(),
            ),
        ),
    }
}

/// The method that a key is given belongs to a digest that is supported.
pub proof fn default_methods_have_digests(kind: KeyKind)
    ensures
        default_method(kind) matches Some(uri) ==> crate::crypto::digest_of_method(uri) is Some,
{
}

/// What a signer is: its key, its certificate, and its signature method.
pub struct SignerView {
    pub key: Key,
    pub certificate: Seq<u8>,
    pub algorithm: Seq<char>,
}

/// A signer from a key and a certificate; or why it is none.
pub open spec fn signer_outcome(key: Key, certificate: Seq<u8>) -> Result<
    SignerView,
    ErrorView,
> {
    match key_kind(key) {
        None => Err(ErrorView::Crypto("unsupported key"@)),
        Some(k) => match default_method(k) {
            None => Err(
                ErrorView::Unsupported("only RSA and ECDSA P-256/P-384/P-521 keys are supported"@),
            ),
            Some(algorithm) => Ok(SignerView { key, certificate, algorithm }),
        },
    }
}

/// The certificate of a signer from what PEM data holds, or why there is none.
pub open spec fn first_outcome(
    certs: Result<Seq<Result<Seq<u8>, Seq<char>>>, Seq<char>>,
) -> Result<Seq<u8>, ErrorView> {
    match certs {
        Err(e) => Err(ErrorView::Certificate("certificate PEM: "@ + e)),
        Ok(list) => if list.len() == 0 {
            Err(ErrorView::Certificate("no certificate in PEM input"@))
        } else {
            match list[0] {
                Ok(der) => Ok(der),
                Err(e) => Err(ErrorView::Certificate("certificate re-encode: "@ + e)),
            }
        },
    }
}

/// Takes the first of the certificates that PEM data holds.
pub fn first_certificate(certs: Result<Vec<Result<Vec<u8>, String>>, String>) -> (r: Result<
    Vec<u8>,
    LibError,
>)
    ensures
        error::bytes_result(r) == first_outcome(x509::pem_view(certs)),
{
    match certs {
        Err(e) => Err(LibError::Certificate(text::joined("certificate PEM: ", e.as_str()))),
        Ok(list) => {
            assert(x509::encodings(list@).len() == list@.len());
            if list.len() == 0 {
                Err(LibError::Certificate("no certificate in PEM input".to_owned()))
            } else {
                assert(x509::encodings(list@)[0] == text::bytes_view(list@[0]));
                match &list[0] {
                    Ok(der) => {
                        let copy = vstd::slice::slice_to_vec(der.as_slice());
                        assert(copy@ =~= der@);
                        Ok(copy)
                    },
                    Err(e) => Err(
                        LibError::Certificate(text::joined("certificate re-encode: ", e.as_str())),
                    ),
                }
            }
        },
    }
}

/// Whether some bytes start like PEM data.
pub open spec fn looks_like_pem(data: Seq<u8>) -> bool {
    data.len() >= 5 && data.take(5) == seq![0x2du8, 0x2d, 0x2d, 0x2d, 0x2d]
}

fn starts_like_pem(data: &[u8]) -> (r: bool)
    ensures
        r == looks_like_pem(data@),
{
    if data.len() < 5 {
        return false;
    }
    let r = data[0] == 0x2d && data[1] == 0x2d && data[2] == 0x2d && data[3] == 0x2d && data[4]
        == 0x2d;
    proof {
        let head = data@.take(5);
        let dashes = seq![0x2du8, 0x2d, 0x2d, 0x2d, 0x2d];
        if r {
            assert(head =~= dashes);
        } else if head == dashes {
            assert(head[0] == dashes[0] && head[1] == dashes[1] && head[2] == dashes[2] && head[3]
                == dashes[3] && head[4] == dashes[4]);
        }
    }
    r
}

/// The certificate that a signer is given, as PEM or as DER.
pub open spec fn given_certificate(cert: Seq<u8>) -> Result<Seq<u8>, ErrorView> {
    if looks_like_pem(cert) {
        first_outcome(x509::pem_certificates(cert))
    } else {
        Ok(cert)
    }
}

/// A signer with a key in memory.
pub struct SoftwareSigner {
    key: Key,
    cert_der: Vec<u8>,
    algorithm_uri: String,
}

/// A signer or an error of the library, by content.
pub open spec fn signer_result(r: Result<SoftwareSigner, LibError>) -> Result<
    SignerView,
    ErrorView,
> {
    match r {
        Ok(s) => Ok(s@),
        Err(e) => Err(e@),
    }
}

/// A loaded key, or the failure as text.
pub open spec fn key_result(r: Result<Key, String>) -> Result<Key, Seq<char>> {
    match r {
        Ok(k) => Ok(k),
        Err(e) => Err(e@),
    }
}

/// What making a signer from the key of a PKCS#12 bundle gives.
pub open spec fn pkcs12_outcome(loaded: Result<Key, Seq<char>>) -> Result<SignerView, ErrorView> {
    match loaded {
        Err(e) => Err(ErrorView::Crypto("PKCS#12: "@ + e)),
        Ok(key) => if key_chain(key).len() == 0 {
            Err(ErrorView::Certificate("PKCS#12 bundle has no certificate"@))
        } else {
            signer_outcome(key, key_chain(key)[0])
        },
    }
}

/// What making a signer from a PEM key and a certificate gives.
pub open spec fn pem_outcome(
    loaded: Result<Key, Seq<char>>,
    cert: Result<Seq<u8>, ErrorView>,
) -> Result<SignerView, ErrorView> {
    match loaded {
        Err(e) => Err(ErrorView::Crypto("private key: "@ + e)),
        Ok(key) => match cert {
            Err(e) => Err(e),
            Ok(der) => signer_outcome(key, der),
        },
    }
}

/// Why a PKCS#12 bundle is not handed to the loader, where it is not.
pub open spec fn bundle_refusal(data: Seq<u8>, password: Seq<char>) -> Seq<char> {
    if container::is_sound_bundle(data, password) {
        "unable to parse PKCS#8 DER private key"@
    } else {
        "failed to parse PKCS#12 contents"@
    }
}

/// Whether loading a PKCS#12 bundle can give a key or a failure.
pub closed spec fn pkcs12_gives(
    data: &[u8],
    password: &str,
    loaded: Result<Key, Seq<char>>,
) -> bool {
    if container::is_loadable_bundle(data@, password@) {
        exists|r: Result<Key, String>| #[trigger]
            call_ensures(load_pkcs12, (data, password), r) && loaded == key_result(r)
    } else {
        loaded == Err::<Key, Seq<char>>(bundle_refusal(data@, password@))
    }
}

/// Whether loading a PEM key can give a key or a failure.
pub closed spec fn pem_gives(
    pem: &[u8],
    password: Option<&str>,
    loaded: Result<Key, Seq<char>>,
) -> bool {
    if container::is_loadable(pem@, text::opt_str(password)) {
        exists|r: Result<Key, String>| #[trigger]
            call_ensures(load_pem, (pem, password), r) && loaded == key_result(r)
    } else {
        loaded == Err::<Key, Seq<char>>("unable to auto-detect key format from PEM data"@)
    }
}

/// The certificates and the kind of a key, or why there is none.
pub open spec fn key_parts(loaded: Result<Key, Seq<char>>) -> Result<
    (Seq<Seq<u8>>, Option<KeyKind>),
    Seq<char>,
> {
    match loaded {
        Ok(key) => Ok((key_chain(key), key_kind(key))),
        Err(e) => Err(e),
    }
}

/// What loading a PKCS#12 bundle gives does not change from one time to the next, as far as
/// certificates, kind and failure.
pub proof fn bundle_is_loaded(data: &[u8], password: &str, loaded: Result<Key, Seq<char>>)
    requires
        pkcs12_gives(data, password, loaded),
    ensures
        key_parts(loaded) == if container::is_loadable_bundle(data@, password@) {
            pkcs12_key(data@, password@)
        } else {
            Err(bundle_refusal(data@, password@))
        },
{
}

/// What loading a PEM key gives does not change from one time to the next, as far as certificates,
/// kind and failure.
pub proof fn pem_is_loaded(pem: &[u8], password: Option<&str>, loaded: Result<Key, Seq<char>>)
    requires
        pem_gives(pem, password, loaded),
    ensures
        key_parts(loaded) == if container::is_loadable(pem@, text::opt_str(password)) {
            pem_key(pem@, text::opt_str(password))
        } else {
            Err("unable to auto-detect key format from PEM data"@)
        },
{
}

impl View for SoftwareSigner {
    type V = SignerView;

    closed spec fn view(&self) -> SignerView {
        SignerView {
            key: self.key,
            certificate: self.cert_der@,
            algorithm: self.algorithm_uri@,
        }
    }
}

impl SoftwareSigner {
    #[verifier::type_invariant]
    spec fn can_sign(self) -> bool {
        key_kind(self.key) matches Some(k) && default_method(k) is Some
    }

    /// Makes a signer from a PKCS#12 bundle: the first certificate of the bundle is the signer's.
    pub fn from_pkcs12(data: &[u8], password: &str) -> (r: Result<Self, LibError>)
        ensures
            exists|loaded: Result<Key, Seq<char>>| #[trigger]
                pkcs12_gives(data, password, loaded) && signer_result(r) == pkcs12_outcome(loaded),
    {
        if !container::check_bundle(data, password) {
            let failure = "failed to parse PKCS#12 contents";
            assert(pkcs12_gives(data, password, Err(failure@)));
            return Err(LibError::Crypto(text::joined("PKCS#12: ", failure)));
        }
        if !container::check_first_key(data, password) {
            let failure = "unable to parse PKCS#8 DER private key";
            assert(pkcs12_gives(data, password, Err(failure@)));
            return Err(LibError::Crypto(text::joined("PKCS#12: ", failure)));
        }
        let loaded = load_pkcs12(data, password);
        assert(pkcs12_gives(data, password, key_result(loaded)));
        let key = match loaded {
            Ok(k) => k,
            Err(e) => {
                return Err(LibError::Crypto(text::joined("PKCS#12: ", e.as_str())));
            },
        };
        let chain = read_chain(&key);
        assert(text::byte_strings(chain@).len() == chain@.len());
        if chain.len() == 0 {
            return Err(LibError::Certificate("PKCS#12 bundle has no certificate".to_owned()));
        }
        assert(text::byte_strings(chain@)[0] == chain@[0]@);
        let cert_der = vstd::slice::slice_to_vec(chain[0].as_slice());
        assert(cert_der@ =~= chain@[0]@);
        Self::new(key, cert_der)
    }

    /// Makes a signer from a PEM key and a certificate, which is PEM too or else DER.
    pub fn from_pem(key_pem: &[u8], cert: &[u8], password: Option<&str>) -> (r: Result<
        Self,
        LibError,
    >)
        ensures
            exists|loaded: Result<Key, Seq<char>>| #[trigger]
                pem_gives(key_pem, password, loaded) && signer_result(r) == pem_outcome(
                    loaded,
                    given_certificate(cert@),
                ),
    {
        if !container::check_pem(key_pem, password) {
            let failure = "unable to auto-detect key format from PEM data";
            assert(pem_gives(key_pem, password, Err(failure@)));
            return Err(LibError::Crypto(text::joined("private key: ", failure)));
        }
        let loaded = load_pem(key_pem, password);
        assert(pem_gives(key_pem, password, key_result(loaded)));
        let key = match loaded {
            Ok(k) => k,
            Err(e) => {
                return Err(LibError::Crypto(text::joined("private key: ", e.as_str())));
            },
        };
        let cert_der = if starts_like_pem(cert) {
            proof {
                assert(cert@.take(5)[0] == cert@[0]);
                assert(x509::is_not_blank(cert@));
            }
            first_certificate(x509::load_pem_chain(cert))?
        } else {
            let copy = vstd::slice::slice_to_vec(cert);
            assert(copy@ =~= cert@);
            copy
        };
        Self::new(key, cert_der)
    }

    /// Makes a signer from a key and its certificate, with the method that the key calls for.
    fn new(key: Key, cert_der: Vec<u8>) -> (r: Result<Self, LibError>)
        ensures
            signer_result(r) == signer_outcome(key, cert_der@),
    {
        let kind = match read_kind(&key) {
            Some(k) => k,
            None => {
                return Err(LibError::Crypto("unsupported key".to_owned()));
            },
        };
        let algorithm_uri = default_algorithm(kind)?.to_owned();
        Ok(SoftwareSigner { key, cert_der, algorithm_uri })
    }

    /// The same signer with another signature method.
    pub fn with_algorithm<U: Into<String>>(self, uri: U) -> (r: Self)
        ensures
            exists|s: String| #[trigger]
                call_ensures(U::into, (uri,), s) && r@ == (SignerView { algorithm: s@, ..self@ }),
    {
        proof {
            use_type_invariant(&self);
        }
        let uri: String = uri.into();
        SoftwareSigner { key: self.key, cert_der: self.cert_der, algorithm_uri: uri }
    }
}

/// Whether a text identifies a signature method that can be signed by, or why not.
pub uninterp spec fn known_method(uri: Seq<char>) -> Result<(), Seq<char>>;

/// `bergshamra_crypto::sign::from_uri`, as far as whether there is such a method.
#[verifier::external_body]
fn find_method(uri: &str) -> (r: Result<(), String>)
    ensures
        text::check_view(r) == known_method(uri@),
        crate::crypto::digest_of_method(uri@) is Some ==> r is Ok,
{
    bergshamra_crypto::sign::from_uri(uri).map(|_method| ()).map_err(|e| e.to_string())
}

/// The digest in an RSA signature method.
#[derive(Clone, Copy, PartialEq, Eq, Structural)]
pub enum RsaHash {
    Sha1,
    Sha224,
    Sha256,
    Sha384,
    Sha512,
    Sha3_224,
    Sha3_256,
    Sha3_384,
    Sha3_512,
}

/// The padding in an RSA signature method.
#[derive(Clone, Copy, PartialEq, Eq, Structural)]
pub enum Padding {
    /// PKCS#1 v1.5.
    Pkcs1,
    /// PSS, with a salt as long as the digest.
    Pss,
}

/// Padding and digest of an RSA signature method; nothing for other methods.
pub open spec fn rsa_method(uri: Seq<char>) -> Option<(Padding, RsaHash)> {
    if uri == ns::RSA_SHA1@ {
        Some((Padding::Pkcs1, RsaHash::Sha1))
    } else if uri == ns::RSA_SHA224@ {
        Some((Padding::Pkcs1, RsaHash::Sha224))
    } else if uri == ns::RSA_SHA256@ {
        Some((Padding::Pkcs1, RsaHash::Sha256))
    } else if uri == ns::RSA_SHA384@ {
        Some((Padding::Pkcs1, RsaHash::Sha384))
    } else if uri == ns::RSA_SHA512@ {
        Some((Padding::Pkcs1, RsaHash::Sha512))
    } else if uri == ns::PSS_SHA1@ {
        Some((Padding::Pss, RsaHash::Sha1))
    } else if uri == ns::PSS_SHA224@ {
        Some((Padding::Pss, RsaHash::Sha224))
    } else if uri == ns::PSS_SHA256@ {
        Some((Padding::Pss, RsaHash::Sha256))
    } else if uri == ns::PSS_SHA384@ {
        Some((Padding::Pss, RsaHash::Sha384))
    } else if uri == ns::PSS_SHA512@ {
        Some((Padding::Pss, RsaHash::Sha512))
    } else if uri == ns::PSS_SHA3_224@ {
        Some((Padding::Pss, RsaHash::Sha3_224))
    } else if uri == ns::PSS_SHA3_256@ {
        Some((Padding::Pss, RsaHash::Sha3_256))
    } else if uri == ns::PSS_SHA3_384@ {
        Some((Padding::Pss, RsaHash::Sha3_384))
    } else if uri == ns::PSS_SHA3_512@ {
        Some((Padding::Pss, RsaHash::Sha3_512))
    } else {
        None
    }
}

/// Finds padding and digest of an RSA signature method.
pub fn find_rsa_method(uri: &str) -> (r: Option<(Padding, RsaHash)>)
    ensures
        r == rsa_method(uri@),
{
    if text::same(uri, ns::RSA_SHA1) {
        Some((Padding::Pkcs1, RsaHash::Sha1))
    } else if text::same(uri, ns::RSA_SHA224) {
        Some((Padding::Pkcs1, RsaHash::Sha224))
    } else if text::same(uri, ns::RSA_SHA256) {
        Some((Padding::Pkcs1, RsaHash::Sha256))
    } else if text::same(uri, ns::RSA_SHA384) {
        Some((Padding::Pkcs1, RsaHash::Sha384))
    } else if text::same(uri, ns::RSA_SHA512) {
        Some((Padding::Pkcs1, RsaHash::Sha512))
    } else if text::same(uri, ns::PSS_SHA1) {
        Some((Padding::Pss, RsaHash::Sha1))
    } else if text::same(uri, ns::PSS_SHA224) {
        Some((Padding::Pss, RsaHash::Sha224))
    } else if text::same(uri, ns::PSS_SHA256) {
        Some((Padding::Pss, RsaHash::Sha256))
    } else if text::same(uri, ns::PSS_SHA384) {
        Some((Padding::Pss, RsaHash::Sha384))
    } else if text::same(uri, ns::PSS_SHA512) {
        Some((Padding::Pss, RsaHash::Sha512))
    } else if text::same(uri, ns::PSS_SHA3_224) {
        Some((Padding::Pss, RsaHash::Sha3_224))
    } else if text::same(uri, ns::PSS_SHA3_256) {
        Some((Padding::Pss, RsaHash::Sha3_256))
    } else if text::same(uri, ns::PSS_SHA3_384) {
        Some((Padding::Pss, RsaHash::Sha3_384))
    } else if text::same(uri, ns::PSS_SHA3_512) {
        Some((Padding::Pss, RsaHash::Sha3_512))
    } else {
        None
    }
}

/// Identifier of a digest method.
pub open spec fn hash_uri(hash: RsaHash) -> Seq<char> {
    match hash {
        RsaHash::Sha1 => ns::SHA1@,
        RsaHash::Sha224 => ns::SHA224@,
        RsaHash::Sha256 => ns::SHA256@,
        RsaHash::Sha384 => ns::SHA384@,
        RsaHash::Sha512 => ns::SHA512@,
        RsaHash::Sha3_224 => ns::SHA3_224@,
        RsaHash::Sha3_256 => ns::SHA3_256@,
        RsaHash::Sha3_384 => ns::SHA3_384@,
        RsaHash::Sha3_512 => ns::SHA3_512@,
    }
}

/// Finds the identifier of a digest method.
fn find_hash_uri(hash: RsaHash) -> (r: &'static str)
    ensures
        r@ == hash_uri(hash),
{
    match hash {
        RsaHash::Sha1 => ns::SHA1,
        RsaHash::Sha224 => ns::SHA224,
        RsaHash::Sha256 => ns::SHA256,
        RsaHash::Sha384 => ns::SHA384,
        RsaHash::Sha512 => ns::SHA512,
        RsaHash::Sha3_224 => ns::SHA3_224,
        RsaHash::Sha3_256 => ns::SHA3_256,
        RsaHash::Sha3_384 => ns::SHA3_384,
        RsaHash::Sha3_512 => ns::SHA3_512,
    }
}

/// The signature of a digest by an RSA key with the padding of PKCS#1 v1.5, or why there is none.
pub uninterp spec fn pkcs1_signature(key: Key, hash: RsaHash, hashed: Seq<u8>) -> Result<
    Seq<u8>,
    Seq<char>,
>;

/// `rsa::RsaPrivateKey::sign` with the padding of PKCS#1 v1.5, on a digest.
///
/// It takes no random numbers. It fails for a key that is too short for the method, and where the
/// result does not verify, as with factors that are not prime.
#[verifier::external_body]
fn sign_pkcs1(key: &Key, hash: RsaHash, hashed: &[u8]) -> (r: Result<Vec<u8>, String>)
    ensures
        text::bytes_view(r) == pkcs1_signature(*key, hash, hashed@),
{
    let scheme = match hash {
        RsaHash::Sha1 => Pkcs1v15Sign::new::<Sha1>(),
        RsaHash::Sha224 => Pkcs1v15Sign::new::<Sha224>(),
        RsaHash::Sha256 => Pkcs1v15Sign::new::<Sha256>(),
        RsaHash::Sha384 => Pkcs1v15Sign::new::<Sha384>(),
        RsaHash::Sha512 => Pkcs1v15Sign::new::<Sha512>(),
        RsaHash::Sha3_224 => Pkcs1v15Sign::new::<Sha3_224>(),
        RsaHash::Sha3_256 => Pkcs1v15Sign::new::<Sha3_256>(),
        RsaHash::Sha3_384 => Pkcs1v15Sign::new::<Sha3_384>(),
        RsaHash::Sha3_512 => Pkcs1v15Sign::new::<Sha3_512>(),
    };
    let private = key.rsa_private_key().ok_or_else(|| "RSA private key required".to_owned())?;
    private.sign(scheme, hashed).map_err(|e| e.to_string())
}

/// `rsa::RsaPrivateKey::sign_with_rng` with the padding of PSS, on a digest, with random numbers
/// of the operating system.
///
/// It fails as PKCS#1 v1.5 does. The salt rests on chance: nothing is said of the signature.
#[verifier::external_body]
fn sign_pss(key: &Key, hash: RsaHash, hashed: &[u8]) -> Result<Vec<u8>, String> {
    let scheme = match hash {
        RsaHash::Sha1 => Pss::new::<Sha1>(),
        RsaHash::Sha224 => Pss::new::<Sha224>(),
        RsaHash::Sha256 => Pss::new::<Sha256>(),
        RsaHash::Sha384 => Pss::new::<Sha384>(),
        RsaHash::Sha512 => Pss::new::<Sha512>(),
        RsaHash::Sha3_224 => Pss::new::<Sha3_224>(),
        RsaHash::Sha3_256 => Pss::new::<Sha3_256>(),
        RsaHash::Sha3_384 => Pss::new::<Sha3_384>(),
        RsaHash::Sha3_512 => Pss::new::<Sha3_512>(),
    };
    let private = key.rsa_private_key().ok_or_else(|| "RSA private key required".to_owned())?;
    private.sign_with_rng(&mut OsRng, scheme, hashed).map_err(|e| e.to_string())
}

/// Whether a key signs by a method through the RSA functions themselves.
pub open spec fn signs_by_rsa(key: Key, uri: Seq<char>) -> bool {
    key_kind(key) == Some(KeyKind::Rsa) && rsa_method(uri) is Some
}

/// The signature of data by a key with a method, or why there is none, for RSA keys with other
/// methods and for ECDSA keys on P-256 and P-384.
pub uninterp spec fn method_signature(key: Key, uri: Seq<char>, data: Seq<u8>) -> Result<
    Seq<u8>,
    Seq<char>,
>;

/// The `sign` method of the method that `bergshamra_crypto::sign::from_uri` finds.
///
/// An RSA key with an RSA method is left out: there the outside function panics where it cannot
/// sign. So are keys of other kinds than RSA and ECDSA. Where the key is of another kind than the
/// method it fails. ECDSA derives its secret number from key and digest on P-256 and P-384. On
/// P-521 it is a random number of the operating system: there nothing is said of the signature.
#[verifier::external_body]
fn sign_data(key: &Key, uri: &str, data: &[u8]) -> (r: Result<Vec<u8>, String>)
    requires
        key_kind(*key) matches Some(k) && default_method(k) is Some,
        !signs_by_rsa(*key, uri@),
    ensures
        key_kind(*key) != Some(KeyKind::EcP521) ==> text::bytes_view(r) == method_signature(
            *key,
            uri@,
            data@,
        ),
{
    let signing_key = key.to_signing_key().ok_or_else(|| "unsupported key".to_owned())?;
    let method = bergshamra_crypto::sign::from_uri(uri).map_err(|e| e.to_string())?;
    method.sign(&signing_key, data).map_err(|e| e.to_string())
}

/// Whether signing a digest with an RSA key and the padding of PSS can give `signed`.
pub closed spec fn pss_gives(
    key: Key,
    hash: RsaHash,
    hashed: Seq<u8>,
    signed: Result<Vec<u8>, String>,
) -> bool {
    exists|h: &[u8]| h@ == hashed && #[trigger] call_ensures(sign_pss, (&key, hash, h), signed)
}

/// Whether signing data with an RSA key by an RSA method can give `signed`: the digest of the data
/// is signed.
pub open spec fn rsa_gives(
    key: Key,
    padding: Padding,
    hash: RsaHash,
    data: Seq<u8>,
    signed: Result<Vec<u8>, String>,
) -> bool {
    match digest::digest_outcome(hash_uri(hash), data) {
        Err(e) => text::bytes_view(signed) == Err::<Seq<u8>, Seq<char>>(e),
        Ok(hashed) => match padding {
            Padding::Pkcs1 => text::bytes_view(signed) == pkcs1_signature(key, hash, hashed),
            Padding::Pss => pss_gives(key, hash, hashed, signed),
        },
    }
}

/// Whether signing data with a key on P-521 by a method can give `signed`.
pub closed spec fn p521_gives(
    key: Key,
    algorithm: Seq<char>,
    data: Seq<u8>,
    signed: Result<Vec<u8>, String>,
) -> bool {
    exists|uri: &str, d: &[u8]|
        uri@ == algorithm && d@ == data && #[trigger] call_ensures(
            sign_data,
            (&key, uri, d),
            signed,
        )
}

/// Whether signing data with a key by a method can give `signed`. Only the padding of PSS and keys
/// on P-521 leave more than one possibility.
pub open spec fn signing_gives(
    key: Key,
    algorithm: Seq<char>,
    data: Seq<u8>,
    signed: Result<Vec<u8>, String>,
) -> bool {
    if signs_by_rsa(key, algorithm) {
        let (padding, hash) = rsa_method(algorithm)->Some_0;
        rsa_gives(key, padding, hash, data, signed)
    } else if key_kind(key) == Some(KeyKind::EcP521) {
        p521_gives(key, algorithm, data, signed)
    } else {
        text::bytes_view(signed) == method_signature(key, algorithm, data)
    }
}

/// Signs with an RSA key by an RSA method.
fn sign_by_rsa(key: &Key, padding: Padding, hash: RsaHash, data: &[u8]) -> (r: Result<
    Vec<u8>,
    String,
>)
    ensures
        rsa_gives(*key, padding, hash, data@, r),
{
    let hashed = match digest::digest(find_hash_uri(hash), data) {
        Ok(h) => h,
        Err(e) => {
            return Err(e);
        },
    };
    match padding {
        Padding::Pkcs1 => sign_pkcs1(key, hash, hashed.as_slice()),
        Padding::Pss => sign_pss(key, hash, hashed.as_slice()),
    }
}

/// A signature, with failures as the library's error.
pub fn signature_result(signed: Result<Vec<u8>, String>) -> (r: Result<Vec<u8>, LibError>)
    ensures
        match signed {
            Ok(value) => r == Ok::<Vec<u8>, LibError>(value),
            Err(e) => r matches Err(error) && error@ == ErrorView::Crypto(e@),
        },
{
    match signed {
        Ok(value) => Ok(value),
        Err(e) => Err(LibError::Crypto(e)),
    }
}

impl Signer for SoftwareSigner {
    fn algorithm_uri(&self) -> (r: &str)
        ensures
            r@ == self@.algorithm,
    {
        self.algorithm_uri.as_str()
    }

    fn certificate_der(&self) -> (r: &[u8])
        ensures
            r@ == self@.certificate,
    {
        self.cert_der.as_slice()
    }

    fn sign(&self, data: &[u8]) -> (r: Result<Vec<u8>, LibError>)
        ensures
            match known_method(self@.algorithm) {
                Err(e) => r matches Err(error) && error@ == ErrorView::Crypto(e),
                Ok(()) => exists|signed: Result<Vec<u8>, String>| #[trigger]
                    signing_gives(self@.key, self@.algorithm, data@, signed) && match signed {
                        Ok(value) => r == Ok::<Vec<u8>, LibError>(value),
                        Err(e) => r matches Err(error) && error@ == ErrorView::Crypto(e@),
                    },
            },
    {
        proof {
            use_type_invariant(self);
        }
        let uri = self.algorithm_uri.as_str();
        if let Err(e) = find_method(uri) {
            return Err(LibError::Crypto(e));
        }
        let by_rsa = match (read_kind(&self.key), find_rsa_method(uri)) {
            (Some(KeyKind::Rsa), Some(method)) => Some(method),
            _ => None,
        };
        let signed = match by_rsa {
            Some((padding, hash)) => sign_by_rsa(&self.key, padding, hash, data),
            None => sign_data(&self.key, uri, data),
        };
        assert(signing_gives(self@.key, self@.algorithm, data@, signed));
        signature_result(signed)
    }
}

} // verus!
