//! How signature methods, digests and keys belong together.
use bergshamra_keys::key::Key;
use vstd::prelude::*;
use vstd::string::*;

use crate::crypto;
use crate::crypto::container;
use crate::crypto::digest;
use crate::crypto::pkcs11;
use crate::crypto::pkcs11::{EcCurve, KeyErrorView, SignScheme};
use crate::crypto::software;
use crate::crypto::software::{KeyKind, Padding, RsaHash, SignerView, SoftwareSigner};
use crate::crypto::Signer;
use crate::error::{ErrorView, LibError};
use crate::ns;
use crate::text;
use crate::x509;

verus! {

/// A method of RSA with the padding of PKCS#1 v1.5, or of ECDSA, by the digest in it.
pub open spec fn more_method(kind: Seq<char>, hash: Seq<char>) -> Seq<char> {
    "http://www.w3.org/2001/04/xmldsig-more#"@ + kind + hash
}

/// The last characters of a text.
pub open spec fn last_of(text: Seq<char>, n: int) -> Seq<char> {
    text.skip(text.len() - n)
}

proof fn lemma_more_methods()
    ensures
        ns::RSA_SHA256@ == more_method("rsa-"@, last_of(ns::SHA256@, 6)),
        ns::RSA_SHA384@ == more_method("rsa-"@, last_of(ns::SHA384@, 6)),
        ns::RSA_SHA512@ == more_method("rsa-"@, last_of(ns::SHA512@, 6)),
        ns::ECDSA_SHA256@ == more_method("ecdsa-"@, last_of(ns::SHA256@, 6)),
        ns::ECDSA_SHA384@ == more_method("ecdsa-"@, last_of(ns::SHA384@, 6)),
        ns::ECDSA_SHA512@ == more_method("ecdsa-"@, last_of(ns::SHA512@, 6)),
{
    reveal_strlit("http://www.w3.org/2001/04/xmldsig-more#");
    reveal_strlit("rsa-");
    reveal_strlit("ecdsa-");
    reveal_strlit("http://www.w3.org/2001/04/xmlenc#sha256");
    reveal_strlit("http://www.w3.org/2001/04/xmldsig-more#sha384");
    reveal_strlit("http://www.w3.org/2001/04/xmlenc#sha512");
    reveal_strlit("http://www.w3.org/2001/04/xmldsig-more#rsa-sha256");
    reveal_strlit("http://www.w3.org/2001/04/xmldsig-more#rsa-sha384");
    reveal_strlit("http://www.w3.org/2001/04/xmldsig-more#rsa-sha512");
    reveal_strlit("http://www.w3.org/2001/04/xmldsig-more#ecdsa-sha256");
    reveal_strlit("http://www.w3.org/2001/04/xmldsig-more#ecdsa-sha384");
    reveal_strlit("http://www.w3.org/2001/04/xmldsig-more#ecdsa-sha512");
    assert(ns::RSA_SHA256@ =~= more_method("rsa-"@, last_of(ns::SHA256@, 6)));
    assert(ns::RSA_SHA384@ =~= more_method("rsa-"@, last_of(ns::SHA384@, 6)));
    assert(ns::RSA_SHA512@ =~= more_method("rsa-"@, last_of(ns::SHA512@, 6)));
    assert(ns::ECDSA_SHA256@ =~= more_method("ecdsa-"@, last_of(ns::SHA256@, 6)));
    assert(ns::ECDSA_SHA384@ =~= more_method("ecdsa-"@, last_of(ns::SHA384@, 6)));
    assert(ns::ECDSA_SHA512@ =~= more_method("ecdsa-"@, last_of(ns::SHA512@, 6)));
}

/// A signature method has a digest method exactly if it is RSA or ECDSA with one of the digests
/// that validation accepts; and the name of the digest ends the name of the method.
pub proof fn method_ends_with_its_digest(sig_uri: Seq<char>)
    ensures
        crypto::digest_of_method(sig_uri) matches Some(uri) ==> {
            &&& uri == "http://www.w3.org/2001/04/xmlenc#sha256"@ || uri
                == "http://www.w3.org/2001/04/xmldsig-more#sha384"@ || uri
                == "http://www.w3.org/2001/04/xmlenc#sha512"@
            &&& sig_uri == more_method("rsa-"@, last_of(uri, 6)) || sig_uri == more_method(
                "ecdsa-"@,
                last_of(uri, 6),
            )
        },
        crypto::digest_of_method(sig_uri) is None ==> forall|uri: Seq<char>| #[trigger]
            digest::is_allowed(uri) ==> sig_uri != more_method("rsa-"@, last_of(uri, 6)) && sig_uri
                != more_method("ecdsa-"@, last_of(uri, 6)),
{
    lemma_more_methods();
}

/// The digests that validation accepts are SHA-256, SHA-384 and SHA-512.
pub proof fn accepted_digests_are_sha2(uri: Seq<char>)
    ensures
        digest::is_allowed(uri) <==> uri == "http://www.w3.org/2001/04/xmlenc#sha256"@ || uri
            == "http://www.w3.org/2001/04/xmldsig-more#sha384"@ || uri
            == "http://www.w3.org/2001/04/xmlenc#sha512"@,
{
}

/// The name of a digest in the name of an RSA method.
pub open spec fn label(hash: RsaHash) -> Seq<char> {
    match hash {
        RsaHash::Sha1 => "sha1"@,
        RsaHash::Sha224 => "sha224"@,
        RsaHash::Sha256 => "sha256"@,
        RsaHash::Sha384 => "sha384"@,
        RsaHash::Sha512 => "sha512"@,
        RsaHash::Sha3_224 => "sha3-224"@,
        RsaHash::Sha3_256 => "sha3-256"@,
        RsaHash::Sha3_384 => "sha3-384"@,
        RsaHash::Sha3_512 => "sha3-512"@,
    }
}

/// The identifier of an RSA method: where the digest is named, and the padding.
pub open spec fn rsa_uri(padding: Padding, hash: RsaHash) -> Seq<char> {
    match padding {
        Padding::Pss => "http://www.w3.org/2007/05/xmldsig-more#"@ + label(hash) + "-rsa-MGF1"@,
        Padding::Pkcs1 => if hash == RsaHash::Sha1 {
            "http://www.w3.org/2000/09/xmldsig#rsa-"@ + label(hash)
        } else {
            more_method("rsa-"@, label(hash))
        },
    }
}

/// Whether a digest goes with a padding.
pub open spec fn goes_with(padding: Padding, hash: RsaHash) -> bool {
    padding == Padding::Pss || hash == RsaHash::Sha1 || hash == RsaHash::Sha224 || hash
        == RsaHash::Sha256 || hash == RsaHash::Sha384 || hash == RsaHash::Sha512
}

proof fn lemma_pkcs1_uris()
    ensures
        ns::RSA_SHA1@ == rsa_uri(Padding::Pkcs1, RsaHash::Sha1),
        ns::RSA_SHA224@ == rsa_uri(Padding::Pkcs1, RsaHash::Sha224),
        ns::RSA_SHA256@ == rsa_uri(Padding::Pkcs1, RsaHash::Sha256),
        ns::RSA_SHA384@ == rsa_uri(Padding::Pkcs1, RsaHash::Sha384),
        ns::RSA_SHA512@ == rsa_uri(Padding::Pkcs1, RsaHash::Sha512),
{
    reveal_strlit("http://www.w3.org/2001/04/xmldsig-more#");
    reveal_strlit("http://www.w3.org/2000/09/xmldsig#rsa-");
    reveal_strlit("rsa-");
    reveal_strlit("sha1");
    reveal_strlit("sha224");
    reveal_strlit("sha256");
    reveal_strlit("sha384");
    reveal_strlit("sha512");
    reveal_strlit("http://www.w3.org/2000/09/xmldsig#rsa-sha1");
    reveal_strlit("http://www.w3.org/2001/04/xmldsig-more#rsa-sha224");
    reveal_strlit("http://www.w3.org/2001/04/xmldsig-more#rsa-sha256");
    reveal_strlit("http://www.w3.org/2001/04/xmldsig-more#rsa-sha384");
    reveal_strlit("http://www.w3.org/2001/04/xmldsig-more#rsa-sha512");
    assert(ns::RSA_SHA1@ =~= rsa_uri(Padding::Pkcs1, RsaHash::Sha1));
    assert(ns::RSA_SHA224@ =~= rsa_uri(Padding::Pkcs1, RsaHash::Sha224));
    assert(ns::RSA_SHA256@ =~= rsa_uri(Padding::Pkcs1, RsaHash::Sha256));
    assert(ns::RSA_SHA384@ =~= rsa_uri(Padding::Pkcs1, RsaHash::Sha384));
    assert(ns::RSA_SHA512@ =~= rsa_uri(Padding::Pkcs1, RsaHash::Sha512));
}

proof fn lemma_pss_uris()
    ensures
        ns::PSS_SHA1@ == rsa_uri(Padding::Pss, RsaHash::Sha1),
        ns::PSS_SHA224@ == rsa_uri(Padding::Pss, RsaHash::Sha224),
        ns::PSS_SHA256@ == rsa_uri(Padding::Pss, RsaHash::Sha256),
        ns::PSS_SHA384@ == rsa_uri(Padding::Pss, RsaHash::Sha384),
        ns::PSS_SHA512@ == rsa_uri(Padding::Pss, RsaHash::Sha512),
{
    reveal_strlit("http://www.w3.org/2007/05/xmldsig-more#");
    reveal_strlit("-rsa-MGF1");
    reveal_strlit("sha1");
    reveal_strlit("sha224");
    reveal_strlit("sha256");
    reveal_strlit("sha384");
    reveal_strlit("sha512");
    reveal_strlit("http://www.w3.org/2007/05/xmldsig-more#sha1-rsa-MGF1");
    reveal_strlit("http://www.w3.org/2007/05/xmldsig-more#sha224-rsa-MGF1");
    reveal_strlit("http://www.w3.org/2007/05/xmldsig-more#sha256-rsa-MGF1");
    reveal_strlit("http://www.w3.org/2007/05/xmldsig-more#sha384-rsa-MGF1");
    reveal_strlit("http://www.w3.org/2007/05/xmldsig-more#sha512-rsa-MGF1");
    assert(ns::PSS_SHA1@ =~= rsa_uri(Padding::Pss, RsaHash::Sha1));
    assert(ns::PSS_SHA224@ =~= rsa_uri(Padding::Pss, RsaHash::Sha224));
    assert(ns::PSS_SHA256@ =~= rsa_uri(Padding::Pss, RsaHash::Sha256));
    assert(ns::PSS_SHA384@ =~= rsa_uri(Padding::Pss, RsaHash::Sha384));
    assert(ns::PSS_SHA512@ =~= rsa_uri(Padding::Pss, RsaHash::Sha512));
}

proof fn lemma_sha3_uris()
    ensures
        ns::PSS_SHA3_224@ == rsa_uri(Padding::Pss, RsaHash::Sha3_224),
        ns::PSS_SHA3_256@ == rsa_uri(Padding::Pss, RsaHash::Sha3_256),
        ns::PSS_SHA3_384@ == rsa_uri(Padding::Pss, RsaHash::Sha3_384),
        ns::PSS_SHA3_512@ == rsa_uri(Padding::Pss, RsaHash::Sha3_512),
{
    reveal_strlit("http://www.w3.org/2007/05/xmldsig-more#");
    reveal_strlit("-rsa-MGF1");
    reveal_strlit("sha3-224");
    reveal_strlit("sha3-256");
    reveal_strlit("sha3-384");
    reveal_strlit("sha3-512");
    reveal_strlit("http://www.w3.org/2007/05/xmldsig-more#sha3-224-rsa-MGF1");
    reveal_strlit("http://www.w3.org/2007/05/xmldsig-more#sha3-256-rsa-MGF1");
    reveal_strlit("http://www.w3.org/2007/05/xmldsig-more#sha3-384-rsa-MGF1");
    reveal_strlit("http://www.w3.org/2007/05/xmldsig-more#sha3-512-rsa-MGF1");
    assert(ns::PSS_SHA3_224@ =~= rsa_uri(Padding::Pss, RsaHash::Sha3_224));
    assert(ns::PSS_SHA3_256@ =~= rsa_uri(Padding::Pss, RsaHash::Sha3_256));
    assert(ns::PSS_SHA3_384@ =~= rsa_uri(Padding::Pss, RsaHash::Sha3_384));
    assert(ns::PSS_SHA3_512@ =~= rsa_uri(Padding::Pss, RsaHash::Sha3_512));
}

proof fn lemma_labels(a: RsaHash, b: RsaHash)
    requires
        label(a) == label(b),
    ensures
        a == b,
{
    reveal_strlit("sha1");
    reveal_strlit("sha224");
    reveal_strlit("sha256");
    reveal_strlit("sha384");
    reveal_strlit("sha512");
    reveal_strlit("sha3-224");
    reveal_strlit("sha3-256");
    reveal_strlit("sha3-384");
    reveal_strlit("sha3-512");
    assert("sha1"@.len() == 4);
    assert("sha224"@.len() == 6 && "sha224"@[3] == '2' && "sha224"@[4] == '2');
    assert("sha256"@.len() == 6 && "sha256"@[3] == '2' && "sha256"@[4] == '5');
    assert("sha384"@.len() == 6 && "sha384"@[3] == '3');
    assert("sha512"@.len() == 6 && "sha512"@[3] == '5');
    assert("sha3-224"@.len() == 8 && "sha3-224"@[5] == '2' && "sha3-224"@[6] == '2');
    assert("sha3-256"@.len() == 8 && "sha3-256"@[5] == '2' && "sha3-256"@[6] == '5');
    assert("sha3-384"@.len() == 8 && "sha3-384"@[5] == '3');
    assert("sha3-512"@.len() == 8 && "sha3-512"@[5] == '5');
}

/// Different RSA methods have different identifiers.
pub proof fn rsa_uris_differ(p: Padding, a: RsaHash, q: Padding, b: RsaHash)
    requires
        rsa_uri(p, a) == rsa_uri(q, b),
    ensures
        p == q,
        a == b,
{
    let (x, y) = (rsa_uri(p, a), rsa_uri(q, b));
    reveal_strlit("http://www.w3.org/2001/04/xmldsig-more#");
    reveal_strlit("http://www.w3.org/2000/09/xmldsig#rsa-");
    reveal_strlit("http://www.w3.org/2007/05/xmldsig-more#");
    reveal_strlit("rsa-");
    reveal_strlit("-rsa-MGF1");
    assert(p is Pss ==> x[21] == '7');
    assert(q is Pss ==> y[21] == '7');
    assert(p is Pkcs1 && a == RsaHash::Sha1 ==> x[21] == '0');
    assert(q is Pkcs1 && b == RsaHash::Sha1 ==> y[21] == '0');
    assert(p is Pkcs1 && a != RsaHash::Sha1 ==> x[21] == '1');
    assert(q is Pkcs1 && b != RsaHash::Sha1 ==> y[21] == '1');
    assert(p == q);
    if p is Pss {
        assert(label(a) =~= x.subrange(39, x.len() - 9));
        assert(label(b) =~= y.subrange(39, y.len() - 9));
        lemma_labels(a, b);
    } else if a != RsaHash::Sha1 && b != RsaHash::Sha1 {
        assert(label(a) =~= x.skip(43));
        assert(label(b) =~= y.skip(43));
        lemma_labels(a, b);
    }
}

/// A method is of RSA exactly if it is named like one, and padding and digest are those that the
/// name tells.
pub proof fn rsa_method_is_what_its_name_tells(uri: Seq<char>)
    ensures
        software::rsa_method(uri) matches Some((padding, hash)) ==> goes_with(padding, hash) && uri
            == rsa_uri(padding, hash),
        forall|padding: Padding, hash: RsaHash|
            goes_with(padding, hash) && uri == #[trigger] rsa_uri(padding, hash)
                ==> software::rsa_method(uri) == Some((padding, hash)),
{
    lemma_pkcs1_uris();
    lemma_pss_uris();
    lemma_sha3_uris();
    assert forall|padding: Padding, hash: RsaHash|
        goes_with(padding, hash) && uri == #[trigger] rsa_uri(
            padding,
            hash,
        ) implies software::rsa_method(uri) == Some((padding, hash)) by {
        let (p, h) = software::rsa_method(uri)->Some_0;
        assert(software::rsa_method(uri) is Some);
        rsa_uris_differ(padding, hash, p, h);
    }
}

/// The identifier of a digest ends with its name.
pub proof fn hash_uri_ends_with_its_name(hash: RsaHash)
    ensures
        last_of(software::hash_uri(hash), label(hash).len() as int) == label(hash),
        software::hash_uri(hash)[software::hash_uri(hash).len() - label(hash).len() - 1] == '#',
{
    reveal_strlit("sha1");
    reveal_strlit("sha224");
    reveal_strlit("sha256");
    reveal_strlit("sha384");
    reveal_strlit("sha512");
    reveal_strlit("sha3-224");
    reveal_strlit("sha3-256");
    reveal_strlit("sha3-384");
    reveal_strlit("sha3-512");
    reveal_strlit("http://www.w3.org/2000/09/xmldsig#sha1");
    reveal_strlit("http://www.w3.org/2001/04/xmldsig-more#sha224");
    reveal_strlit("http://www.w3.org/2001/04/xmlenc#sha256");
    reveal_strlit("http://www.w3.org/2001/04/xmldsig-more#sha384");
    reveal_strlit("http://www.w3.org/2001/04/xmlenc#sha512");
    reveal_strlit("http://www.w3.org/2007/05/xmldsig-more#sha3-224");
    reveal_strlit("http://www.w3.org/2007/05/xmldsig-more#sha3-256");
    reveal_strlit("http://www.w3.org/2007/05/xmldsig-more#sha3-384");
    reveal_strlit("http://www.w3.org/2007/05/xmldsig-more#sha3-512");
    assert(last_of(software::hash_uri(hash), label(hash).len() as int) =~= label(hash));
}

/// An RSA key signs by an RSA method of PKCS#1 v1.5 the digest that the name of the method tells.
pub proof fn rsa_key_signs_the_named_digest(
    key: Key,
    hash: RsaHash,
    data: Seq<u8>,
    signed: Result<Vec<u8>, String>,
)
    requires
        software::key_kind(key) == Some(KeyKind::Rsa),
        goes_with(Padding::Pkcs1, hash),
        software::signing_gives(key, rsa_uri(Padding::Pkcs1, hash), data, signed),
    ensures
        ({
            let digested = digest::digest_outcome(software::hash_uri(hash), data);
            &&& digested matches Err(e) ==> (signed matches Err(reason) && reason@ == e)
            &&& digested matches Ok(hashed) ==> match signed {
                Ok(value) => software::pkcs1_signature(key, hash, hashed) == Ok::<
                    Seq<u8>,
                    Seq<char>,
                >(value@),
                Err(reason) => software::pkcs1_signature(key, hash, hashed) == Err::<
                    Seq<u8>,
                    Seq<char>,
                >(reason@),
            }
        }),
{
    rsa_method_is_what_its_name_tells(rsa_uri(Padding::Pkcs1, hash));
}

/// An ECDSA key on P-256 or P-384 signs the data itself by its method.
pub proof fn ecdsa_key_signs_the_data(
    key: Key,
    algorithm: Seq<char>,
    data: Seq<u8>,
    signed: Result<Vec<u8>, String>,
)
    requires
        software::key_kind(key) == Some(KeyKind::EcP256) || software::key_kind(key) == Some(
            KeyKind::EcP384,
        ),
        software::signing_gives(key, algorithm, data, signed),
    ensures
        match signed {
            Ok(value) => software::method_signature(key, algorithm, data) == Ok::<
                Seq<u8>,
                Seq<char>,
            >(value@),
            Err(reason) => software::method_signature(key, algorithm, data) == Err::<
                Seq<u8>,
                Seq<char>,
            >(reason@),
        },
{
}

/// The digits of a curve's digest.
pub open spec fn digits(curve: EcCurve) -> Seq<char> {
    match curve {
        EcCurve::P256 => "sha256"@,
        EcCurve::P384 => "sha384"@,
        EcCurve::P521 => "sha512"@,
    }
}

/// A key signs by the method of its curve, whether it is on a token or in memory: ECDSA with the
/// digest of the curve's size. RSA keys sign with SHA-256, and keys of other kinds do not sign.
pub proof fn curve_decides_the_method(curve: EcCurve)
    ensures
        pkcs11::curve_scheme(curve).1 == more_method("ecdsa-"@, digits(curve)),
        software::default_method(
            match curve {
                EcCurve::P256 => KeyKind::EcP256,
                EcCurve::P384 => KeyKind::EcP384,
                EcCurve::P521 => KeyKind::EcP521,
            },
        ) == Some(pkcs11::curve_scheme(curve).1),
        software::default_method(KeyKind::Rsa) == Some(more_method("rsa-"@, "sha256"@)),
        software::default_method(KeyKind::Other) is None,
        pkcs11::curve_scheme(curve).0 == match curve {
            EcCurve::P256 => SignScheme::EcdsaSha256,
            EcCurve::P384 => SignScheme::EcdsaSha384,
            EcCurve::P521 => SignScheme::EcdsaSha512,
        },
{
    lemma_more_methods();
    reveal_strlit("sha256");
    reveal_strlit("sha384");
    reveal_strlit("sha512");
    reveal_strlit("http://www.w3.org/2001/04/xmlenc#sha256");
    reveal_strlit("http://www.w3.org/2001/04/xmldsig-more#sha384");
    reveal_strlit("http://www.w3.org/2001/04/xmlenc#sha512");
    assert(last_of(ns::SHA256@, 6) =~= "sha256"@);
    assert(last_of(ns::SHA384@, 6) =~= "sha384"@);
    assert(last_of(ns::SHA512@, 6) =~= "sha512"@);
}

/// A signer with a key in memory has that key and that certificate. There is one exactly for RSA
/// keys and for keys on the three curves.
pub proof fn signer_has_key_and_certificate(key: Key, cert: Seq<u8>)
    ensures
        ({
            let made = software::signer_outcome(key, cert);
            let kind = software::key_kind(key);
            &&& made is Ok <==> kind == Some(KeyKind::Rsa) || kind == Some(KeyKind::EcP256) || kind
                == Some(KeyKind::EcP384) || kind == Some(KeyKind::EcP521)
            &&& made matches Ok(signer) ==> signer.key == key && signer.certificate == cert && Some(
                signer.algorithm,
            ) == software::default_method(kind->Some_0)
            &&& kind is None ==> made == Err::<SignerView, ErrorView>(
                ErrorView::Crypto("unsupported key"@),
            )
            &&& kind == Some(KeyKind::Other) ==> made == Err::<SignerView, ErrorView>(
                ErrorView::Unsupported("only RSA and ECDSA P-256/P-384/P-521 keys are supported"@),
            )
        }),
{
}

/// A signer from a bundle has the bundle's first certificate; one from a PEM key has the one that
/// is given with it, whichever comes as DER or first in the PEM data.
pub proof fn signer_has_the_first_certificate(
    loaded: Result<Key, Seq<char>>,
    cert: Seq<u8>,
)
    ensures
        software::pkcs12_outcome(loaded) matches Ok(signer) ==> loaded == Ok::<Key, Seq<char>>(
            signer.key,
        ) && software::key_chain(signer.key).len() > 0 && signer.certificate
            == software::key_chain(signer.key)[0],
        loaded matches Err(e) ==> software::pkcs12_outcome(loaded) == Err::<SignerView, ErrorView>(
            ErrorView::Crypto("PKCS#12: "@ + e),
        ),
        loaded matches Ok(key) ==> (software::key_chain(key).len() == 0
            ==> software::pkcs12_outcome(loaded) == Err::<SignerView, ErrorView>(
            ErrorView::Certificate("PKCS#12 bundle has no certificate"@),
        )),
        loaded matches Err(e) ==> software::pem_outcome(
            loaded,
            software::given_certificate(cert),
        ) == Err::<SignerView, ErrorView>(ErrorView::Crypto("private key: "@ + e)),
        software::pem_outcome(loaded, software::given_certificate(cert)) matches Ok(signer) ==> {
            let dashes = seq![0x2du8, 0x2d, 0x2d, 0x2d, 0x2d];
            &&& loaded == Ok::<Key, Seq<char>>(signer.key)
            &&& !dashes.is_prefix_of(cert) ==> signer.certificate == cert
            &&& dashes.is_prefix_of(cert) ==> (x509::pem_certificates(cert) matches Ok(list)
                && list.len() > 0 && list[0] == Ok::<Seq<u8>, Seq<char>>(signer.certificate))
        },
{
}

/// Why a certificate cannot be taken from PEM data is said.
pub proof fn certificate_faults_are_named(certs: Result<Seq<Result<Seq<u8>, Seq<char>>>, Seq<char>>)
    ensures
        certs matches Err(e) ==> software::first_outcome(certs) == Err::<Seq<u8>, ErrorView>(
            ErrorView::Certificate("certificate PEM: "@ + e),
        ),
        certs matches Ok(list) ==> {
            &&& list.len() == 0 ==> software::first_outcome(certs) == Err::<Seq<u8>, ErrorView>(
                ErrorView::Certificate("no certificate in PEM input"@),
            )
            &&& list.len() > 0 ==> (list[0] matches Err(e) ==> software::first_outcome(certs)
                == Err::<Seq<u8>, ErrorView>(
                ErrorView::Certificate("certificate re-encode: "@ + e),
            ))
            &&& list.len() > 0 ==> (list[0] matches Ok(der) ==> software::first_outcome(certs)
                == Ok::<Seq<u8>, ErrorView>(der))
        },
{
}

/// A signer with a key on a token has the certificate that was given, or else the one on the token,
/// and signs by the method of its curve.
pub proof fn token_signer_has_a_certificate(
    given: Option<Seq<u8>>,
    on_token: Option<Seq<u8>>,
    what: Seq<char>,
)
    ensures
        ({
            let made = pkcs11::token_signer_outcome(given, on_token, what);
            let cert = if given is Some {
                given
            } else {
                on_token
            };
            let curve = pkcs11::certificate_curve(cert->Some_0);
            &&& cert is None ==> made == Err::<pkcs11::TokenSignerView, ErrorView>(
                ErrorView::Certificate("no certificate available for "@ + what),
            )
            &&& cert is Some ==> (made is Ok <==> curve is Ok)
            &&& made matches Ok(signer) ==> {
                &&& Some(signer.cert_der) == cert
                &&& signer.algorithm_uri == more_method("ecdsa-"@, digits(curve->Ok_0))
                &&& signer.scheme == pkcs11::curve_scheme(curve->Ok_0).0
            }
            &&& cert is Some ==> (curve matches Err(e) ==> made == Err::<
                pkcs11::TokenSignerView,
                ErrorView,
            >(
                match e {
                    KeyErrorView::Certificate(m) => ErrorView::Certificate(m),
                    KeyErrorView::Unsupported(m) => ErrorView::Unsupported(m),
                    KeyErrorView::Other(m) => ErrorView::Certificate(m),
                },
            ))
        }),
{
    if let Some(cert) = if given is Some {
        given
    } else {
        on_token
    } {
        if let Ok(curve) = pkcs11::certificate_curve(cert) {
            curve_decides_the_method(curve);
        }
    }
}

/// A signature method without a digest method is an error that names it; a key without a method of
/// its own is one too.
pub proof fn unsupported_methods_are_named(
    sig_uri: &str,
    kind: KeyKind,
    r: Result<&'static str, LibError>,
    s: Result<&'static str, LibError>,
)
    requires
        call_ensures(crypto::signature_digest_uri, (sig_uri,), r),
        call_ensures(software::default_algorithm, (kind,), s),
    ensures
        r matches Ok(uri) ==> crypto::digest_of_method(sig_uri@) == Some(uri@),
        r matches Err(e) ==> crypto::digest_of_method(sig_uri@) is None && e@
            == ErrorView::Unsupported("method not supported: "@ + sig_uri@),
        s matches Ok(uri) ==> software::default_method(kind) == Some(uri@),
        s matches Err(e) ==> kind == KeyKind::Other && e@ == ErrorView::Unsupported(
            "only RSA and ECDSA P-256/P-384/P-521 keys are supported"@,
        ),
{
}

/// A signer shows the certificate that it was made with and the method of its key; bytes that do
/// not start like PEM are the certificate themselves.
pub proof fn signer_shows_its_certificate(
    key_pem: &[u8],
    cert: &[u8],
    password: Option<&str>,
    r: Result<SoftwareSigner, LibError>,
    shown: &[u8],
    method: &str,
)
    requires
        call_ensures(SoftwareSigner::from_pem, (key_pem, cert, password), r),
        r matches Ok(signer) ==> call_ensures(SoftwareSigner::certificate_der, (&signer,), shown)
            && call_ensures(SoftwareSigner::algorithm_uri, (&signer,), method),
    ensures
        r is Ok && !(seq![0x2du8, 0x2d, 0x2d, 0x2d, 0x2d].is_prefix_of(cert@)) ==> shown@ == cert@,
        r is Ok && seq![0x2du8, 0x2d, 0x2d, 0x2d, 0x2d].is_prefix_of(cert@) ==> (
        x509::pem_certificates(cert@) matches Ok(list) && list.len() > 0 && list[0] == Ok::<
            Seq<u8>,
            Seq<char>,
        >(shown@)),
        r is Ok ==> crypto::digest_of_method(method@) is Some,
{
    if r is Ok {
        let loaded = choose|loaded: Result<Key, Seq<char>>| #[trigger]
            software::pem_gives(key_pem, password, loaded) && software::signer_result(r)
                == software::pem_outcome(loaded, software::given_certificate(cert@));
        signer_has_the_first_certificate(loaded, cert@);
        let signer = software::signer_result(r)->Ok_0;
        assert(signer.certificate == shown@);
        signer_has_key_and_certificate(signer.key, signer.certificate);
        software::default_methods_have_digests(software::key_kind(signer.key)->Some_0);
    }
}

/// What signing on a token or in memory gave is the signature; a failure is an error that says why.
pub proof fn signatures_are_handed_on(
    token_signer: &pkcs11::Pkcs11Signer,
    signed: Result<Vec<u8>, String>,
    r: Result<Vec<u8>, LibError>,
    s: Result<Vec<u8>, LibError>,
)
    requires
        call_ensures(pkcs11::Pkcs11Signer::signature, (token_signer, signed), r),
        call_ensures(software::signature_result, (signed,), s),
    ensures
        signed matches Ok(value) ==> r == Ok::<Vec<u8>, LibError>(value) && s == Ok::<
            Vec<u8>,
            LibError,
        >(value),
        signed matches Err(e) ==> (r matches Err(error) && error@ == ErrorView::Signing(
            "PKCS#11: "@ + e@,
        )),
        signed matches Err(e) ==> (s matches Err(error) && error@ == ErrorView::Crypto(e@)),
{
}

/// A key on a token that could not be opened is an error that says why; one without a certificate
/// is one that names the key.
pub proof fn token_failures_are_named(
    opts: &pkcs11::Pkcs11Options,
    opened: Result<Option<Vec<u8>>, String>,
    r: Result<pkcs11::Pkcs11Signer, LibError>,
)
    requires
        call_ensures(pkcs11::Pkcs11Signer::open, (opts, opened), r),
    ensures
        opened matches Err(e) ==> (r matches Err(error) && error@ == ErrorView::Crypto(
            "PKCS#11: "@ + e@,
        )),
        opened matches Ok(found) ==> (found is None && opts.certificate_der is None ==> (
        r matches Err(error) && error@ == ErrorView::Certificate(
            "no certificate available for "@ + ("key with label "@ + text::quoted_text(
                opts.key_label@,
            )),
        ))),
        opened matches Ok(found) ==> (opts.certificate_der matches Some(der) ==> (r matches Ok(
            signer,
        ) ==> signer@.cert_der == der@)),
        opened matches Ok(found) ==> (opts.certificate_der is None ==> (found matches Some(der)
            ==> (r matches Ok(signer) ==> signer@.cert_der == der@))),
{
    if let Ok(found) = opened {
        token_signer_has_a_certificate(
            text::opt_bytes(opts.certificate_der),
            text::opt_bytes(found),
            "key with label "@ + text::quoted_text(opts.key_label@),
        );
    }
}

/// A signer from a bundle shows the first certificate that loading the bundle gives.
pub proof fn bundle_signer_shows_its_certificate(
    data: &[u8],
    password: &str,
    r: Result<SoftwareSigner, LibError>,
    shown: &[u8],
)
    requires
        call_ensures(SoftwareSigner::from_pkcs12, (data, password), r),
        r matches Ok(signer) ==> call_ensures(SoftwareSigner::certificate_der, (&signer,), shown),
    ensures
        r is Ok ==> (software::pkcs12_key(data@, password@) matches Ok(parts) && parts.0.len() > 0
            && parts.0[0] == shown@),
        container::is_loadable_bundle(data@, password@) ==> (software::pkcs12_key(
            data@,
            password@,
        ) matches Err(e) ==> (r matches Err(error) && error@ == ErrorView::Crypto(
            "PKCS#12: "@ + e,
        ))),
{
    let loaded = choose|loaded: Result<Key, Seq<char>>| #[trigger]
        software::pkcs12_gives(data, password, loaded) && software::signer_result(r)
            == software::pkcs12_outcome(loaded);
    software::bundle_is_loaded(data, password, loaded);
    signer_has_the_first_certificate(loaded, Seq::empty());
    if r is Ok {
        assert(software::signer_result(r)->Ok_0.certificate == shown@);
    }
}

/// A signer with an RSA key and a method of PKCS#1 v1.5 signs the digest that the method names.
pub proof fn rsa_signer_signs_the_named_digest(
    signer: &SoftwareSigner,
    hash: RsaHash,
    data: &[u8],
    r: Result<Vec<u8>, LibError>,
)
    requires
        call_ensures(SoftwareSigner::sign, (signer, data), r),
        software::key_kind(signer@.key) == Some(KeyKind::Rsa),
        goes_with(Padding::Pkcs1, hash),
        signer@.algorithm == rsa_uri(Padding::Pkcs1, hash),
    ensures
        software::known_method(signer@.algorithm) matches Err(e) ==> (r matches Err(error) && error@
            == ErrorView::Crypto(e)),
        r matches Ok(value) ==> (digest::digest_outcome(
            software::hash_uri(hash),
            data@,
        ) matches Ok(hashed) && software::pkcs1_signature(signer@.key, hash, hashed) == Ok::<
            Seq<u8>,
            Seq<char>,
        >(value@)),
{
    if software::known_method(signer@.algorithm) is Ok {
        let signed = choose|signed: Result<Vec<u8>, String>| #[trigger]
            software::signing_gives(signer@.key, signer@.algorithm, data@, signed) && match signed {
                Ok(value) => r == Ok::<Vec<u8>, LibError>(value),
                Err(e) => r matches Err(error) && error@ == ErrorView::Crypto(e@),
            };
        rsa_key_signs_the_named_digest(signer@.key, hash, data@, signed);
    }
}

/// A signer with another method keeps its key and its certificate.
pub proof fn other_method_keeps_the_signer(
    signer: SoftwareSigner,
    uri: String,
    r: SoftwareSigner,
)
    requires
        call_ensures(SoftwareSigner::with_algorithm::<String>, (signer, uri), r),
    ensures
        r@.key == signer@.key,
        r@.certificate == signer@.certificate,
{
}

} // verus!
