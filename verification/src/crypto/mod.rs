//! Signing keys and digests.
pub mod ber;
pub mod bundle;
pub mod container;
pub mod digest;
pub mod methods;
pub mod pkcs11;
pub mod reading;
pub mod software;

use vstd::prelude::*;

use crate::error::LibError;
use crate::ns;
use crate::text;

verus! {

/// Something that signs: a key with its certificate.
pub trait Signer {
    /// Identifier of the signature method.
    fn algorithm_uri(&self) -> &str;

    /// The signing certificate.
    fn certificate_der(&self) -> &[u8];

    /// Signs `data`.
    fn sign(&self, data: &[u8]) -> Result<Vec<u8>, LibError>;
}

/// The digest method that belongs to a signature method, for the methods that are supported.
pub open spec fn digest_of_method(sig_uri: Seq<char>) -> Option<Seq<char>> {
    if sig_uri == ns::RSA_SHA256@ || sig_uri == ns::ECDSA_SHA256@ {
        Some(ns::SHA256@)
    } else if sig_uri == ns::RSA_SHA384@ || sig_uri == ns::ECDSA_SHA384@ {
        Some(ns::SHA384@)
    } else if sig_uri == ns::RSA_SHA512@ || sig_uri == ns::ECDSA_SHA512@ {
        Some(ns::SHA512@)
    } else {
        None
    }
}

/// Finds the digest method that belongs to a signature method.
pub fn signature_digest_uri(sig_uri: &str) -> (r: Result<&'static str, LibError>)
    ensures
        match digest_of_method(sig_uri@) {
            Some(uri) => r matches Ok(u) && u@ == uri,
            None => r matches Err(e) && e@ == crate::error::ErrorView::Unsupported(
                "method not supported: "@ + sig_uri@,
            ),
        },
{
    if text::same(sig_uri, ns::RSA_SHA256) || text::same(sig_uri, ns::ECDSA_SHA256) {
        Ok(ns::SHA256)
    } else if text::same(sig_uri, ns::RSA_SHA384) || text::same(sig_uri, ns::ECDSA_SHA384) {
        Ok(ns::SHA384)
    } else if text::same(sig_uri, ns::RSA_SHA512) || text::same(sig_uri, ns::ECDSA_SHA512) {
        Ok(ns::SHA512)
    } else {
        Err(LibError::Unsupported(text::joined("method not supported: ", sig_uri)))
    }
}

/// Every digest method that belongs to a signature method is one that validation accepts.
pub proof fn method_digests_are_allowed(sig_uri: Seq<char>)
    ensures
        digest_of_method(sig_uri) matches Some(uri) ==> digest::is_allowed(uri),
{
}

} // verus!
