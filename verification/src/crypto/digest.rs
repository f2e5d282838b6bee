//! Message digests.
use vstd::prelude::*;

use crate::ns;
use crate::text;

verus! {

/// The digest of `data` by the method `uri`, or the reason why there is none.
pub uninterp spec fn digest_outcome(uri: Seq<char>, data: Seq<u8>) -> Result<Seq<u8>, Seq<char>>;

/// The digest methods that validation accepts.
pub open spec fn is_allowed(uri: Seq<char>) -> bool {
    uri == ns::SHA256@ || uri == ns::SHA384@ || uri == ns::SHA512@
}

/// How many bytes a digest by an accepted method has.
pub open spec fn digest_len(uri: Seq<char>) -> nat {
    if uri == ns::SHA256@ {
        32
    } else if uri == ns::SHA384@ {
        48
    } else {
        64
    }
}

/// `bergshamra_crypto::digest::digest`: SHA-256, SHA-384 and SHA-512 never fail and have their
/// usual lengths.
#[verifier::external_body]
pub(crate) fn digest(uri: &str, data: &[u8]) -> (r: Result<Vec<u8>, String>)
    ensures
        text::bytes_view(r) == digest_outcome(uri@, data@),
        is_allowed(uri@) ==> r is Ok,
        is_allowed(uri@) ==> r->Ok_0@.len() == digest_len(uri@),
{
    bergshamra_crypto::digest::digest(uri, data).map_err(|e| e.to_string())
}

/// Whether validation accepts a digest method.
pub(crate) fn allowed(uri: &str) -> (r: bool)
    ensures
        r == is_allowed(uri@),
{
    text::same(uri, ns::SHA256) || text::same(uri, ns::SHA384) || text::same(uri, ns::SHA512)
}

} // verus!
