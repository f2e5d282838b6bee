//! XAdES signatures for ASiC-E containers: writing them, extending them with a
//! time-stamp and revocation data, and validating them.
pub mod chain;
pub mod codec;
pub mod crypto;
pub mod error;
pub mod ns;
pub mod sig;
pub mod text;
pub mod time;
pub mod validate;
pub mod x509;
pub mod xml;

use vstd::prelude::*;

pub use crypto::software::SoftwareSigner;
pub use crypto::Signer;
pub use error::LibError;
pub use sig::lt::{CreatedSignature, LtConfig};
pub use time::Time;
pub use validate::{validate, Profile, SignatureValidation, ValidationOptions};

verus! {

/// A data object covered by a signature.
#[derive(Debug, Clone, Copy)]
pub struct DataObject<'a> {
    /// File name as stored in the container.
    pub name: &'a str,
    /// Media type, e.g. `application/pdf`.
    pub mime_type: &'a str,
    /// Raw content.
    pub content: &'a [u8],
}

} // verus!
