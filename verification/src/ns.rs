//! Namespace, type and algorithm identifiers.
use vstd::prelude::*;

verus! {

/// ASiC containers, the namespace of the document element.
pub const ASIC: &'static str = "http://uri.etsi.org/02918/v1.2.1#";

/// XML Signature.
pub const DSIG: &'static str = "http://www.w3.org/2000/09/xmldsig#";

/// XAdES qualifying properties.
pub const XADES: &'static str = "http://uri.etsi.org/01903/v1.3.2#";

/// `Type` of the reference that covers the signed properties.
pub const TYPE_SIGNED_PROPERTIES: &'static str = "http://uri.etsi.org/01903#SignedProperties";

pub const SHA1: &'static str = "http://www.w3.org/2000/09/xmldsig#sha1";

pub const SHA224: &'static str = "http://www.w3.org/2001/04/xmldsig-more#sha224";

pub const SHA256: &'static str = "http://www.w3.org/2001/04/xmlenc#sha256";

pub const SHA384: &'static str = "http://www.w3.org/2001/04/xmldsig-more#sha384";

pub const SHA512: &'static str = "http://www.w3.org/2001/04/xmlenc#sha512";

pub const SHA3_224: &'static str = "http://www.w3.org/2007/05/xmldsig-more#sha3-224";

pub const SHA3_256: &'static str = "http://www.w3.org/2007/05/xmldsig-more#sha3-256";

pub const SHA3_384: &'static str = "http://www.w3.org/2007/05/xmldsig-more#sha3-384";

pub const SHA3_512: &'static str = "http://www.w3.org/2007/05/xmldsig-more#sha3-512";

pub const RSA_SHA1: &'static str = "http://www.w3.org/2000/09/xmldsig#rsa-sha1";

pub const RSA_SHA224: &'static str = "http://www.w3.org/2001/04/xmldsig-more#rsa-sha224";

pub const RSA_SHA256: &'static str = "http://www.w3.org/2001/04/xmldsig-more#rsa-sha256";

pub const RSA_SHA384: &'static str = "http://www.w3.org/2001/04/xmldsig-more#rsa-sha384";

pub const RSA_SHA512: &'static str = "http://www.w3.org/2001/04/xmldsig-more#rsa-sha512";

pub const PSS_SHA1: &'static str = "http://www.w3.org/2007/05/xmldsig-more#sha1-rsa-MGF1";

pub const PSS_SHA224: &'static str = "http://www.w3.org/2007/05/xmldsig-more#sha224-rsa-MGF1";

pub const PSS_SHA256: &'static str = "http://www.w3.org/2007/05/xmldsig-more#sha256-rsa-MGF1";

pub const PSS_SHA384: &'static str = "http://www.w3.org/2007/05/xmldsig-more#sha384-rsa-MGF1";

pub const PSS_SHA512: &'static str = "http://www.w3.org/2007/05/xmldsig-more#sha512-rsa-MGF1";

pub const PSS_SHA3_224: &'static str = "http://www.w3.org/2007/05/xmldsig-more#sha3-224-rsa-MGF1";

pub const PSS_SHA3_256: &'static str = "http://www.w3.org/2007/05/xmldsig-more#sha3-256-rsa-MGF1";

pub const PSS_SHA3_384: &'static str = "http://www.w3.org/2007/05/xmldsig-more#sha3-384-rsa-MGF1";

pub const PSS_SHA3_512: &'static str = "http://www.w3.org/2007/05/xmldsig-more#sha3-512-rsa-MGF1";

pub const ECDSA_SHA256: &'static str = "http://www.w3.org/2001/04/xmldsig-more#ecdsa-sha256";

pub const ECDSA_SHA384: &'static str = "http://www.w3.org/2001/04/xmldsig-more#ecdsa-sha384";

pub const ECDSA_SHA512: &'static str = "http://www.w3.org/2001/04/xmldsig-more#ecdsa-sha512";

} // verus!
