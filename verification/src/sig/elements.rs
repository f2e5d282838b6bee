//! Signature documents as nested elements.
use vstd::prelude::*;
use vstd::string::*;

use crate::codec;
use crate::ns;
use crate::sig::template;
use crate::sig::template::{DraftView, FileView, UnsignedView};
use crate::xml::markup;
use crate::xml::markup::{Markup, Tag};
use crate::xml::output;

verus! {

/// A tag of the XML signature.
pub open spec fn ds(local: Seq<char>, attributes: Seq<(Seq<char>, Seq<char>)>) -> Tag {
    Tag { prefix: "ds"@, local, attributes }
}

/// A tag of the qualifying properties.
pub open spec fn xa(local: Seq<char>, attributes: Seq<(Seq<char>, Seq<char>)>) -> Tag {
    Tag { prefix: "xades"@, local, attributes }
}

/// No attributes.
pub open spec fn bare() -> Seq<(Seq<char>, Seq<char>)> {
    Seq::empty()
}

/// An element that names an algorithm.
pub open spec fn algorithm(local: Seq<char>, uri: Seq<char>) -> Markup {
    Markup::Empty(ds(local, seq![("Algorithm"@, uri)]))
}

/// An element that holds bytes.
pub open spec fn bytes(tag: Tag, data: Seq<u8>) -> Markup {
    Markup::Leaf(tag, codec::base64_encoded(data))
}

/// An element that holds bytes, or nothing.
pub open spec fn opt_bytes(tag: Tag, data: Option<Seq<u8>>) -> Markup {
    Markup::Leaf(
        tag,
        match data {
            Some(d) => codec::base64_encoded(d),
            None => Seq::empty(),
        },
    )
}

/// The reference to one file.
pub open spec fn file_reference(id: Seq<char>, digest_uri: Seq<char>, file: FileView) -> Markup {
    Markup::Parent(
        ds("Reference"@, seq![("Id"@, id), ("URI"@, file.uri)]),
        seq![
            algorithm("DigestMethod"@, digest_uri),
            bytes(ds("DigestValue"@, bare()), file.digest),
        ],
    )
}

/// The references to the files.
pub open spec fn file_references(
    id: Seq<char>,
    digest_uri: Seq<char>,
    files: Seq<FileView>,
) -> Seq<Markup> {
    Seq::new(
        files.len(),
        |i: int| file_reference(template::reference_id(id, i as nat), digest_uri, files[i]),
    )
}

/// The reference to the signed properties.
pub open spec fn properties_reference(draft: DraftView) -> Markup {
    Markup::Parent(
        ds(
            "Reference"@,
            seq![
                ("Type"@, ns::TYPE_SIGNED_PROPERTIES@),
                ("URI"@, "#"@ + draft.signed_properties_id()),
            ],
        ),
        seq![
            algorithm("DigestMethod"@, draft.digest_uri),
            opt_bytes(ds("DigestValue"@, bare()), draft.signed_props_digest),
        ],
    )
}

/// What `ds:SignedInfo` holds.
pub open spec fn signed_info_parts(draft: DraftView) -> Seq<Markup> {
    seq![
        algorithm("CanonicalizationMethod"@, draft.c14n_uri),
        algorithm("SignatureMethod"@, draft.sig_method_uri),
    ] + file_references(draft.id, draft.digest_uri, draft.files) + seq![properties_reference(draft)]
}

/// `ds:SignedInfo`.
pub open spec fn signed_info(draft: DraftView) -> Markup {
    Markup::Parent(ds("SignedInfo"@, bare()), signed_info_parts(draft))
}

/// `ds:SignatureValue`.
pub open spec fn signature_value(draft: DraftView) -> Markup {
    opt_bytes(ds("SignatureValue"@, seq![("Id"@, draft.id + "-SIG"@)]), draft.signature_value)
}

/// `ds:KeyInfo`.
pub open spec fn key_info(cert_der: Seq<u8>) -> Markup {
    Markup::Parent(
        ds("KeyInfo"@, bare()),
        seq![
            Markup::Parent(
                ds("X509Data"@, bare()),
                seq![bytes(ds("X509Certificate"@, bare()), cert_der)],
            ),
        ],
    )
}

/// The property that binds the signing certificate.
pub open spec fn signing_certificate(
    digest_uri: Seq<char>,
    cert_digest: Seq<u8>,
    issuer_serial: Seq<u8>,
) -> Markup {
    Markup::Parent(
        xa("SigningCertificateV2"@, bare()),
        seq![
            Markup::Parent(
                xa("Cert"@, bare()),
                seq![
                    Markup::Parent(
                        xa("CertDigest"@, bare()),
                        seq![
                            algorithm("DigestMethod"@, digest_uri),
                            bytes(ds("DigestValue"@, bare()), cert_digest),
                        ],
                    ),
                    bytes(xa("IssuerSerialV2"@, bare()), issuer_serial),
                ],
            ),
        ],
    )
}

/// The format of one file.
pub open spec fn file_format(id: Seq<char>, file: FileView) -> Markup {
    Markup::Parent(
        xa("DataObjectFormat"@, seq![("ObjectReference"@, "#"@ + id)]),
        seq![Markup::Leaf(xa("MimeType"@, bare()), file.mime_type)],
    )
}

/// The formats of the files.
pub open spec fn file_formats(id: Seq<char>, files: Seq<FileView>) -> Seq<Markup> {
    Seq::new(files.len(), |i: int| file_format(template::reference_id(id, i as nat), files[i]))
}

/// `xades:SignedSignatureProperties`.
pub open spec fn signature_properties(
    draft: DraftView,
    cert_digest: Seq<u8>,
    issuer_serial: Seq<u8>,
) -> Markup {
    Markup::Parent(
        xa("SignedSignatureProperties"@, bare()),
        seq![
            Markup::Leaf(xa("SigningTime"@, bare()), draft.signing_time),
            signing_certificate(draft.digest_uri, cert_digest, issuer_serial),
        ],
    )
}

/// `xades:SignedDataObjectProperties`.
pub open spec fn object_properties(draft: DraftView) -> Markup {
    Markup::Parent(
        xa("SignedDataObjectProperties"@, bare()),
        file_formats(draft.id, draft.files),
    )
}

/// What `xades:SignedProperties` holds.
pub open spec fn signed_parts(
    draft: DraftView,
    cert_digest: Seq<u8>,
    issuer_serial: Seq<u8>,
) -> Seq<Markup> {
    seq![signature_properties(draft, cert_digest, issuer_serial), object_properties(draft)]
}

/// `xades:SignedProperties`.
pub open spec fn signed_properties(
    draft: DraftView,
    cert_digest: Seq<u8>,
    issuer_serial: Seq<u8>,
) -> Markup {
    Markup::Parent(
        xa("SignedProperties"@, seq![("Id"@, draft.signed_properties_id())]),
        signed_parts(draft, cert_digest, issuer_serial),
    )
}

/// Byte strings in elements of one name.
pub open spec fn all_bytes(tag: Tag, values: Seq<Seq<u8>>) -> Seq<Markup> {
    Seq::new(values.len(), |i: int| bytes(tag, values[i]))
}

/// The signature time-stamp.
pub open spec fn signature_timestamp(id: Seq<char>, unsigned: UnsignedView) -> Markup {
    Markup::Parent(
        xa("SignatureTimeStamp"@, seq![("Id"@, id + "-TS"@)]),
        seq![
            algorithm("CanonicalizationMethod"@, unsigned.timestamp_c14n_uri),
            bytes(xa("EncapsulatedTimeStamp"@, bare()), unsigned.timestamp_der),
        ],
    )
}

/// The certificates for validation, if there are any.
pub open spec fn certificate_values(certs: Seq<Seq<u8>>) -> Seq<Markup> {
    if certs.len() == 0 {
        Seq::empty()
    } else {
        seq![
            Markup::Parent(
                xa("CertificateValues"@, bare()),
                all_bytes(xa("EncapsulatedX509Certificate"@, bare()), certs),
            ),
        ]
    }
}

/// The OCSP responses, if there are any.
pub open spec fn revocation_values(responses: Seq<Seq<u8>>) -> Seq<Markup> {
    if responses.len() == 0 {
        Seq::empty()
    } else {
        seq![
            Markup::Parent(
                xa("RevocationValues"@, bare()),
                seq![
                    Markup::Parent(
                        xa("OCSPValues"@, bare()),
                        all_bytes(xa("EncapsulatedOCSPValue"@, bare()), responses),
                    ),
                ],
            ),
        ]
    }
}

/// What `xades:UnsignedSignatureProperties` holds.
pub open spec fn unsigned_parts(id: Seq<char>, u: UnsignedView) -> Seq<Markup> {
    seq![signature_timestamp(id, u)] + certificate_values(u.cert_values) + revocation_values(
        u.ocsp_values,
    )
}

/// `xades:UnsignedSignatureProperties`.
pub open spec fn unsigned_signature_properties(id: Seq<char>, u: UnsignedView) -> Markup {
    Markup::Parent(xa("UnsignedSignatureProperties"@, bare()), unsigned_parts(id, u))
}

/// `xades:UnsignedProperties`, if there are any.
pub open spec fn unsigned_properties(id: Seq<char>, unsigned: Option<UnsignedView>) -> Seq<
    Markup,
> {
    match unsigned {
        None => Seq::empty(),
        Some(u) => seq![
            Markup::Parent(
                xa("UnsignedProperties"@, bare()),
                seq![unsigned_signature_properties(id, u)],
            ),
        ],
    }
}

/// What `xades:QualifyingProperties` holds.
pub open spec fn qualifying_parts(
    draft: DraftView,
    cert_digest: Seq<u8>,
    issuer_serial: Seq<u8>,
) -> Seq<Markup> {
    seq![signed_properties(draft, cert_digest, issuer_serial)] + unsigned_properties(
        draft.id,
        draft.unsigned,
    )
}

/// `xades:QualifyingProperties`.
pub open spec fn qualifying_properties(
    draft: DraftView,
    cert_digest: Seq<u8>,
    issuer_serial: Seq<u8>,
) -> Markup {
    Markup::Parent(
        xa("QualifyingProperties"@, seq![("Target"@, "#"@ + draft.id)]),
        qualifying_parts(draft, cert_digest, issuer_serial),
    )
}

/// `ds:Object`.
pub open spec fn object(
    draft: DraftView,
    cert_digest: Seq<u8>,
    issuer_serial: Seq<u8>,
) -> Markup {
    Markup::Parent(
        ds("Object"@, bare()),
        seq![qualifying_properties(draft, cert_digest, issuer_serial)],
    )
}

/// What `ds:Signature` holds.
pub open spec fn signature_parts(
    draft: DraftView,
    cert_digest: Seq<u8>,
    issuer_serial: Seq<u8>,
) -> Seq<Markup> {
    seq![
        signed_info(draft),
        signature_value(draft),
        key_info(draft.cert_der),
        object(draft, cert_digest, issuer_serial),
    ]
}

/// `ds:Signature`.
pub open spec fn signature(
    draft: DraftView,
    cert_digest: Seq<u8>,
    issuer_serial: Seq<u8>,
) -> Markup {
    Markup::Parent(
        ds("Signature"@, seq![("Id"@, draft.id)]),
        signature_parts(draft, cert_digest, issuer_serial),
    )
}

/// Whether a local name is written as `name` with the prefix of the XML signature.
spec fn is_ds(local: Seq<char>, name: Seq<char>) -> bool {
    "ds"@ + seq![':'] + local == name && output::plain_name(name)
}

/// Whether a local name is written as `name` with the prefix of the qualifying properties.
spec fn is_xa(local: Seq<char>, name: Seq<char>) -> bool {
    "xades"@ + seq![':'] + local == name && output::plain_name(name)
}

/// How the elements of the XML signature are written.
proof fn lemma_ds_names()
    ensures
        is_ds("Signature"@, "ds:Signature"@),
        is_ds("SignedInfo"@, "ds:SignedInfo"@),
        is_ds("CanonicalizationMethod"@, "ds:CanonicalizationMethod"@),
        is_ds("SignatureMethod"@, "ds:SignatureMethod"@),
        is_ds("Reference"@, "ds:Reference"@),
        is_ds("DigestMethod"@, "ds:DigestMethod"@),
        is_ds("DigestValue"@, "ds:DigestValue"@),
        is_ds("SignatureValue"@, "ds:SignatureValue"@),
        is_ds("KeyInfo"@, "ds:KeyInfo"@),
        is_ds("X509Data"@, "ds:X509Data"@),
        is_ds("X509Certificate"@, "ds:X509Certificate"@),
        is_ds("Object"@, "ds:Object"@),
{
    template::lemma_signature_names();
    assert(is_ds("Signature"@, "ds:Signature"@)) by {
        reveal_strlit("ds");
        reveal_strlit("Signature");
        reveal_strlit("ds:Signature");
        assert("ds"@ + seq![':'] + "Signature"@ =~= "ds:Signature"@);
    }
    assert(is_ds("SignedInfo"@, "ds:SignedInfo"@)) by {
        reveal_strlit("ds");
        reveal_strlit("SignedInfo");
        reveal_strlit("ds:SignedInfo");
        assert("ds"@ + seq![':'] + "SignedInfo"@ =~= "ds:SignedInfo"@);
    }
    assert(is_ds("CanonicalizationMethod"@, "ds:CanonicalizationMethod"@)) by {
        reveal_strlit("ds");
        reveal_strlit("CanonicalizationMethod");
        reveal_strlit("ds:CanonicalizationMethod");
        assert("ds"@ + seq![':'] + "CanonicalizationMethod"@ =~= "ds:CanonicalizationMethod"@);
    }
    assert(is_ds("SignatureMethod"@, "ds:SignatureMethod"@)) by {
        reveal_strlit("ds");
        reveal_strlit("SignatureMethod");
        reveal_strlit("ds:SignatureMethod");
        assert("ds"@ + seq![':'] + "SignatureMethod"@ =~= "ds:SignatureMethod"@);
    }
    assert(is_ds("Reference"@, "ds:Reference"@)) by {
        reveal_strlit("ds");
        reveal_strlit("Reference");
        reveal_strlit("ds:Reference");
        assert("ds"@ + seq![':'] + "Reference"@ =~= "ds:Reference"@);
    }
    assert(is_ds("DigestMethod"@, "ds:DigestMethod"@)) by {
        reveal_strlit("ds");
        reveal_strlit("DigestMethod");
        reveal_strlit("ds:DigestMethod");
        assert("ds"@ + seq![':'] + "DigestMethod"@ =~= "ds:DigestMethod"@);
    }
    assert(is_ds("DigestValue"@, "ds:DigestValue"@)) by {
        reveal_strlit("ds");
        reveal_strlit("DigestValue");
        reveal_strlit("ds:DigestValue");
        assert("ds"@ + seq![':'] + "DigestValue"@ =~= "ds:DigestValue"@);
    }
    assert(is_ds("SignatureValue"@, "ds:SignatureValue"@)) by {
        reveal_strlit("ds");
        reveal_strlit("SignatureValue");
        reveal_strlit("ds:SignatureValue");
        assert("ds"@ + seq![':'] + "SignatureValue"@ =~= "ds:SignatureValue"@);
    }
    assert(is_ds("KeyInfo"@, "ds:KeyInfo"@)) by {
        reveal_strlit("ds");
        reveal_strlit("KeyInfo");
        reveal_strlit("ds:KeyInfo");
        assert("ds"@ + seq![':'] + "KeyInfo"@ =~= "ds:KeyInfo"@);
    }
    assert(is_ds("X509Data"@, "ds:X509Data"@)) by {
        reveal_strlit("ds");
        reveal_strlit("X509Data");
        reveal_strlit("ds:X509Data");
        assert("ds"@ + seq![':'] + "X509Data"@ =~= "ds:X509Data"@);
    }
    assert(is_ds("X509Certificate"@, "ds:X509Certificate"@)) by {
        reveal_strlit("ds");
        reveal_strlit("X509Certificate");
        reveal_strlit("ds:X509Certificate");
        assert("ds"@ + seq![':'] + "X509Certificate"@ =~= "ds:X509Certificate"@);
    }
    assert(is_ds("Object"@, "ds:Object"@)) by {
        reveal_strlit("ds");
        reveal_strlit("Object");
        reveal_strlit("ds:Object");
        assert("ds"@ + seq![':'] + "Object"@ =~= "ds:Object"@);
    }
}

/// How the elements of the signed properties are written.
proof fn lemma_signed_names()
    ensures
        is_xa("QualifyingProperties"@, "xades:QualifyingProperties"@),
        is_xa("SignedProperties"@, "xades:SignedProperties"@),
        is_xa("SignedSignatureProperties"@, "xades:SignedSignatureProperties"@),
        is_xa("SigningTime"@, "xades:SigningTime"@),
        is_xa("SigningCertificateV2"@, "xades:SigningCertificateV2"@),
        is_xa("Cert"@, "xades:Cert"@),
        is_xa("CertDigest"@, "xades:CertDigest"@),
        is_xa("IssuerSerialV2"@, "xades:IssuerSerialV2"@),
        is_xa("SignedDataObjectProperties"@, "xades:SignedDataObjectProperties"@),
        is_xa("DataObjectFormat"@, "xades:DataObjectFormat"@),
        is_xa("MimeType"@, "xades:MimeType"@),
{
    template::lemma_signed_names();
    assert(is_xa("QualifyingProperties"@, "xades:QualifyingProperties"@)) by {
        reveal_strlit("xades");
        reveal_strlit("QualifyingProperties");
        reveal_strlit("xades:QualifyingProperties");
        assert("xades"@ + seq![':'] + "QualifyingProperties"@ =~= "xades:QualifyingProperties"@);
    }
    assert(is_xa("SignedProperties"@, "xades:SignedProperties"@)) by {
        reveal_strlit("xades");
        reveal_strlit("SignedProperties");
        reveal_strlit("xades:SignedProperties");
        assert("xades"@ + seq![':'] + "SignedProperties"@ =~= "xades:SignedProperties"@);
    }
    assert(is_xa("SignedSignatureProperties"@, "xades:SignedSignatureProperties"@)) by {
        reveal_strlit("xades");
        reveal_strlit("SignedSignatureProperties");
        reveal_strlit("xades:SignedSignatureProperties");
        assert("xades"@ + seq![':'] + "SignedSignatureProperties"@
            =~= "xades:SignedSignatureProperties"@);
    }
    assert(is_xa("SigningTime"@, "xades:SigningTime"@)) by {
        reveal_strlit("xades");
        reveal_strlit("SigningTime");
        reveal_strlit("xades:SigningTime");
        assert("xades"@ + seq![':'] + "SigningTime"@ =~= "xades:SigningTime"@);
    }
    assert(is_xa("SigningCertificateV2"@, "xades:SigningCertificateV2"@)) by {
        reveal_strlit("xades");
        reveal_strlit("SigningCertificateV2");
        reveal_strlit("xades:SigningCertificateV2");
        assert("xades"@ + seq![':'] + "SigningCertificateV2"@ =~= "xades:SigningCertificateV2"@);
    }
    assert(is_xa("Cert"@, "xades:Cert"@)) by {
        reveal_strlit("xades");
        reveal_strlit("Cert");
        reveal_strlit("xades:Cert");
        assert("xades"@ + seq![':'] + "Cert"@ =~= "xades:Cert"@);
    }
    assert(is_xa("CertDigest"@, "xades:CertDigest"@)) by {
        reveal_strlit("xades");
        reveal_strlit("CertDigest");
        reveal_strlit("xades:CertDigest");
        assert("xades"@ + seq![':'] + "CertDigest"@ =~= "xades:CertDigest"@);
    }
    assert(is_xa("IssuerSerialV2"@, "xades:IssuerSerialV2"@)) by {
        reveal_strlit("xades");
        reveal_strlit("IssuerSerialV2");
        reveal_strlit("xades:IssuerSerialV2");
        assert("xades"@ + seq![':'] + "IssuerSerialV2"@ =~= "xades:IssuerSerialV2"@);
    }
    assert(is_xa("SignedDataObjectProperties"@, "xades:SignedDataObjectProperties"@)) by {
        reveal_strlit("xades");
        reveal_strlit("SignedDataObjectProperties");
        reveal_strlit("xades:SignedDataObjectProperties");
        assert("xades"@ + seq![':'] + "SignedDataObjectProperties"@
            =~= "xades:SignedDataObjectProperties"@);
    }
    assert(is_xa("DataObjectFormat"@, "xades:DataObjectFormat"@)) by {
        reveal_strlit("xades");
        reveal_strlit("DataObjectFormat");
        reveal_strlit("xades:DataObjectFormat");
        assert("xades"@ + seq![':'] + "DataObjectFormat"@ =~= "xades:DataObjectFormat"@);
    }
    assert(is_xa("MimeType"@, "xades:MimeType"@)) by {
        reveal_strlit("xades");
        reveal_strlit("MimeType");
        reveal_strlit("xades:MimeType");
        assert("xades"@ + seq![':'] + "MimeType"@ =~= "xades:MimeType"@);
    }
}

/// How the elements of the unsigned properties are written.
proof fn lemma_unsigned_names()
    ensures
        is_xa("UnsignedProperties"@, "xades:UnsignedProperties"@),
        is_xa("UnsignedSignatureProperties"@, "xades:UnsignedSignatureProperties"@),
        is_xa("SignatureTimeStamp"@, "xades:SignatureTimeStamp"@),
        is_xa("EncapsulatedTimeStamp"@, "xades:EncapsulatedTimeStamp"@),
        is_xa("CertificateValues"@, "xades:CertificateValues"@),
        is_xa("EncapsulatedX509Certificate"@, "xades:EncapsulatedX509Certificate"@),
        is_xa("RevocationValues"@, "xades:RevocationValues"@),
        is_xa("OCSPValues"@, "xades:OCSPValues"@),
        is_xa("EncapsulatedOCSPValue"@, "xades:EncapsulatedOCSPValue"@),
{
    template::lemma_unsigned_names();
    assert(is_xa("UnsignedProperties"@, "xades:UnsignedProperties"@)) by {
        reveal_strlit("xades");
        reveal_strlit("UnsignedProperties");
        reveal_strlit("xades:UnsignedProperties");
        assert("xades"@ + seq![':'] + "UnsignedProperties"@ =~= "xades:UnsignedProperties"@);
    }
    assert(is_xa("UnsignedSignatureProperties"@, "xades:UnsignedSignatureProperties"@)) by {
        reveal_strlit("xades");
        reveal_strlit("UnsignedSignatureProperties");
        reveal_strlit("xades:UnsignedSignatureProperties");
        assert("xades"@ + seq![':'] + "UnsignedSignatureProperties"@
            =~= "xades:UnsignedSignatureProperties"@);
    }
    assert(is_xa("SignatureTimeStamp"@, "xades:SignatureTimeStamp"@)) by {
        reveal_strlit("xades");
        reveal_strlit("SignatureTimeStamp");
        reveal_strlit("xades:SignatureTimeStamp");
        assert("xades"@ + seq![':'] + "SignatureTimeStamp"@ =~= "xades:SignatureTimeStamp"@);
    }
    assert(is_xa("EncapsulatedTimeStamp"@, "xades:EncapsulatedTimeStamp"@)) by {
        reveal_strlit("xades");
        reveal_strlit("EncapsulatedTimeStamp");
        reveal_strlit("xades:EncapsulatedTimeStamp");
        assert("xades"@ + seq![':'] + "EncapsulatedTimeStamp"@ =~= "xades:EncapsulatedTimeStamp"@);
    }
    assert(is_xa("CertificateValues"@, "xades:CertificateValues"@)) by {
        reveal_strlit("xades");
        reveal_strlit("CertificateValues");
        reveal_strlit("xades:CertificateValues");
        assert("xades"@ + seq![':'] + "CertificateValues"@ =~= "xades:CertificateValues"@);
    }
    assert(is_xa("EncapsulatedX509Certificate"@, "xades:EncapsulatedX509Certificate"@)) by {
        reveal_strlit("xades");
        reveal_strlit("EncapsulatedX509Certificate");
        reveal_strlit("xades:EncapsulatedX509Certificate");
        assert("xades"@ + seq![':'] + "EncapsulatedX509Certificate"@
            =~= "xades:EncapsulatedX509Certificate"@);
    }
    assert(is_xa("RevocationValues"@, "xades:RevocationValues"@)) by {
        reveal_strlit("xades");
        reveal_strlit("RevocationValues");
        reveal_strlit("xades:RevocationValues");
        assert("xades"@ + seq![':'] + "RevocationValues"@ =~= "xades:RevocationValues"@);
    }
    assert(is_xa("OCSPValues"@, "xades:OCSPValues"@)) by {
        reveal_strlit("xades");
        reveal_strlit("OCSPValues");
        reveal_strlit("xades:OCSPValues");
        assert("xades"@ + seq![':'] + "OCSPValues"@ =~= "xades:OCSPValues"@);
    }
    assert(is_xa("EncapsulatedOCSPValue"@, "xades:EncapsulatedOCSPValue"@)) by {
        reveal_strlit("xades");
        reveal_strlit("EncapsulatedOCSPValue");
        reveal_strlit("xades:EncapsulatedOCSPValue");
        assert("xades"@ + seq![':'] + "EncapsulatedOCSPValue"@ =~= "xades:EncapsulatedOCSPValue"@);
    }
}

proof fn lemma_two(a: Markup, b: Markup)
    ensures
        markup::list_text(seq![a, b]) == markup::markup_text(a) + markup::markup_text(b),
{
    assert(seq![a, b] =~= seq![a] + seq![b]);
    markup::lemma_text_concat(seq![a], seq![b]);
    markup::lemma_text_one(a);
    markup::lemma_text_one(b);
}

proof fn lemma_four(a: Markup, b: Markup, c: Markup, d: Markup)
    ensures
        markup::list_text(seq![a, b, c, d]) == markup::markup_text(a) + markup::markup_text(b)
            + markup::markup_text(c) + markup::markup_text(d),
{
    assert(seq![a, b, c, d] =~= seq![a, b] + seq![c, d]);
    markup::lemma_text_concat(seq![a, b], seq![c, d]);
    lemma_two(a, b);
    lemma_two(c, d);
    assert(markup::list_text(seq![a, b, c, d]) =~= markup::markup_text(a) + markup::markup_text(b)
        + markup::markup_text(c) + markup::markup_text(d));
}

proof fn lemma_nothing_escaped()
    ensures
        output::escaped(Seq::empty(), false) == Seq::<char>::empty(),
{
}

proof fn lemma_file_reference_text(id: Seq<char>, digest_uri: Seq<char>, file: FileView)
    ensures
        markup::markup_text(file_reference(id, digest_uri, file)) == template::file_reference(
            id,
            digest_uri,
            file,
        ),
{
    lemma_ds_names();
    lemma_two(
        algorithm("DigestMethod"@, digest_uri),
        bytes(ds("DigestValue"@, bare()), file.digest),
    );
}

proof fn lemma_file_references_text(id: Seq<char>, digest_uri: Seq<char>, files: Seq<FileView>)
    ensures
        markup::list_text(file_references(id, digest_uri, files)) == template::file_references(
            id,
            digest_uri,
            files,
        ),
    decreases files.len(),
{
    let list = file_references(id, digest_uri, files);
    if files.len() > 0 {
        let front = files.drop_last();
        lemma_file_references_text(id, digest_uri, front);
        assert(list.drop_last() =~= file_references(id, digest_uri, front));
        lemma_file_reference_text(
            template::reference_id(id, (files.len() - 1) as nat),
            digest_uri,
            files.last(),
        );
    }
}

proof fn lemma_signed_info_text(draft: DraftView)
    ensures
        markup::markup_text(signed_info(draft)) == template::signed_info(draft),
{
    lemma_ds_names();
    lemma_nothing_escaped();
    lemma_file_references_text(draft.id, draft.digest_uri, draft.files);
    let first = seq![
        algorithm("CanonicalizationMethod"@, draft.c14n_uri),
        algorithm("SignatureMethod"@, draft.sig_method_uri),
    ];
    let files = file_references(draft.id, draft.digest_uri, draft.files);
    let last = properties_reference(draft);
    lemma_two(first[0], first[1]);
    lemma_two(
        algorithm("DigestMethod"@, draft.digest_uri),
        opt_bytes(ds("DigestValue"@, bare()), draft.signed_props_digest),
    );
    assert(markup::markup_text(last) == template::properties_reference(draft));
    markup::lemma_text_concat(first, files);
    markup::lemma_text_concat(first + files, seq![last]);
    markup::lemma_text_one(last);
}

proof fn lemma_value_and_key_text(draft: DraftView)
    ensures
        markup::markup_text(signature_value(draft)) == template::signature_value(draft),
        markup::markup_text(key_info(draft.cert_der)) == template::key_info(draft.cert_der),
{
    lemma_ds_names();
    lemma_nothing_escaped();
    let cert = bytes(ds("X509Certificate"@, bare()), draft.cert_der);
    markup::lemma_text_one(cert);
    markup::lemma_text_one(Markup::Parent(ds("X509Data"@, bare()), seq![cert]));
}

proof fn lemma_signing_certificate_text(
    digest_uri: Seq<char>,
    cert_digest: Seq<u8>,
    issuer_serial: Seq<u8>,
)
    ensures
        markup::markup_text(signing_certificate(digest_uri, cert_digest, issuer_serial))
            == template::signing_certificate(digest_uri, cert_digest, issuer_serial),
{
    lemma_ds_names();
    lemma_signed_names();
    let method = algorithm("DigestMethod"@, digest_uri);
    let value = bytes(ds("DigestValue"@, bare()), cert_digest);
    let digest = Markup::Parent(xa("CertDigest"@, bare()), seq![method, value]);
    let serial = bytes(xa("IssuerSerialV2"@, bare()), issuer_serial);
    lemma_two(method, value);
    lemma_two(digest, serial);
    markup::lemma_text_one(Markup::Parent(xa("Cert"@, bare()), seq![digest, serial]));
}

proof fn lemma_file_formats_text(id: Seq<char>, files: Seq<FileView>)
    ensures
        markup::list_text(file_formats(id, files)) == template::file_formats(id, files),
    decreases files.len(),
{
    let list = file_formats(id, files);
    if files.len() > 0 {
        lemma_signed_names();
        let front = files.drop_last();
        lemma_file_formats_text(id, front);
        assert(list.drop_last() =~= file_formats(id, front));
        let kind = Markup::Leaf(xa("MimeType"@, bare()), files.last().mime_type);
        markup::lemma_text_one(kind);
        assert(markup::markup_text(list.last()) == template::file_format(
            template::reference_id(id, (files.len() - 1) as nat),
            files.last(),
        ));
    }
}

proof fn lemma_signed_properties_text(
    draft: DraftView,
    cert_digest: Seq<u8>,
    issuer_serial: Seq<u8>,
)
    ensures
        markup::markup_text(signed_properties(draft, cert_digest, issuer_serial))
            == template::signed_properties(draft, cert_digest, issuer_serial),
{
    lemma_signed_names();
    lemma_signing_certificate_text(draft.digest_uri, cert_digest, issuer_serial);
    lemma_file_formats_text(draft.id, draft.files);
    lemma_two(
        Markup::Leaf(xa("SigningTime"@, bare()), draft.signing_time),
        signing_certificate(draft.digest_uri, cert_digest, issuer_serial),
    );
    lemma_two(signature_properties(draft, cert_digest, issuer_serial), object_properties(draft));
}

proof fn lemma_all_bytes_text(tag: Tag, values: Seq<Seq<u8>>)
    requires
        tag.attributes == bare(),
    ensures
        markup::list_text(all_bytes(tag, values)) == template::base64_elements(tag.name(), values),
    decreases values.len(),
{
    if values.len() > 0 {
        lemma_all_bytes_text(tag, values.drop_last());
        let list = all_bytes(tag, values);
        assert(list.drop_last() =~= all_bytes(tag, values.drop_last()));
        assert(markup::markup_text(list.last()) == template::base64_element(
            tag.name(),
            values.last(),
        ));
    }
}

proof fn lemma_unsigned_parts_text(id: Seq<char>, u: UnsignedView)
    ensures
        markup::list_text(unsigned_parts(id, u)) == template::signature_timestamp(id, u)
            + template::certificate_values(u.cert_values) + template::revocation_values(
            u.ocsp_values,
        ),
{
    lemma_ds_names();
    lemma_unsigned_names();
    let stamp = signature_timestamp(id, u);
    lemma_two(
        algorithm("CanonicalizationMethod"@, u.timestamp_c14n_uri),
        bytes(xa("EncapsulatedTimeStamp"@, bare()), u.timestamp_der),
    );
    assert(markup::markup_text(stamp) == template::signature_timestamp(id, u));
    let certs = certificate_values(u.cert_values);
    let cert_tag = xa("EncapsulatedX509Certificate"@, bare());
    lemma_all_bytes_text(cert_tag, u.cert_values);
    markup::lemma_text_one(
        Markup::Parent(xa("CertificateValues"@, bare()), all_bytes(cert_tag, u.cert_values)),
    );
    assert(markup::list_text(certs) == template::certificate_values(u.cert_values));
    let responses = revocation_values(u.ocsp_values);
    let response_tag = xa("EncapsulatedOCSPValue"@, bare());
    let held = Markup::Parent(
        xa("OCSPValues"@, bare()),
        all_bytes(response_tag, u.ocsp_values),
    );
    lemma_all_bytes_text(response_tag, u.ocsp_values);
    markup::lemma_text_one(held);
    markup::lemma_text_one(Markup::Parent(xa("RevocationValues"@, bare()), seq![held]));
    assert(markup::list_text(responses) == template::revocation_values(u.ocsp_values));
    markup::lemma_text_one(stamp);
    markup::lemma_text_concat(seq![stamp], certs);
    markup::lemma_text_concat(seq![stamp] + certs, responses);
}

proof fn lemma_unsigned_properties_text(id: Seq<char>, unsigned: Option<UnsignedView>)
    ensures
        markup::list_text(unsigned_properties(id, unsigned)) == template::unsigned_properties(
            id,
            unsigned,
        ),
{
    if let Some(u) = unsigned {
        lemma_unsigned_names();
        lemma_unsigned_parts_text(id, u);
        let inner = unsigned_signature_properties(id, u);
        markup::lemma_text_one(inner);
        markup::lemma_text_one(Markup::Parent(xa("UnsignedProperties"@, bare()), seq![inner]));
    }
}

/// A signature document is written from nested elements.
pub proof fn document_is_written_from_elements(
    draft: DraftView,
    cert_digest: Seq<u8>,
    issuer_serial: Seq<u8>,
)
    ensures
        markup::document_text(seq![signature(draft, cert_digest, issuer_serial)])
            == template::signature_document(draft, cert_digest, issuer_serial),
{
    lemma_ds_names();
    lemma_signed_names();
    lemma_signed_info_text(draft);
    lemma_value_and_key_text(draft);
    lemma_signed_properties_text(draft, cert_digest, issuer_serial);
    lemma_unsigned_properties_text(draft.id, draft.unsigned);
    let signed = signed_properties(draft, cert_digest, issuer_serial);
    markup::lemma_text_one(signed);
    markup::lemma_text_concat(seq![signed], unsigned_properties(draft.id, draft.unsigned));
    markup::lemma_text_one(qualifying_properties(draft, cert_digest, issuer_serial));
    assert(markup::markup_text(object(draft, cert_digest, issuer_serial))
        == template::qualifying_properties(draft, cert_digest, issuer_serial));
    lemma_four(
        signed_info(draft),
        signature_value(draft),
        key_info(draft.cert_der),
        object(draft, cert_digest, issuer_serial),
    );
    assert(markup::markup_text(signature(draft, cert_digest, issuer_serial))
        == template::signature(draft, cert_digest, issuer_serial));
    markup::lemma_text_one(signature(draft, cert_digest, issuer_serial));
}

/// Whether a name is one of the attributes in use.
pub open spec fn is_key(name: Seq<char>) -> bool {
    ||| name == "Id"@
    ||| name == "URI"@
    ||| name == "Type"@
    ||| name == "Target"@
    ||| name == "Algorithm"@
    ||| name == "ObjectReference"@
}

/// Whether attributes may stand together.
spec fn go_together(attributes: Seq<(Seq<char>, Seq<char>)>) -> bool {
    &&& attributes.len() <= 2
    &&& attributes.len() >= 1 ==> is_key(attributes[0].0)
    &&& attributes.len() >= 2 ==> is_key(attributes[1].0) && attributes[0].0 != attributes[1].0
}

/// The attributes in use are names without a prefix, which differ in length.
pub(crate) proof fn lemma_keys()
    ensures
        forall|name: Seq<char>| #[trigger]
            is_key(name) ==> markup::simple_name(name) && output::plain_name(name) && name
                != "xmlns"@,
        "Id"@.len() == 2,
        "URI"@.len() == 3,
        "Type"@.len() == 4,
        "Target"@.len() == 6,
        "Algorithm"@.len() == 9,
        "ObjectReference"@.len() == 15,
{
    template::lemma_attribute_names();
    reveal_strlit("xmlns");
    assert(markup::simple_name("Id"@) && "Id"@.len() == 2) by {
        reveal_strlit("Id");
        reveal_with_fuel(output::completes_name, 4);
    }
    assert(markup::simple_name("URI"@) && "URI"@.len() == 3) by {
        reveal_strlit("URI");
        reveal_with_fuel(output::completes_name, 5);
    }
    assert(markup::simple_name("Type"@) && "Type"@.len() == 4) by {
        reveal_strlit("Type");
        reveal_with_fuel(output::completes_name, 6);
    }
    assert(markup::simple_name("Target"@) && "Target"@.len() == 6) by {
        reveal_strlit("Target");
        reveal_with_fuel(output::completes_name, 8);
    }
    assert(markup::simple_name("Algorithm"@) && "Algorithm"@.len() == 9) by {
        reveal_strlit("Algorithm");
        reveal_with_fuel(output::completes_name, 11);
    }
    assert(markup::simple_name("ObjectReference"@) && "ObjectReference"@.len() == 15) by {
        reveal_strlit("ObjectReference");
        reveal_with_fuel(output::completes_name, 17);
    }
}

/// A tag of the XML signature is well-formed.
proof fn lemma_ds_tag(
    local: Seq<char>,
    name: Seq<char>,
    attributes: Seq<(Seq<char>, Seq<char>)>,
)
    requires
        is_ds(local, name),
        go_together(attributes),
    ensures
        markup::tag_is_sound(ds(local, attributes)),
{
    lemma_keys();
    lemma_prefixes();
}

/// A tag of the qualifying properties is well-formed.
proof fn lemma_xa_tag(
    local: Seq<char>,
    name: Seq<char>,
    attributes: Seq<(Seq<char>, Seq<char>)>,
)
    requires
        is_xa(local, name),
        go_together(attributes),
    ensures
        markup::tag_is_sound(xa(local, attributes)),
{
    lemma_keys();
    lemma_prefixes();
}

/// What the prefixes stand for.
pub(crate) proof fn lemma_prefixes()
    ensures
        markup::namespace_of("ds"@) == Some(ns::DSIG@),
        markup::namespace_of("xades"@) == Some(ns::XADES@),
        ns::DSIG@ != ns::XADES@,
        ns::ASIC@ != ns::DSIG@,
        ns::ASIC@ != ns::XADES@,
{
    reveal_strlit("asic");
    reveal_strlit("ds");
    reveal_strlit("xades");
    reveal_strlit("http://uri.etsi.org/02918/v1.2.1#");
    reveal_strlit("http://www.w3.org/2000/09/xmldsig#");
    reveal_strlit("http://uri.etsi.org/01903/v1.3.2#");
    assert("asic"@.len() == 4 && "ds"@.len() == 2 && "xades"@.len() == 5);
    assert(ns::DSIG@.len() == 34 && ns::XADES@.len() == 33 && ns::ASIC@.len() == 33);
    assert(ns::ASIC@[21] != ns::XADES@[21]);
}

/// Whether a name is none of those by which signatures and their properties are found.
pub open spec fn is_other(local: Seq<char>) -> bool {
    local != "Signature"@ && local != "SignedProperties"@ && local != "QualifyingProperties"@
}

/// The other names.
pub(crate) proof fn lemma_other_names()
    ensures
        is_other("SignedInfo"@),
        is_other("CanonicalizationMethod"@),
        is_other("SignatureMethod"@),
        is_other("Reference"@),
        is_other("DigestMethod"@),
        is_other("DigestValue"@),
        is_other("SignatureValue"@),
        is_other("KeyInfo"@),
        is_other("X509Data"@),
        is_other("X509Certificate"@),
        is_other("Object"@),
        is_other("SignedSignatureProperties"@),
        is_other("SigningTime"@),
        is_other("SigningCertificateV2"@),
        is_other("Cert"@),
        is_other("CertDigest"@),
        is_other("IssuerSerialV2"@),
        is_other("SignedDataObjectProperties"@),
        is_other("DataObjectFormat"@),
        is_other("MimeType"@),
        is_other("UnsignedProperties"@),
        is_other("UnsignedSignatureProperties"@),
        is_other("SignatureTimeStamp"@),
        is_other("EncapsulatedTimeStamp"@),
        is_other("CertificateValues"@),
        is_other("EncapsulatedX509Certificate"@),
        is_other("RevocationValues"@),
        is_other("OCSPValues"@),
        is_other("EncapsulatedOCSPValue"@),
{
    reveal_strlit("Signature");
    reveal_strlit("SignedProperties");
    reveal_strlit("QualifyingProperties");
    assert("Signature"@.len() == 9);
    assert("SignedProperties"@.len() == 16);
    assert("QualifyingProperties"@.len() == 20);
    assert(is_other("SignedInfo"@)) by {
        reveal_strlit("SignedInfo");
        assert("SignedInfo"@.len() == 10);
    }
    assert(is_other("CanonicalizationMethod"@)) by {
        reveal_strlit("CanonicalizationMethod");
        assert("CanonicalizationMethod"@.len() == 22);
    }
    assert(is_other("SignatureMethod"@)) by {
        reveal_strlit("SignatureMethod");
        assert("SignatureMethod"@.len() == 15);
    }
    assert(is_other("Reference"@)) by {
        reveal_strlit("Reference");
        assert("Reference"@.len() == 9);
        assert("Reference"@[0] != "Signature"@[0]);
    }
    assert(is_other("DigestMethod"@)) by {
        reveal_strlit("DigestMethod");
        assert("DigestMethod"@.len() == 12);
    }
    assert(is_other("DigestValue"@)) by {
        reveal_strlit("DigestValue");
        assert("DigestValue"@.len() == 11);
    }
    assert(is_other("SignatureValue"@)) by {
        reveal_strlit("SignatureValue");
        assert("SignatureValue"@.len() == 14);
    }
    assert(is_other("KeyInfo"@)) by {
        reveal_strlit("KeyInfo");
        assert("KeyInfo"@.len() == 7);
    }
    assert(is_other("X509Data"@)) by {
        reveal_strlit("X509Data");
        assert("X509Data"@.len() == 8);
    }
    assert(is_other("X509Certificate"@)) by {
        reveal_strlit("X509Certificate");
        assert("X509Certificate"@.len() == 15);
    }
    assert(is_other("Object"@)) by {
        reveal_strlit("Object");
        assert("Object"@.len() == 6);
    }
    assert(is_other("SignedSignatureProperties"@)) by {
        reveal_strlit("SignedSignatureProperties");
        assert("SignedSignatureProperties"@.len() == 25);
    }
    assert(is_other("SigningTime"@)) by {
        reveal_strlit("SigningTime");
        assert("SigningTime"@.len() == 11);
    }
    assert(is_other("SigningCertificateV2"@)) by {
        reveal_strlit("SigningCertificateV2");
        assert("SigningCertificateV2"@.len() == 20);
        assert("SigningCertificateV2"@[0] != "QualifyingProperties"@[0]);
    }
    assert(is_other("Cert"@)) by {
        reveal_strlit("Cert");
        assert("Cert"@.len() == 4);
    }
    assert(is_other("CertDigest"@)) by {
        reveal_strlit("CertDigest");
        assert("CertDigest"@.len() == 10);
    }
    assert(is_other("IssuerSerialV2"@)) by {
        reveal_strlit("IssuerSerialV2");
        assert("IssuerSerialV2"@.len() == 14);
    }
    assert(is_other("SignedDataObjectProperties"@)) by {
        reveal_strlit("SignedDataObjectProperties");
        assert("SignedDataObjectProperties"@.len() == 26);
    }
    assert(is_other("DataObjectFormat"@)) by {
        reveal_strlit("DataObjectFormat");
        assert("DataObjectFormat"@.len() == 16);
        assert("DataObjectFormat"@[0] != "SignedProperties"@[0]);
    }
    assert(is_other("MimeType"@)) by {
        reveal_strlit("MimeType");
        assert("MimeType"@.len() == 8);
    }
    assert(is_other("UnsignedProperties"@)) by {
        reveal_strlit("UnsignedProperties");
        assert("UnsignedProperties"@.len() == 18);
    }
    assert(is_other("UnsignedSignatureProperties"@)) by {
        reveal_strlit("UnsignedSignatureProperties");
        assert("UnsignedSignatureProperties"@.len() == 27);
    }
    assert(is_other("SignatureTimeStamp"@)) by {
        reveal_strlit("SignatureTimeStamp");
        assert("SignatureTimeStamp"@.len() == 18);
    }
    assert(is_other("EncapsulatedTimeStamp"@)) by {
        reveal_strlit("EncapsulatedTimeStamp");
        assert("EncapsulatedTimeStamp"@.len() == 21);
    }
    assert(is_other("CertificateValues"@)) by {
        reveal_strlit("CertificateValues");
        assert("CertificateValues"@.len() == 17);
    }
    assert(is_other("EncapsulatedX509Certificate"@)) by {
        reveal_strlit("EncapsulatedX509Certificate");
        assert("EncapsulatedX509Certificate"@.len() == 27);
    }
    assert(is_other("RevocationValues"@)) by {
        reveal_strlit("RevocationValues");
        assert("RevocationValues"@.len() == 16);
        assert("RevocationValues"@[0] != "SignedProperties"@[0]);
    }
    assert(is_other("OCSPValues"@)) by {
        reveal_strlit("OCSPValues");
        assert("OCSPValues"@.len() == 10);
    }
    assert(is_other("EncapsulatedOCSPValue"@)) by {
        reveal_strlit("EncapsulatedOCSPValue");
        assert("EncapsulatedOCSPValue"@.len() == 21);
    }
}

/// Whether an element has another name, and so has all that it holds.
pub open spec fn is_plain(m: Markup) -> bool
    decreases m,
{
    &&& is_other(m.tag().local)
    &&& match m {
        Markup::Parent(_, list) => list_is_plain(list),
        _ => true,
    }
}

/// Whether some elements have other names, and so has all that they hold.
pub open spec fn list_is_plain(list: Seq<Markup>) -> bool
    decreases list,
{
    list.len() == 0 || (list_is_plain(list.drop_last()) && is_plain(list.last()))
}

/// A list has other names exactly if its elements have.
pub(crate) proof fn lemma_plain_members(list: Seq<Markup>)
    ensures
        list_is_plain(list) <==> forall|i: int|
            0 <= i < list.len() ==> is_plain(#[trigger] list[i]),
    decreases list.len(),
{
    if list.len() > 0 {
        let front = list.drop_last();
        lemma_plain_members(front);
        assert(forall|i: int| 0 <= i < front.len() ==> front[i] == list[i]);
        assert(list.last() == list[list.len() - 1]);
    }
}

/// Well-formed, and of another name.
spec fn is_fine(m: Markup, room: nat) -> bool {
    markup::is_sound(m, room) && is_plain(m)
}

/// Whether some elements are well-formed and of other names.
spec fn all_fine(list: Seq<Markup>, room: nat) -> bool {
    forall|i: int| 0 <= i < list.len() ==> is_fine(#[trigger] list[i], room)
}

proof fn lemma_parent(tag: Tag, list: Seq<Markup>, room: nat)
    requires
        room > 0,
        markup::tag_is_sound(tag),
        all_fine(list, (room - 1) as nat),
    ensures
        markup::is_sound(Markup::Parent(tag, list), room),
        list_is_plain(list),
        is_other(tag.local) ==> is_fine(Markup::Parent(tag, list), room),
{
    assert(forall|i: int|
        0 <= i < list.len() ==> is_fine(#[trigger] list[i], (room - 1) as nat));
    markup::lemma_sound_members(list, (room - 1) as nat);
    lemma_plain_members(list);
}

/// The digest method and the digest value are well-formed.
proof fn lemma_digest_fine(uri: Seq<char>, text: Seq<char>, room: nat)
    requires
        room > 0,
    ensures
        is_fine(algorithm("DigestMethod"@, uri), room),
        is_fine(Markup::Leaf(ds("DigestValue"@, bare()), text), room),
        is_fine(algorithm("CanonicalizationMethod"@, uri), room),
        is_fine(algorithm("SignatureMethod"@, uri), room),
{
    lemma_ds_names();
    lemma_other_names();
    let named = seq![("Algorithm"@, uri)];
    lemma_ds_tag("DigestMethod"@, "ds:DigestMethod"@, named);
    lemma_ds_tag("DigestValue"@, "ds:DigestValue"@, bare());
    lemma_ds_tag("CanonicalizationMethod"@, "ds:CanonicalizationMethod"@, named);
    lemma_ds_tag("SignatureMethod"@, "ds:SignatureMethod"@, named);
}

proof fn lemma_reference_fine(
    attributes: Seq<(Seq<char>, Seq<char>)>,
    uri: Seq<char>,
    text: Seq<char>,
    room: nat,
)
    requires
        room > 1,
        go_together(attributes),
    ensures
        is_fine(
            Markup::Parent(
                ds("Reference"@, attributes),
                seq![
                    algorithm("DigestMethod"@, uri),
                    Markup::Leaf(ds("DigestValue"@, bare()), text),
                ],
            ),
            room,
        ),
{
    lemma_ds_names();
    lemma_other_names();
    lemma_digest_fine(uri, text, (room - 1) as nat);
    lemma_ds_tag("Reference"@, "ds:Reference"@, attributes);
    lemma_parent(
        ds("Reference"@, attributes),
        seq![algorithm("DigestMethod"@, uri), Markup::Leaf(ds("DigestValue"@, bare()), text)],
        room,
    );
}

proof fn lemma_signed_info_fine(draft: DraftView, room: nat)
    requires
        room > 2,
    ensures
        is_fine(signed_info(draft), room),
{
    lemma_ds_names();
    lemma_other_names();
    lemma_keys();
    let inner = (room - 1) as nat;
    let list = signed_info_parts(draft);
    let files = file_references(draft.id, draft.digest_uri, draft.files);
    assert forall|i: int| 0 <= i < list.len() implies is_fine(#[trigger] list[i], inner) by {
        if i == 0 {
            lemma_digest_fine(draft.c14n_uri, Seq::empty(), inner);
        } else if i == 1 {
            lemma_digest_fine(draft.sig_method_uri, Seq::empty(), inner);
        } else if i < 2 + files.len() {
            let file = draft.files[i - 2];
            lemma_reference_fine(
                seq![
                    ("Id"@, template::reference_id(draft.id, (i - 2) as nat)),
                    ("URI"@, file.uri),
                ],
                draft.digest_uri,
                codec::base64_encoded(file.digest),
                inner,
            );
            assert(list[i] == files[i - 2]);
        } else {
            lemma_reference_fine(
                properties_reference(draft).tag().attributes,
                draft.digest_uri,
                opt_bytes(ds("DigestValue"@, bare()), draft.signed_props_digest)->Leaf_1,
                inner,
            );
            assert(list[i] == properties_reference(draft));
        }
    }
    lemma_ds_tag("SignedInfo"@, "ds:SignedInfo"@, bare());
    lemma_parent(ds("SignedInfo"@, bare()), list, room);
}

proof fn lemma_value_and_key_fine(draft: DraftView, room: nat)
    requires
        room > 2,
    ensures
        is_fine(signature_value(draft), room),
        is_fine(key_info(draft.cert_der), room),
{
    lemma_ds_names();
    lemma_other_names();
    lemma_ds_tag("SignatureValue"@, "ds:SignatureValue"@, seq![("Id"@, draft.id + "-SIG"@)]);
    lemma_ds_tag("X509Certificate"@, "ds:X509Certificate"@, bare());
    lemma_ds_tag("X509Data"@, "ds:X509Data"@, bare());
    lemma_ds_tag("KeyInfo"@, "ds:KeyInfo"@, bare());
    let cert = bytes(ds("X509Certificate"@, bare()), draft.cert_der);
    lemma_parent(ds("X509Data"@, bare()), seq![cert], (room - 1) as nat);
    let data = Markup::Parent(ds("X509Data"@, bare()), seq![cert]);
    lemma_parent(ds("KeyInfo"@, bare()), seq![data], room);
}

proof fn lemma_signature_properties_fine(
    draft: DraftView,
    cert_digest: Seq<u8>,
    issuer_serial: Seq<u8>,
    room: nat,
)
    requires
        room > 4,
    ensures
        is_fine(signature_properties(draft, cert_digest, issuer_serial), room),
{
    lemma_signed_names();
    lemma_other_names();
    lemma_xa_tag("SignedSignatureProperties"@, "xades:SignedSignatureProperties"@, bare());
    lemma_xa_tag("SigningTime"@, "xades:SigningTime"@, bare());
    lemma_xa_tag("SigningCertificateV2"@, "xades:SigningCertificateV2"@, bare());
    lemma_xa_tag("Cert"@, "xades:Cert"@, bare());
    lemma_xa_tag("CertDigest"@, "xades:CertDigest"@, bare());
    lemma_xa_tag("IssuerSerialV2"@, "xades:IssuerSerialV2"@, bare());
    lemma_digest_fine(
        draft.digest_uri,
        codec::base64_encoded(cert_digest),
        (room - 4) as nat,
    );
    let parts = seq![
        algorithm("DigestMethod"@, draft.digest_uri),
        bytes(ds("DigestValue"@, bare()), cert_digest),
    ];
    lemma_parent(xa("CertDigest"@, bare()), parts, (room - 3) as nat);
    let digest = Markup::Parent(xa("CertDigest"@, bare()), parts);
    let serial = bytes(xa("IssuerSerialV2"@, bare()), issuer_serial);
    lemma_parent(xa("Cert"@, bare()), seq![digest, serial], (room - 2) as nat);
    let cert = Markup::Parent(xa("Cert"@, bare()), seq![digest, serial]);
    lemma_parent(xa("SigningCertificateV2"@, bare()), seq![cert], (room - 1) as nat);
    let time = Markup::Leaf(xa("SigningTime"@, bare()), draft.signing_time);
    let bound = signing_certificate(draft.digest_uri, cert_digest, issuer_serial);
    lemma_parent(xa("SignedSignatureProperties"@, bare()), seq![time, bound], room);
}

proof fn lemma_object_properties_fine(draft: DraftView, room: nat)
    requires
        room > 2,
    ensures
        is_fine(object_properties(draft), room),
{
    lemma_signed_names();
    lemma_other_names();
    lemma_xa_tag("SignedDataObjectProperties"@, "xades:SignedDataObjectProperties"@, bare());
    lemma_xa_tag("MimeType"@, "xades:MimeType"@, bare());
    let list = file_formats(draft.id, draft.files);
    let inner = (room - 1) as nat;
    assert forall|i: int| 0 <= i < list.len() implies is_fine(#[trigger] list[i], inner) by {
        let named = seq![
            ("ObjectReference"@, "#"@ + template::reference_id(draft.id, i as nat)),
        ];
        lemma_xa_tag("DataObjectFormat"@, "xades:DataObjectFormat"@, named);
        let kind = Markup::Leaf(xa("MimeType"@, bare()), draft.files[i].mime_type);
        lemma_parent(xa("DataObjectFormat"@, named), seq![kind], inner);
    }
    lemma_parent(xa("SignedDataObjectProperties"@, bare()), list, room);
}

proof fn lemma_all_bytes_fine(tag: Tag, values: Seq<Seq<u8>>, room: nat)
    requires
        room > 0,
        markup::tag_is_sound(tag),
        is_other(tag.local),
    ensures
        all_fine(all_bytes(tag, values), room),
{
}

proof fn lemma_unsigned_fine(id: Seq<char>, u: UnsignedView, room: nat)
    requires
        room > 3,
    ensures
        is_fine(unsigned_signature_properties(id, u), room),
{
    lemma_ds_names();
    lemma_unsigned_names();
    lemma_other_names();
    let inner = (room - 1) as nat;
    let deep = (room - 2) as nat;
    let stamped = seq![("Id"@, id + "-TS"@)];
    lemma_xa_tag("SignatureTimeStamp"@, "xades:SignatureTimeStamp"@, stamped);
    lemma_xa_tag("EncapsulatedTimeStamp"@, "xades:EncapsulatedTimeStamp"@, bare());
    lemma_digest_fine(u.timestamp_c14n_uri, Seq::empty(), deep);
    lemma_parent(
        xa("SignatureTimeStamp"@, stamped),
        seq![
            algorithm("CanonicalizationMethod"@, u.timestamp_c14n_uri),
            bytes(xa("EncapsulatedTimeStamp"@, bare()), u.timestamp_der),
        ],
        inner,
    );
    let cert_tag = xa("EncapsulatedX509Certificate"@, bare());
    lemma_xa_tag(cert_tag.local, "xades:EncapsulatedX509Certificate"@, bare());
    lemma_all_bytes_fine(cert_tag, u.cert_values, deep);
    lemma_xa_tag("CertificateValues"@, "xades:CertificateValues"@, bare());
    lemma_parent(xa("CertificateValues"@, bare()), all_bytes(cert_tag, u.cert_values), inner);
    let response_tag = xa("EncapsulatedOCSPValue"@, bare());
    lemma_xa_tag(response_tag.local, "xades:EncapsulatedOCSPValue"@, bare());
    lemma_all_bytes_fine(response_tag, u.ocsp_values, (deep - 1) as nat);
    lemma_xa_tag("OCSPValues"@, "xades:OCSPValues"@, bare());
    lemma_parent(xa("OCSPValues"@, bare()), all_bytes(response_tag, u.ocsp_values), deep);
    let held = Markup::Parent(xa("OCSPValues"@, bare()), all_bytes(response_tag, u.ocsp_values));
    lemma_xa_tag("RevocationValues"@, "xades:RevocationValues"@, bare());
    lemma_parent(xa("RevocationValues"@, bare()), seq![held], inner);
    lemma_xa_tag("UnsignedSignatureProperties"@, "xades:UnsignedSignatureProperties"@, bare());
    assert(all_fine(unsigned_parts(id, u), inner));
    lemma_parent(xa("UnsignedSignatureProperties"@, bare()), unsigned_parts(id, u), room);
}

proof fn lemma_unsigned_properties_fine(
    id: Seq<char>,
    unsigned: Option<UnsignedView>,
    room: nat,
)
    requires
        room > 4,
    ensures
        all_fine(unsigned_properties(id, unsigned), room),
{
    if let Some(u) = unsigned {
        lemma_unsigned_names();
        lemma_other_names();
        lemma_unsigned_fine(id, u, (room - 1) as nat);
        lemma_xa_tag("UnsignedProperties"@, "xades:UnsignedProperties"@, bare());
        lemma_parent(
            xa("UnsignedProperties"@, bare()),
            seq![unsigned_signature_properties(id, u)],
            room,
        );
    }
}

/// A signature is well-formed, and the names by which it and its properties are found are there
/// but once.
pub(crate) proof fn lemma_signature_sound(
    draft: DraftView,
    cert_digest: Seq<u8>,
    issuer_serial: Seq<u8>,
    room: nat,
)
    requires
        room > 8,
    ensures
        markup::is_sound(signature(draft, cert_digest, issuer_serial), room),
        is_plain(signed_info(draft)),
        is_plain(signature_value(draft)),
        is_plain(key_info(draft.cert_der)),
        list_is_plain(signed_parts(draft, cert_digest, issuer_serial)),
        list_is_plain(unsigned_properties(draft.id, draft.unsigned)),
{
    lemma_ds_names();
    lemma_signed_names();
    let parts = signed_parts(draft, cert_digest, issuer_serial);
    let in_signature = (room - 1) as nat;
    let in_object = (room - 2) as nat;
    let in_qualifying = (room - 3) as nat;
    let in_signed = (room - 4) as nat;
    lemma_signed_info_fine(draft, in_signature);
    lemma_value_and_key_fine(draft, in_signature);
    lemma_signature_properties_fine(draft, cert_digest, issuer_serial, in_signed);
    lemma_object_properties_fine(draft, in_signed);
    let signed_tag = signed_properties(draft, cert_digest, issuer_serial).tag();
    lemma_xa_tag("SignedProperties"@, "xades:SignedProperties"@, signed_tag.attributes);
    lemma_parent(signed_tag, parts, in_qualifying);
    let later = unsigned_properties(draft.id, draft.unsigned);
    lemma_unsigned_properties_fine(draft.id, draft.unsigned, in_qualifying);
    lemma_plain_members(later);
    assert(forall|i: int| 0 <= i < later.len() ==> is_fine(#[trigger] later[i], in_qualifying));
    let held = qualifying_parts(draft, cert_digest, issuer_serial);
    assert forall|i: int| 0 <= i < held.len() implies markup::is_sound(
        #[trigger] held[i],
        in_qualifying,
    ) by {
        if i > 0 {
            assert(held[i] == later[i - 1]);
        }
    }
    markup::lemma_sound_members(held, in_qualifying);
    let qualifying = qualifying_properties(draft, cert_digest, issuer_serial);
    lemma_xa_tag(
        "QualifyingProperties"@,
        "xades:QualifyingProperties"@,
        qualifying.tag().attributes,
    );
    markup::lemma_sound_members(seq![qualifying], in_object);
    lemma_ds_tag("Object"@, "ds:Object"@, bare());
    let all = signature_parts(draft, cert_digest, issuer_serial);
    markup::lemma_sound_members(all, in_signature);
    lemma_ds_tag("Signature"@, "ds:Signature"@, seq![("Id"@, draft.id)]);
}

} // verus!
