//! The signature document.
use bergshamra_xml::writer::XmlWriter;
use vstd::prelude::*;
use vstd::string::*;

use crate::codec;
use crate::crypto::digest;
use crate::error::{ErrorView, LibError};
use crate::ns;
use crate::text;
use crate::x509;
use crate::xml::output;

verus! {

/// Data needed to build a signature document.
pub struct Draft {
    /// `Id` of the signature.
    pub id: String,
    /// Canonicalization method of SignedInfo.
    pub c14n_uri: String,
    /// Signature method.
    pub sig_method_uri: String,
    /// Digest method for references and the certificate digest.
    pub digest_uri: String,
    /// The signed data files.
    pub files: Vec<FileRef>,
    /// The signing certificate.
    pub cert_der: Vec<u8>,
    /// `YYYY-MM-DDThh:mm:ssZ`.
    pub signing_time: String,
    /// Digest over the canonicalized SignedProperties.
    pub signed_props_digest: Option<Vec<u8>>,
    /// Raw signature bytes.
    pub signature_value: Option<Vec<u8>>,
    /// T/LT-level unsigned properties.
    pub unsigned: Option<UnsignedData>,
}

/// Values embedded as `xades:UnsignedSignatureProperties`.
pub struct UnsignedData {
    /// The time-stamp token.
    pub timestamp_der: Vec<u8>,
    /// Canonicalization method of what the time-stamp covers.
    pub timestamp_c14n_uri: String,
    /// Certificates for validation.
    pub cert_values: Vec<Vec<u8>>,
    /// OCSP responses.
    pub ocsp_values: Vec<Vec<u8>>,
}

/// A signed data file.
pub struct FileRef {
    /// Reference URI of the file.
    pub uri: String,
    /// Media type of the file.
    pub mime_type: String,
    /// Digest over the content of the file.
    pub digest: Vec<u8>,
}

/// The mathematical counterpart of [`Draft`].
pub struct DraftView {
    pub id: Seq<char>,
    pub c14n_uri: Seq<char>,
    pub sig_method_uri: Seq<char>,
    pub digest_uri: Seq<char>,
    pub files: Seq<FileView>,
    pub cert_der: Seq<u8>,
    pub signing_time: Seq<char>,
    pub signed_props_digest: Option<Seq<u8>>,
    pub signature_value: Option<Seq<u8>>,
    pub unsigned: Option<UnsignedView>,
}

/// The mathematical counterpart of [`UnsignedData`].
pub struct UnsignedView {
    pub timestamp_der: Seq<u8>,
    pub timestamp_c14n_uri: Seq<char>,
    pub cert_values: Seq<Seq<u8>>,
    pub ocsp_values: Seq<Seq<u8>>,
}

/// The mathematical counterpart of [`FileRef`].
pub struct FileView {
    pub uri: Seq<char>,
    pub mime_type: Seq<char>,
    pub digest: Seq<u8>,
}

impl View for FileRef {
    type V = FileView;

    open spec fn view(&self) -> FileView {
        FileView { uri: self.uri@, mime_type: self.mime_type@, digest: self.digest@ }
    }
}

impl View for UnsignedData {
    type V = UnsignedView;

    open spec fn view(&self) -> UnsignedView {
        UnsignedView {
            timestamp_der: self.timestamp_der@,
            timestamp_c14n_uri: self.timestamp_c14n_uri@,
            cert_values: text::byte_strings(self.cert_values@),
            ocsp_values: text::byte_strings(self.ocsp_values@),
        }
    }
}

/// The contents of a list of files.
pub open spec fn file_views(files: Seq<FileRef>) -> Seq<FileView> {
    files.map_values(|f: FileRef| f@)
}

impl View for Draft {
    type V = DraftView;

    open spec fn view(&self) -> DraftView {
        DraftView {
            id: self.id@,
            c14n_uri: self.c14n_uri@,
            sig_method_uri: self.sig_method_uri@,
            digest_uri: self.digest_uri@,
            files: file_views(self.files@),
            cert_der: self.cert_der@,
            signing_time: self.signing_time@,
            signed_props_digest: text::opt_bytes(self.signed_props_digest),
            signature_value: text::opt_bytes(self.signature_value),
            unsigned: match self.unsigned {
                Some(u) => Some(u@),
                None => None,
            },
        }
    }
}

/// `Id` of the reference to the file at `index` in the signature `id`.
pub open spec fn reference_id(id: Seq<char>, index: nat) -> Seq<char> {
    id + "-RefId"@ + text::decimal(index)
}

impl DraftView {
    /// `Id` of the signed properties.
    pub open spec fn signed_properties_id(self) -> Seq<char> {
        self.id + "-SignedProperties"@
    }

    /// `Id` of the reference to the file at `index`.
    pub open spec fn reference_id(self, index: nat) -> Seq<char> {
        reference_id(self.id, index)
    }
}

impl Draft {
    /// `Id` of the signed properties.
    pub fn signed_properties_id(&self) -> (r: String)
        ensures
            r@ == self@.signed_properties_id(),
    {
        text::joined(self.id.as_str(), "-SignedProperties")
    }

    /// `Id` of the reference to the file at `index`.
    pub fn reference_id(&self, index: usize) -> (r: String)
        ensures
            r@ == self@.reference_id(index as nat),
    {
        text::joined3(self.id.as_str(), "-RefId", text::decimal_text(index).as_str())
    }
}

/// The references of one signature have different `Id`s.
pub proof fn reference_ids_differ(draft: DraftView, i: nat, j: nat)
    requires
        i != j,
    ensures
        draft.reference_id(i) != draft.reference_id(j),
{
    if draft.reference_id(i) == draft.reference_id(j) {
        let prefix = draft.id + "-RefId"@;
        assert(text::decimal(i) =~= draft.reference_id(i).skip(prefix.len() as int));
        assert(text::decimal(j) =~= draft.reference_id(j).skip(prefix.len() as int));
        text::decimal_injective(i, j);
    }
}

/// A self-closing element that names an algorithm.
pub open spec fn algorithm(name: Seq<char>, uri: Seq<char>) -> Seq<char> {
    output::empty_tag(name, seq![("Algorithm"@, uri)])
}

/// An element that holds bytes as base64 text.
pub open spec fn base64_element(name: Seq<char>, data: Seq<u8>) -> Seq<char> {
    output::text_element(name, codec::base64_encoded(data))
}

/// Bytes as base64 text, or nothing.
pub open spec fn opt_base64(data: Option<Seq<u8>>) -> Seq<char> {
    match data {
        Some(d) => output::escaped(codec::base64_encoded(d), false),
        None => Seq::empty(),
    }
}

/// No attributes.
pub open spec fn no_attributes() -> Seq<(Seq<char>, Seq<char>)> {
    Seq::empty()
}

/// The reference to one file.
pub open spec fn file_reference(id: Seq<char>, digest_uri: Seq<char>, file: FileView) -> Seq<
    char,
> {
    output::element(
        "ds:Reference"@,
        seq![("Id"@, id), ("URI"@, file.uri)],
        algorithm("ds:DigestMethod"@, digest_uri) + base64_element("ds:DigestValue"@, file.digest),
    )
}

/// The references to the files, in order.
pub open spec fn file_references(
    id: Seq<char>,
    digest_uri: Seq<char>,
    files: Seq<FileView>,
) -> Seq<char>
    decreases files.len(),
{
    if files.len() == 0 {
        Seq::empty()
    } else {
        file_references(id, digest_uri, files.drop_last()) + file_reference(
            reference_id(id, (files.len() - 1) as nat),
            digest_uri,
            files.last(),
        )
    }
}

/// The reference to the signed properties.
pub open spec fn properties_reference(draft: DraftView) -> Seq<char> {
    output::element(
        "ds:Reference"@,
        seq![
            ("Type"@, ns::TYPE_SIGNED_PROPERTIES@),
            ("URI"@, "#"@ + draft.signed_properties_id()),
        ],
        algorithm("ds:DigestMethod"@, draft.digest_uri) + output::element(
            "ds:DigestValue"@,
            no_attributes(),
            opt_base64(draft.signed_props_digest),
        ),
    )
}

/// `ds:SignedInfo`, which the signature covers.
pub open spec fn signed_info(draft: DraftView) -> Seq<char> {
    output::element(
        "ds:SignedInfo"@,
        no_attributes(),
        algorithm("ds:CanonicalizationMethod"@, draft.c14n_uri) + algorithm(
            "ds:SignatureMethod"@,
            draft.sig_method_uri,
        ) + file_references(draft.id, draft.digest_uri, draft.files) + properties_reference(draft),
    )
}

/// `ds:SignatureValue`.
pub open spec fn signature_value(draft: DraftView) -> Seq<char> {
    output::element(
        "ds:SignatureValue"@,
        seq![("Id"@, draft.id + "-SIG"@)],
        opt_base64(draft.signature_value),
    )
}

/// `ds:KeyInfo` with the signing certificate.
pub open spec fn key_info(cert_der: Seq<u8>) -> Seq<char> {
    output::element(
        "ds:KeyInfo"@,
        no_attributes(),
        output::element(
            "ds:X509Data"@,
            no_attributes(),
            base64_element("ds:X509Certificate"@, cert_der),
        ),
    )
}

/// The property that binds the signing certificate.
pub open spec fn signing_certificate(
    digest_uri: Seq<char>,
    cert_digest: Seq<u8>,
    issuer_serial: Seq<u8>,
) -> Seq<char> {
    output::element(
        "xades:SigningCertificateV2"@,
        no_attributes(),
        output::element(
            "xades:Cert"@,
            no_attributes(),
            output::element(
                "xades:CertDigest"@,
                no_attributes(),
                algorithm("ds:DigestMethod"@, digest_uri) + base64_element(
                    "ds:DigestValue"@,
                    cert_digest,
                ),
            ) + base64_element("xades:IssuerSerialV2"@, issuer_serial),
        ),
    )
}

/// The format of one file.
pub open spec fn file_format(id: Seq<char>, file: FileView) -> Seq<char> {
    output::element(
        "xades:DataObjectFormat"@,
        seq![("ObjectReference"@, "#"@ + id)],
        output::text_element("xades:MimeType"@, file.mime_type),
    )
}

/// The formats of the files, in order.
pub open spec fn file_formats(id: Seq<char>, files: Seq<FileView>) -> Seq<char>
    decreases files.len(),
{
    if files.len() == 0 {
        Seq::empty()
    } else {
        file_formats(id, files.drop_last()) + file_format(
            reference_id(id, (files.len() - 1) as nat),
            files.last(),
        )
    }
}

/// `xades:SignedProperties`, which the signature covers through its digest.
pub open spec fn signed_properties(
    draft: DraftView,
    cert_digest: Seq<u8>,
    issuer_serial: Seq<u8>,
) -> Seq<char> {
    output::element(
        "xades:SignedProperties"@,
        seq![("Id"@, draft.signed_properties_id())],
        output::element(
            "xades:SignedSignatureProperties"@,
            no_attributes(),
            output::text_element("xades:SigningTime"@, draft.signing_time) + signing_certificate(
                draft.digest_uri,
                cert_digest,
                issuer_serial,
            ),
        ) + output::element(
            "xades:SignedDataObjectProperties"@,
            no_attributes(),
            file_formats(draft.id, draft.files),
        ),
    )
}

/// Byte strings as base64 elements of one name, in order.
pub open spec fn base64_elements(name: Seq<char>, values: Seq<Seq<u8>>) -> Seq<char>
    decreases values.len(),
{
    if values.len() == 0 {
        Seq::empty()
    } else {
        base64_elements(name, values.drop_last()) + base64_element(name, values.last())
    }
}

/// The signature time-stamp.
pub open spec fn signature_timestamp(id: Seq<char>, unsigned: UnsignedView) -> Seq<char> {
    output::element(
        "xades:SignatureTimeStamp"@,
        seq![("Id"@, id + "-TS"@)],
        algorithm("ds:CanonicalizationMethod"@, unsigned.timestamp_c14n_uri) + base64_element(
            "xades:EncapsulatedTimeStamp"@,
            unsigned.timestamp_der,
        ),
    )
}

/// The certificates for validation, if there are any.
pub open spec fn certificate_values(certs: Seq<Seq<u8>>) -> Seq<char> {
    if certs.len() == 0 {
        Seq::empty()
    } else {
        output::element(
            "xades:CertificateValues"@,
            no_attributes(),
            base64_elements("xades:EncapsulatedX509Certificate"@, certs),
        )
    }
}

/// The OCSP responses, if there are any.
pub open spec fn revocation_values(responses: Seq<Seq<u8>>) -> Seq<char> {
    if responses.len() == 0 {
        Seq::empty()
    } else {
        output::element(
            "xades:RevocationValues"@,
            no_attributes(),
            output::element(
                "xades:OCSPValues"@,
                no_attributes(),
                base64_elements("xades:EncapsulatedOCSPValue"@, responses),
            ),
        )
    }
}

/// `xades:UnsignedProperties`, if there are any.
pub open spec fn unsigned_properties(id: Seq<char>, unsigned: Option<UnsignedView>) -> Seq<char> {
    match unsigned {
        None => Seq::empty(),
        Some(u) => output::element(
            "xades:UnsignedProperties"@,
            no_attributes(),
            output::element(
                "xades:UnsignedSignatureProperties"@,
                no_attributes(),
                signature_timestamp(id, u) + certificate_values(u.cert_values) + revocation_values(
                    u.ocsp_values,
                ),
            ),
        ),
    }
}

/// `ds:Object` with the qualifying properties.
pub open spec fn qualifying_properties(
    draft: DraftView,
    cert_digest: Seq<u8>,
    issuer_serial: Seq<u8>,
) -> Seq<char> {
    output::element(
        "ds:Object"@,
        no_attributes(),
        output::element(
            "xades:QualifyingProperties"@,
            seq![("Target"@, "#"@ + draft.id)],
            signed_properties(draft, cert_digest, issuer_serial) + unsigned_properties(
                draft.id,
                draft.unsigned,
            ),
        ),
    )
}

/// The namespaces that the document element declares.
pub open spec fn namespaces() -> Seq<(Seq<char>, Seq<char>)> {
    seq![("xmlns:asic"@, ns::ASIC@), ("xmlns:ds"@, ns::DSIG@), ("xmlns:xades"@, ns::XADES@)]
}

/// `ds:Signature`.
pub open spec fn signature(
    draft: DraftView,
    cert_digest: Seq<u8>,
    issuer_serial: Seq<u8>,
) -> Seq<char> {
    output::element(
        "ds:Signature"@,
        seq![("Id"@, draft.id)],
        signed_info(draft) + signature_value(draft) + key_info(draft.cert_der)
            + qualifying_properties(draft, cert_digest, issuer_serial),
    )
}

/// The whole document.
pub open spec fn signature_document(
    draft: DraftView,
    cert_digest: Seq<u8>,
    issuer_serial: Seq<u8>,
) -> Seq<char> {
    "<?xml version=\"1.0\" encoding=\"UTF-8\"?>"@ + output::element(
        "asic:XAdESSignatures"@,
        namespaces(),
        signature(draft, cert_digest, issuer_serial),
    )
}

/// What building the document gives: its text, or why there is none.
pub open spec fn document_outcome(draft: DraftView) -> Result<Seq<char>, ErrorView> {
    match digest::digest_outcome(draft.digest_uri, draft.cert_der) {
        Err(e) => Err(ErrorView::Crypto(e)),
        Ok(cert_digest) => match x509::issuer_serial_outcome(draft.cert_der) {
            Err(e) => Err(e),
            Ok(issuer_serial) => Ok(signature_document(draft, cert_digest, issuer_serial)),
        },
    }
}

/// The digest of the signing certificate that a document holds.
pub open spec fn certificate_digest(draft: DraftView) -> Seq<u8> {
    digest::digest_outcome(draft.digest_uri, draft.cert_der)->Ok_0
}

/// A text or an error of the library, by content.
pub open spec fn text_result(r: Result<String, LibError>) -> Result<Seq<char>, ErrorView> {
    match r {
        Ok(t) => Ok(t@),
        Err(e) => Err(e@),
    }
}

/// What the signature covers does not depend on the signature itself, nor on what is added to it
/// later.
pub proof fn signed_parts_ignore_later_data(
    draft: DraftView,
    value: Option<Seq<u8>>,
    unsigned: Option<UnsignedView>,
    cert_digest: Seq<u8>,
    issuer_serial: Seq<u8>,
)
    ensures
        ({
            let later = (DraftView { signature_value: value, unsigned, ..draft });
            &&& signed_info(later) == signed_info(draft)
            &&& signed_properties(later, cert_digest, issuer_serial) == signed_properties(
                draft,
                cert_digest,
                issuer_serial,
            )
            &&& key_info(later.cert_der) == key_info(draft.cert_der)
        }),
{
}

/// The signed properties do not depend on their own digest.
pub proof fn signed_properties_ignore_their_digest(
    draft: DraftView,
    digest: Option<Seq<u8>>,
    cert_digest: Seq<u8>,
    issuer_serial: Seq<u8>,
)
    ensures
        signed_properties(
            (DraftView { signed_props_digest: digest, ..draft }),
            cert_digest,
            issuer_serial,
        ) == signed_properties(draft, cert_digest, issuer_serial),
{
}

/// The document up to where the unsigned properties stand.
pub open spec fn document_head(
    draft: DraftView,
    cert_digest: Seq<u8>,
    issuer_serial: Seq<u8>,
) -> Seq<char> {
    "<?xml version=\"1.0\" encoding=\"UTF-8\"?>"@ + output::start_tag(
        "asic:XAdESSignatures"@,
        namespaces(),
    ) + output::start_tag("ds:Signature"@, seq![("Id"@, draft.id)]) + (signed_info(draft)
        + signature_value(draft) + key_info(draft.cert_der)) + output::start_tag(
        "ds:Object"@,
        no_attributes(),
    ) + output::start_tag("xades:QualifyingProperties"@, seq![("Target"@, "#"@ + draft.id)])
        + signed_properties(draft, cert_digest, issuer_serial)
}

/// The document after the unsigned properties.
pub open spec fn document_tail() -> Seq<char> {
    output::end_tag("xades:QualifyingProperties"@) + output::end_tag("ds:Object"@)
        + output::end_tag("ds:Signature"@) + output::end_tag("asic:XAdESSignatures"@)
}

/// Unsigned properties are inserted at one place, and everything around them stays as it is.
pub proof fn extension_only_inserts(
    draft: DraftView,
    unsigned: UnsignedView,
    cert_digest: Seq<u8>,
    issuer_serial: Seq<u8>,
)
    ensures
        ({
            let extended = (DraftView { unsigned: Some(unsigned), ..draft });
            let plain = (DraftView { unsigned: None, ..draft });
            let head = document_head(draft, cert_digest, issuer_serial);
            &&& signature_document(extended, cert_digest, issuer_serial) == head
                + unsigned_properties(draft.id, Some(unsigned)) + document_tail()
            &&& signature_document(plain, cert_digest, issuer_serial) == head + document_tail()
        }),
{
    let extended = (DraftView { unsigned: Some(unsigned), ..draft });
    let plain = (DraftView { unsigned: None, ..draft });
    lemma_document_parts(extended, cert_digest, issuer_serial);
    lemma_document_parts(plain, cert_digest, issuer_serial);
    let head = document_head(draft, cert_digest, issuer_serial);
    assert(document_head(extended, cert_digest, issuer_serial) == head);
    assert(document_head(plain, cert_digest, issuer_serial) == head);
    assert(head + unsigned_properties(draft.id, None) =~= head);
}

proof fn lemma_document_parts(draft: DraftView, cert_digest: Seq<u8>, issuer_serial: Seq<u8>)
    ensures
        signature_document(draft, cert_digest, issuer_serial) == document_head(
            draft,
            cert_digest,
            issuer_serial,
        ) + unsigned_properties(draft.id, draft.unsigned) + document_tail(),
{
    lemma_nested(
        "<?xml version=\"1.0\" encoding=\"UTF-8\"?>"@,
        (
            output::start_tag("asic:XAdESSignatures"@, namespaces()),
            output::end_tag("asic:XAdESSignatures"@),
        ),
        (
            output::start_tag("ds:Signature"@, seq![("Id"@, draft.id)]),
            output::end_tag("ds:Signature"@),
        ),
        signed_info(draft) + signature_value(draft) + key_info(draft.cert_der),
        (output::start_tag("ds:Object"@, no_attributes()), output::end_tag("ds:Object"@)),
        (
            output::start_tag(
                "xades:QualifyingProperties"@,
                seq![("Target"@, "#"@ + draft.id)],
            ),
            output::end_tag("xades:QualifyingProperties"@),
        ),
        signed_properties(draft, cert_digest, issuer_serial),
        unsigned_properties(draft.id, draft.unsigned),
    );
}

proof fn lemma_nested(
    declaration: Seq<char>,
    document: (Seq<char>, Seq<char>),
    signature: (Seq<char>, Seq<char>),
    covered: Seq<char>,
    object: (Seq<char>, Seq<char>),
    properties: (Seq<char>, Seq<char>),
    signed: Seq<char>,
    unsigned: Seq<char>,
)
    ensures
        declaration + (document.0 + (signature.0 + (covered + (object.0 + (properties.0 + (signed
            + unsigned) + properties.1) + object.1)) + signature.1) + document.1) == (declaration
            + document.0 + signature.0 + covered + object.0 + properties.0 + signed) + unsigned + (
        properties.1 + object.1 + signature.1 + document.1),
{
    assert(declaration + (document.0 + (signature.0 + (covered + (object.0 + (properties.0 + (signed
        + unsigned) + properties.1) + object.1)) + signature.1) + document.1) =~= (declaration
        + document.0 + signature.0 + covered + object.0 + properties.0 + signed) + unsigned + (
    properties.1 + object.1 + signature.1 + document.1));
}

/// Opens an element with two attributes.
fn open_with_two(
    w: &mut XmlWriter,
    name: &str,
    first: (&str, &str),
    second: (&str, &str),
) -> (r: Result<(), LibError>)
    requires
        output::plain_name(name@),
        output::plain_name(first.0@),
        output::plain_name(second.0@),
        first.0@ != second.0@,
    ensures
        r is Ok,
        output::written(*final(w)) == output::written(*old(w)) + output::start_tag(
            name@,
            seq![(first.0@, first.1@), (second.0@, second.1@)],
        ),
{
    let two: [(&str, &str); 2] = [first, second];
    assert(output::attribute_views(two@) =~= seq![
        (first.0@, first.1@),
        (second.0@, second.1@),
    ]);
    output::writing(output::start_element(w, name, &two))
}

/// Writes an element that holds bytes as base64 text.
fn write_b64_element(w: &mut XmlWriter, tag: &str, data: &[u8]) -> (r: Result<(), LibError>)
    requires
        output::plain_name(tag@),
    ensures
        r is Ok,
        output::written(*final(w)) == output::written(*old(w)) + base64_element(tag@, data@),
        codec::reads_back(data@),
{
    let encoded = codec::encode_b64(data);
    output::write_text_element(w, tag, encoded.as_str())
}

/// Writes bytes as base64 text, if there are any.
fn write_opt_b64(w: &mut XmlWriter, value: &Option<Vec<u8>>) -> (r: Result<(), LibError>)
    ensures
        r is Ok,
        output::written(*final(w)) == output::written(*old(w)) + opt_base64(
            text::opt_bytes(*value),
        ),
        opt_reads_back(text::opt_bytes(*value)),
{
    if let Some(v) = value {
        let encoded = codec::encode_b64(v.as_slice());
        output::writing(output::write_text(w, encoded.as_str()))?;
    }
    assert(output::written(*w) =~= output::written(*old(w)) + opt_base64(text::opt_bytes(*value)));
    Ok(())
}

/// Writes an element that holds bytes as base64 text, or is empty.
fn write_opt_b64_element(w: &mut XmlWriter, tag: &str, value: &Option<Vec<u8>>) -> (r: Result<
    (),
    LibError,
>)
    requires
        output::plain_name(tag@),
    ensures
        r is Ok,
        output::written(*final(w)) == output::written(*old(w)) + output::element(
            tag@,
            no_attributes(),
            opt_base64(text::opt_bytes(*value)),
        ),
        opt_reads_back(text::opt_bytes(*value)),
{
    output::open(w, tag)?;
    write_opt_b64(w, value)?;
    output::close(w, tag)?;
    proof {
        output::element_of_one(
            output::written(*old(w)),
            tag@,
            no_attributes(),
            opt_base64(text::opt_bytes(*value)),
        );
    }
    Ok(())
}

/// Writes the reference to the file at `index`.
fn write_file_reference(w: &mut XmlWriter, draft: &Draft, index: usize) -> (r: Result<
    (),
    LibError,
>)
    requires
        index < draft.files@.len(),
    ensures
        r is Ok,
        output::written(*final(w)) == output::written(*old(w)) + file_reference(
            reference_id(draft@.id, index as nat),
            draft@.digest_uri,
            draft@.files[index as int],
        ),
        codec::reads_back(draft@.files[index as int].digest),
{
    proof {
        lemma_signature_names();
        lemma_attribute_names();
        reveal_strlit("Id");
        reveal_strlit("URI");
    }
    let file = &draft.files[index];
    let id = draft.reference_id(index);
    open_with_two(w, "ds:Reference", ("Id", id.as_str()), ("URI", file.uri.as_str()))?;
    output::empty_with(w, "ds:DigestMethod", "Algorithm", draft.digest_uri.as_str())?;
    write_b64_element(w, "ds:DigestValue", file.digest.as_slice())?;
    output::close(w, "ds:Reference")?;
    proof {
        output::element_of_two(
            output::written(*old(w)),
            "ds:Reference"@,
            seq![("Id"@, id@), ("URI"@, file.uri@)],
            algorithm("ds:DigestMethod"@, draft@.digest_uri),
            base64_element("ds:DigestValue"@, file.digest@),
        );
    }
    Ok(())
}

/// Writes the references to the files.
fn write_file_references(w: &mut XmlWriter, draft: &Draft) -> (r: Result<(), LibError>)
    ensures
        r is Ok,
        output::written(*final(w)) == output::written(*old(w)) + file_references(
            draft@.id,
            draft@.digest_uri,
            draft@.files,
        ),
        digests_read_back(draft@.files),
{
    let mut i: usize = 0;
    let ghost before = output::written(*w);
    assert(draft@.files.take(0) =~= Seq::<FileView>::empty());
    assert(before =~= before + file_references(
        draft@.id,
        draft@.digest_uri,
        draft@.files.take(0),
    ));
    while i < draft.files.len()
        invariant
            i <= draft.files@.len(),
            output::written(*w) == before + file_references(
                draft@.id,
                draft@.digest_uri,
                draft@.files.take(i as int),
            ),
            forall|k: int|
                0 <= k < i ==> codec::reads_back((#[trigger] draft@.files[k]).digest),
        decreases draft.files@.len() - i,
    {
        write_file_reference(w, draft, i)?;
        proof {
            let next = draft@.files.take(i + 1);
            assert(next.drop_last() =~= draft@.files.take(i as int));
            assert(next.last() == draft@.files[i as int]);
            assert(output::written(*w) =~= before + file_references(
                draft@.id,
                draft@.digest_uri,
                next,
            ));
        }
        i += 1;
    }
    assert(draft@.files.take(i as int) =~= draft@.files);
    Ok(())
}

/// Writes the reference to the signed properties.
fn write_properties_reference(w: &mut XmlWriter, draft: &Draft) -> (r: Result<(), LibError>)
    ensures
        r is Ok,
        output::written(*final(w)) == output::written(*old(w)) + properties_reference(draft@),
        opt_reads_back(draft@.signed_props_digest),
{
    proof {
        lemma_signature_names();
        lemma_attribute_names();
        reveal_strlit("Type");
        reveal_strlit("URI");
    }
    let id = draft.signed_properties_id();
    let target = text::joined("#", id.as_str());
    open_with_two(
        w,
        "ds:Reference",
        ("Type", ns::TYPE_SIGNED_PROPERTIES),
        ("URI", target.as_str()),
    )?;
    output::empty_with(w, "ds:DigestMethod", "Algorithm", draft.digest_uri.as_str())?;
    write_opt_b64_element(w, "ds:DigestValue", &draft.signed_props_digest)?;
    output::close(w, "ds:Reference")?;
    proof {
        output::element_of_two(
            output::written(*old(w)),
            "ds:Reference"@,
            seq![("Type"@, ns::TYPE_SIGNED_PROPERTIES@), ("URI"@, target@)],
            algorithm("ds:DigestMethod"@, draft@.digest_uri),
            output::element(
                "ds:DigestValue"@,
                no_attributes(),
                opt_base64(draft@.signed_props_digest),
            ),
        );
    }
    Ok(())
}

/// Writes `ds:SignedInfo`.
fn write_signed_info(w: &mut XmlWriter, draft: &Draft) -> (r: Result<(), LibError>)
    ensures
        r is Ok,
        output::written(*final(w)) == output::written(*old(w)) + signed_info(draft@),
        digests_read_back(draft@.files),
        opt_reads_back(draft@.signed_props_digest),
{
    proof {
        lemma_signature_names();
        lemma_attribute_names();
    }
    output::open(w, "ds:SignedInfo")?;
    output::empty_with(w, "ds:CanonicalizationMethod", "Algorithm", draft.c14n_uri.as_str())?;
    output::empty_with(w, "ds:SignatureMethod", "Algorithm", draft.sig_method_uri.as_str())?;
    write_file_references(w, draft)?;
    write_properties_reference(w, draft)?;
    output::close(w, "ds:SignedInfo")?;
    proof {
        output::element_of_four(
            output::written(*old(w)),
            "ds:SignedInfo"@,
            no_attributes(),
            algorithm("ds:CanonicalizationMethod"@, draft@.c14n_uri),
            algorithm("ds:SignatureMethod"@, draft@.sig_method_uri),
            file_references(draft@.id, draft@.digest_uri, draft@.files),
            properties_reference(draft@),
        );
    }
    Ok(())
}

/// Writes `ds:SignatureValue`.
fn write_signature_value(w: &mut XmlWriter, draft: &Draft) -> (r: Result<(), LibError>)
    ensures
        r is Ok,
        output::written(*final(w)) == output::written(*old(w)) + signature_value(draft@),
        opt_reads_back(draft@.signature_value),
{
    proof {
        lemma_signature_names();
        lemma_attribute_names();
    }
    let id = text::joined(draft.id.as_str(), "-SIG");
    output::open_with(w, "ds:SignatureValue", "Id", id.as_str())?;
    write_opt_b64(w, &draft.signature_value)?;
    output::close(w, "ds:SignatureValue")?;
    proof {
        output::element_of_one(
            output::written(*old(w)),
            "ds:SignatureValue"@,
            seq![("Id"@, id@)],
            opt_base64(draft@.signature_value),
        );
    }
    Ok(())
}

/// Writes `ds:KeyInfo`.
fn write_key_info(w: &mut XmlWriter, cert_der: &[u8]) -> (r: Result<(), LibError>)
    ensures
        r is Ok,
        output::written(*final(w)) == output::written(*old(w)) + key_info(cert_der@),
        codec::reads_back(cert_der@),
{
    proof {
        lemma_signature_names();
    }
    output::open(w, "ds:KeyInfo")?;
    output::open(w, "ds:X509Data")?;
    write_b64_element(w, "ds:X509Certificate", cert_der)?;
    output::close(w, "ds:X509Data")?;
    output::close(w, "ds:KeyInfo")?;
    proof {
        let certificate = base64_element("ds:X509Certificate"@, cert_der@);
        output::element_of_one(
            output::written(*old(w)) + output::start_tag("ds:KeyInfo"@, no_attributes()),
            "ds:X509Data"@,
            no_attributes(),
            certificate,
        );
        output::element_of_one(
            output::written(*old(w)),
            "ds:KeyInfo"@,
            no_attributes(),
            output::element("ds:X509Data"@, no_attributes(), certificate),
        );
    }
    Ok(())
}

/// Writes the property that binds the signing certificate.
fn write_signing_certificate(
    w: &mut XmlWriter,
    digest_uri: &str,
    cert_digest: &[u8],
    issuer_serial: &[u8],
) -> (r: Result<(), LibError>)
    ensures
        r is Ok,
        output::written(*final(w)) == output::written(*old(w)) + signing_certificate(
            digest_uri@,
            cert_digest@,
            issuer_serial@,
        ),
        codec::reads_back(cert_digest@),
        codec::reads_back(issuer_serial@),
{
    proof {
        lemma_signature_names();
        lemma_signed_names();
        lemma_attribute_names();
    }
    output::open(w, "xades:SigningCertificateV2")?;
    output::open(w, "xades:Cert")?;
    output::open(w, "xades:CertDigest")?;
    output::empty_with(w, "ds:DigestMethod", "Algorithm", digest_uri)?;
    write_b64_element(w, "ds:DigestValue", cert_digest)?;
    output::close(w, "xades:CertDigest")?;
    write_b64_element(w, "xades:IssuerSerialV2", issuer_serial)?;
    output::close(w, "xades:Cert")?;
    output::close(w, "xades:SigningCertificateV2")?;
    proof {
        let before = output::written(*old(w));
        let in_property = before + output::start_tag(
            "xades:SigningCertificateV2"@,
            no_attributes(),
        );
        let in_cert = in_property + output::start_tag("xades:Cert"@, no_attributes());
        let method = algorithm("ds:DigestMethod"@, digest_uri@);
        let value = base64_element("ds:DigestValue"@, cert_digest@);
        let issuer = base64_element("xades:IssuerSerialV2"@, issuer_serial@);
        output::element_of_two(in_cert, "xades:CertDigest"@, no_attributes(), method, value);
        let digest = output::element("xades:CertDigest"@, no_attributes(), method + value);
        output::element_of_two(in_property, "xades:Cert"@, no_attributes(), digest, issuer);
        let cert = output::element("xades:Cert"@, no_attributes(), digest + issuer);
        output::element_of_one(before, "xades:SigningCertificateV2"@, no_attributes(), cert);
    }
    Ok(())
}

/// Writes the format of the file at `index`.
fn write_file_format(w: &mut XmlWriter, draft: &Draft, index: usize) -> (r: Result<(), LibError>)
    requires
        index < draft.files@.len(),
    ensures
        r is Ok,
        output::written(*final(w)) == output::written(*old(w)) + file_format(
            reference_id(draft@.id, index as nat),
            draft@.files[index as int],
        ),
{
    proof {
        lemma_signed_names();
        lemma_attribute_names();
    }
    let id = draft.reference_id(index);
    let target = text::joined("#", id.as_str());
    output::open_with(w, "xades:DataObjectFormat", "ObjectReference", target.as_str())?;
    output::write_text_element(w, "xades:MimeType", draft.files[index].mime_type.as_str())?;
    output::close(w, "xades:DataObjectFormat")?;
    proof {
        output::element_of_one(
            output::written(*old(w)),
            "xades:DataObjectFormat"@,
            seq![("ObjectReference"@, target@)],
            output::text_element("xades:MimeType"@, draft@.files[index as int].mime_type),
        );
    }
    Ok(())
}

/// Writes the formats of the files.
fn write_file_formats(w: &mut XmlWriter, draft: &Draft) -> (r: Result<(), LibError>)
    ensures
        r is Ok,
        output::written(*final(w)) == output::written(*old(w)) + file_formats(
            draft@.id,
            draft@.files,
        ),
{
    let mut i: usize = 0;
    let ghost before = output::written(*w);
    assert(draft@.files.take(0) =~= Seq::<FileView>::empty());
    assert(before =~= before + file_formats(draft@.id, draft@.files.take(0)));
    while i < draft.files.len()
        invariant
            i <= draft.files@.len(),
            output::written(*w) == before + file_formats(draft@.id, draft@.files.take(i as int)),
        decreases draft.files@.len() - i,
    {
        write_file_format(w, draft, i)?;
        proof {
            let next = draft@.files.take(i + 1);
            assert(next.drop_last() =~= draft@.files.take(i as int));
            assert(next.last() == draft@.files[i as int]);
            assert(output::written(*w) =~= before + file_formats(draft@.id, next));
        }
        i += 1;
    }
    assert(draft@.files.take(i as int) =~= draft@.files);
    Ok(())
}

/// Writes `xades:SignedProperties`.
fn write_signed_properties(
    w: &mut XmlWriter,
    draft: &Draft,
    cert_digest: &[u8],
    issuer_serial: &[u8],
) -> (r: Result<(), LibError>)
    ensures
        r is Ok,
        output::written(*final(w)) == output::written(*old(w)) + signed_properties(
            draft@,
            cert_digest@,
            issuer_serial@,
        ),
        codec::reads_back(cert_digest@),
        codec::reads_back(issuer_serial@),
{
    proof {
        lemma_signed_names();
        lemma_attribute_names();
    }
    let id = draft.signed_properties_id();
    output::open_with(w, "xades:SignedProperties", "Id", id.as_str())?;
    output::open(w, "xades:SignedSignatureProperties")?;
    output::write_text_element(w, "xades:SigningTime", draft.signing_time.as_str())?;
    write_signing_certificate(w, draft.digest_uri.as_str(), cert_digest, issuer_serial)?;
    output::close(w, "xades:SignedSignatureProperties")?;
    output::open(w, "xades:SignedDataObjectProperties")?;
    write_file_formats(w, draft)?;
    output::close(w, "xades:SignedDataObjectProperties")?;
    output::close(w, "xades:SignedProperties")?;
    proof {
        let before = output::written(*old(w));
        let inside = before + output::start_tag("xades:SignedProperties"@, seq![("Id"@, id@)]);
        let time = output::text_element("xades:SigningTime"@, draft@.signing_time);
        let cert = signing_certificate(draft@.digest_uri, cert_digest@, issuer_serial@);
        let formats = file_formats(draft@.id, draft@.files);
        output::element_of_two(
            inside,
            "xades:SignedSignatureProperties"@,
            no_attributes(),
            time,
            cert,
        );
        let of_signature = output::element(
            "xades:SignedSignatureProperties"@,
            no_attributes(),
            time + cert,
        );
        output::element_of_one(
            inside + of_signature,
            "xades:SignedDataObjectProperties"@,
            no_attributes(),
            formats,
        );
        let of_files = output::element(
            "xades:SignedDataObjectProperties"@,
            no_attributes(),
            formats,
        );
        output::element_of_two(
            before,
            "xades:SignedProperties"@,
            seq![("Id"@, id@)],
            of_signature,
            of_files,
        );
    }
    Ok(())
}

/// Writes byte strings as base64 elements of one name.
fn write_b64_elements(w: &mut XmlWriter, tag: &str, values: &Vec<Vec<u8>>) -> (r: Result<
    (),
    LibError,
>)
    requires
        output::plain_name(tag@),
    ensures
        r is Ok,
        output::written(*final(w)) == output::written(*old(w)) + base64_elements(
            tag@,
            text::byte_strings(values@),
        ),
        all_read_back(text::byte_strings(values@)),
{
    let mut i: usize = 0;
    let ghost before = output::written(*w);
    let ghost all = text::byte_strings(values@);
    assert(all.take(0) =~= Seq::<Seq<u8>>::empty());
    assert(before =~= before + base64_elements(tag@, all.take(0)));
    while i < values.len()
        invariant
            i <= values@.len(),
            all == text::byte_strings(values@),
            output::plain_name(tag@),
            output::written(*w) == before + base64_elements(tag@, all.take(i as int)),
            forall|k: int| 0 <= k < i ==> codec::reads_back(#[trigger] all[k]),
        decreases values@.len() - i,
    {
        write_b64_element(w, tag, values[i].as_slice())?;
        proof {
            let next = all.take(i + 1);
            assert(next.drop_last() =~= all.take(i as int));
            assert(next.last() == values@[i as int]@);
            assert(output::written(*w) =~= before + base64_elements(tag@, next));
        }
        i += 1;
    }
    assert(all.take(i as int) =~= all);
    Ok(())
}

/// Whether bytes read back from a document, where there are any.
pub open spec fn opt_reads_back(data: Option<Seq<u8>>) -> bool {
    data matches Some(d) ==> codec::reads_back(d)
}

/// Whether byte strings read back from a document.
pub open spec fn all_read_back(values: Seq<Seq<u8>>) -> bool {
    forall|i: int| 0 <= i < values.len() ==> codec::reads_back(#[trigger] values[i])
}

/// Whether the digests of files read back from a document.
pub open spec fn digests_read_back(files: Seq<FileView>) -> bool {
    forall|i: int| 0 <= i < files.len() ==> codec::reads_back((#[trigger] files[i]).digest)
}

/// Whether the time-stamp token, the certificates and the OCSP responses of a draft, where it has
/// some, read back from a document.
pub open spec fn unsigned_reads_back(draft: DraftView) -> bool {
    draft.unsigned matches Some(u) ==> codec::reads_back(u.timestamp_der) && all_read_back(
        u.cert_values,
    ) && all_read_back(u.ocsp_values)
}

/// Whether all bytes of a draft read back from a document.
pub open spec fn data_reads_back(draft: DraftView) -> bool {
    &&& codec::reads_back(draft.cert_der)
    &&& digests_read_back(draft.files)
    &&& opt_reads_back(draft.signed_props_digest)
    &&& opt_reads_back(draft.signature_value)
    &&& unsigned_reads_back(draft)
}

/// Whether the time-stamp token of a draft, where it has one, reads back from a document.
pub open spec fn token_reads_back(draft: DraftView) -> bool {
    draft.unsigned matches Some(u) ==> codec::reads_back(u.timestamp_der)
}

/// Writes the signature time-stamp.
fn write_signature_timestamp(w: &mut XmlWriter, id: &str, unsigned: &UnsignedData) -> (r: Result<
    (),
    LibError,
>)
    ensures
        r is Ok,
        output::written(*final(w)) == output::written(*old(w)) + signature_timestamp(
            id@,
            unsigned@,
        ),
        codec::reads_back(unsigned@.timestamp_der),
{
    proof {
        lemma_signature_names();
        lemma_unsigned_names();
        lemma_attribute_names();
    }
    let timestamp_id = text::joined(id, "-TS");
    output::open_with(w, "xades:SignatureTimeStamp", "Id", timestamp_id.as_str())?;
    output::empty_with(
        w,
        "ds:CanonicalizationMethod",
        "Algorithm",
        unsigned.timestamp_c14n_uri.as_str(),
    )?;
    write_b64_element(w, "xades:EncapsulatedTimeStamp", unsigned.timestamp_der.as_slice())?;
    output::close(w, "xades:SignatureTimeStamp")?;
    proof {
        output::element_of_two(
            output::written(*old(w)),
            "xades:SignatureTimeStamp"@,
            seq![("Id"@, timestamp_id@)],
            algorithm("ds:CanonicalizationMethod"@, unsigned@.timestamp_c14n_uri),
            base64_element("xades:EncapsulatedTimeStamp"@, unsigned@.timestamp_der),
        );
    }
    Ok(())
}

/// Writes the certificates for validation.
fn write_certificate_values(w: &mut XmlWriter, certs: &Vec<Vec<u8>>) -> (r: Result<(), LibError>)
    ensures
        r is Ok,
        output::written(*final(w)) == output::written(*old(w)) + certificate_values(
            text::byte_strings(certs@),
        ),
        all_read_back(text::byte_strings(certs@)),
{
    proof {
        lemma_unsigned_names();
    }
    if certs.len() > 0 {
        output::open(w, "xades:CertificateValues")?;
        write_b64_elements(w, "xades:EncapsulatedX509Certificate", certs)?;
        output::close(w, "xades:CertificateValues")?;
    }
    proof {
        let before = output::written(*old(w));
        if certs@.len() > 0 {
            output::element_of_one(
                before,
                "xades:CertificateValues"@,
                no_attributes(),
                base64_elements(
                    "xades:EncapsulatedX509Certificate"@,
                    text::byte_strings(certs@),
                ),
            );
        } else {
            assert(before =~= before + Seq::<char>::empty());
        }
    }
    Ok(())
}

/// Writes the OCSP responses.
fn write_revocation_values(w: &mut XmlWriter, responses: &Vec<Vec<u8>>) -> (r: Result<
    (),
    LibError,
>)
    ensures
        r is Ok,
        output::written(*final(w)) == output::written(*old(w)) + revocation_values(
            text::byte_strings(responses@),
        ),
        all_read_back(text::byte_strings(responses@)),
{
    proof {
        lemma_unsigned_names();
    }
    if responses.len() > 0 {
        output::open(w, "xades:RevocationValues")?;
        output::open(w, "xades:OCSPValues")?;
        write_b64_elements(w, "xades:EncapsulatedOCSPValue", responses)?;
        output::close(w, "xades:OCSPValues")?;
        output::close(w, "xades:RevocationValues")?;
    }
    proof {
        let before = output::written(*old(w));
        if responses@.len() > 0 {
            let values = base64_elements(
                "xades:EncapsulatedOCSPValue"@,
                text::byte_strings(responses@),
            );
            output::element_of_one(
                before + output::start_tag("xades:RevocationValues"@, no_attributes()),
                "xades:OCSPValues"@,
                no_attributes(),
                values,
            );
            output::element_of_one(
                before,
                "xades:RevocationValues"@,
                no_attributes(),
                output::element("xades:OCSPValues"@, no_attributes(), values),
            );
        } else {
            assert(before =~= before + Seq::<char>::empty());
        }
    }
    Ok(())
}

/// Writes `xades:UnsignedProperties`.
fn write_unsigned_properties(w: &mut XmlWriter, draft: &Draft) -> (r: Result<(), LibError>)
    ensures
        r is Ok,
        output::written(*final(w)) == output::written(*old(w)) + unsigned_properties(
            draft@.id,
            draft@.unsigned,
        ),
        token_reads_back(draft@),
        unsigned_reads_back(draft@),
{
    proof {
        lemma_unsigned_names();
    }
    if let Some(unsigned) = &draft.unsigned {
        output::open(w, "xades:UnsignedProperties")?;
        output::open(w, "xades:UnsignedSignatureProperties")?;
        write_signature_timestamp(w, draft.id.as_str(), unsigned)?;
        write_certificate_values(w, &unsigned.cert_values)?;
        write_revocation_values(w, &unsigned.ocsp_values)?;
        output::close(w, "xades:UnsignedSignatureProperties")?;
        output::close(w, "xades:UnsignedProperties")?;
    }
    proof {
        let before = output::written(*old(w));
        if let Some(u) = draft@.unsigned {
            let stamp = signature_timestamp(draft@.id, u);
            let certs = certificate_values(u.cert_values);
            let responses = revocation_values(u.ocsp_values);
            output::element_of_three(
                before + output::start_tag("xades:UnsignedProperties"@, no_attributes()),
                "xades:UnsignedSignatureProperties"@,
                no_attributes(),
                stamp,
                certs,
                responses,
            );
            output::element_of_one(
                before,
                "xades:UnsignedProperties"@,
                no_attributes(),
                output::element(
                    "xades:UnsignedSignatureProperties"@,
                    no_attributes(),
                    stamp + certs + responses,
                ),
            );
        } else {
            assert(before =~= before + Seq::<char>::empty());
        }
    }
    Ok(())
}

/// Writes `ds:Object` with the qualifying properties.
fn write_qualifying_properties(
    w: &mut XmlWriter,
    draft: &Draft,
    cert_digest: &[u8],
    issuer_serial: &[u8],
) -> (r: Result<(), LibError>)
    ensures
        r is Ok,
        output::written(*final(w)) == output::written(*old(w)) + qualifying_properties(
            draft@,
            cert_digest@,
            issuer_serial@,
        ),
        codec::reads_back(cert_digest@),
        codec::reads_back(issuer_serial@),
        token_reads_back(draft@),
        unsigned_reads_back(draft@),
{
    proof {
        lemma_signature_names();
        lemma_signed_names();
        lemma_attribute_names();
    }
    let target = text::joined("#", draft.id.as_str());
    output::open(w, "ds:Object")?;
    output::open_with(w, "xades:QualifyingProperties", "Target", target.as_str())?;
    write_signed_properties(w, draft, cert_digest, issuer_serial)?;
    write_unsigned_properties(w, draft)?;
    output::close(w, "xades:QualifyingProperties")?;
    output::close(w, "ds:Object")?;
    proof {
        let before = output::written(*old(w));
        let signed = signed_properties(draft@, cert_digest@, issuer_serial@);
        let unsigned = unsigned_properties(draft@.id, draft@.unsigned);
        output::element_of_two(
            before + output::start_tag("ds:Object"@, no_attributes()),
            "xades:QualifyingProperties"@,
            seq![("Target"@, target@)],
            signed,
            unsigned,
        );
        output::element_of_one(
            before,
            "ds:Object"@,
            no_attributes(),
            output::element(
                "xades:QualifyingProperties"@,
                seq![("Target"@, target@)],
                signed + unsigned,
            ),
        );
    }
    Ok(())
}

/// Opens the document element with its namespaces.
fn open_document(w: &mut XmlWriter) -> (r: Result<(), LibError>)
    ensures
        r is Ok,
        output::written(*final(w)) == output::written(*old(w)) + output::start_tag(
            "asic:XAdESSignatures"@,
            namespaces(),
        ),
{
    proof {
        lemma_attribute_names();
        reveal_strlit("xmlns:asic");
        reveal_strlit("xmlns:ds");
        reveal_strlit("xmlns:xades");
    }
    let declared: [(&str, &str); 3] = [
        ("xmlns:asic", ns::ASIC),
        ("xmlns:ds", ns::DSIG),
        ("xmlns:xades", ns::XADES),
    ];
    assert(output::attribute_views(declared@) =~= namespaces());
    output::writing(output::start_element(w, "asic:XAdESSignatures", &declared))
}

/// Writes `ds:Signature`.
fn write_signature(
    w: &mut XmlWriter,
    draft: &Draft,
    cert_digest: &[u8],
    issuer_serial: &[u8],
) -> (r: Result<(), LibError>)
    ensures
        r is Ok,
        output::written(*final(w)) == output::written(*old(w)) + signature(
            draft@,
            cert_digest@,
            issuer_serial@,
        ),
        codec::reads_back(cert_digest@),
        codec::reads_back(issuer_serial@),
        token_reads_back(draft@),
        data_reads_back(draft@),
{
    proof {
        lemma_signature_names();
        lemma_attribute_names();
    }
    output::open_with(w, "ds:Signature", "Id", draft.id.as_str())?;
    write_signed_info(w, draft)?;
    write_signature_value(w, draft)?;
    write_key_info(w, draft.cert_der.as_slice())?;
    write_qualifying_properties(w, draft, cert_digest, issuer_serial)?;
    output::close(w, "ds:Signature")?;
    proof {
        output::element_of_four(
            output::written(*old(w)),
            "ds:Signature"@,
            seq![("Id"@, draft@.id)],
            signed_info(draft@),
            signature_value(draft@),
            key_info(draft@.cert_der),
            qualifying_properties(draft@, cert_digest@, issuer_serial@),
        );
    }
    Ok(())
}

/// Writes the signature document described by `draft`, with the digest and the issuer and serial
/// number of its certificate.
pub fn write_document(draft: &Draft, cert_digest: &[u8], issuer_serial: &[u8]) -> (r: Result<
    String,
    LibError,
>)
    ensures
        r is Ok,
        r->Ok_0@ == signature_document(draft@, cert_digest@, issuer_serial@),
        codec::reads_back(cert_digest@),
        codec::reads_back(issuer_serial@),
        token_reads_back(draft@),
        data_reads_back(draft@),
{
    proof {
        lemma_attribute_names();
    }
    let mut w = output::new_writer();
    output::writing(output::write_declaration(&mut w))?;
    open_document(&mut w)?;
    write_signature(&mut w, draft, cert_digest, issuer_serial)?;
    output::close(&mut w, "asic:XAdESSignatures")?;
    proof {
        let content = signature(draft@, cert_digest@, issuer_serial@);
        assert(output::written(w) =~= "<?xml version=\"1.0\" encoding=\"UTF-8\"?>"@
            + output::element("asic:XAdESSignatures"@, namespaces(), content));
    }
    output::writing(output::into_text(w))
}

/// Writes the signature document described by `draft`.
pub fn build_signature_xml(draft: &Draft) -> (r: Result<String, LibError>)
    ensures
        text_result(r) == document_outcome(draft@),
        r is Ok ==> codec::reads_back(certificate_digest(draft@)) && token_reads_back(draft@),
        r is Ok ==> data_reads_back(draft@) && codec::reads_back(
            x509::issuer_serial_outcome(draft@.cert_der)->Ok_0,
        ),
{
    let cert_digest = match digest::digest(draft.digest_uri.as_str(), draft.cert_der.as_slice()) {
        Ok(d) => d,
        Err(e) => {
            return Err(LibError::Crypto(e));
        },
    };
    let issuer_serial = x509::issuer_serial_v2(draft.cert_der.as_slice())?;
    write_document(draft, cert_digest.as_slice(), issuer_serial.as_slice())
}

/// The elements of the XML signature have plain names.
pub(crate) proof fn lemma_signature_names()
    ensures
        output::plain_name("ds:Signature"@),
        output::plain_name("ds:SignedInfo"@),
        output::plain_name("ds:CanonicalizationMethod"@),
        output::plain_name("ds:SignatureMethod"@),
        output::plain_name("ds:Reference"@),
        output::plain_name("ds:DigestMethod"@),
        output::plain_name("ds:DigestValue"@),
        output::plain_name("ds:SignatureValue"@),
        output::plain_name("ds:KeyInfo"@),
        output::plain_name("ds:X509Data"@),
        output::plain_name("ds:X509Certificate"@),
        output::plain_name("ds:Object"@),
{
    assert(output::plain_name("ds:Signature"@)) by {
        reveal_strlit("ds:Signature");
        reveal_with_fuel(output::completes_name, 14);
    }
    assert(output::plain_name("ds:SignedInfo"@)) by {
        reveal_strlit("ds:SignedInfo");
        reveal_with_fuel(output::completes_name, 15);
    }
    assert(output::plain_name("ds:CanonicalizationMethod"@)) by {
        reveal_strlit("ds:CanonicalizationMethod");
        reveal_with_fuel(output::completes_name, 27);
    }
    assert(output::plain_name("ds:SignatureMethod"@)) by {
        reveal_strlit("ds:SignatureMethod");
        reveal_with_fuel(output::completes_name, 20);
    }
    assert(output::plain_name("ds:Reference"@)) by {
        reveal_strlit("ds:Reference");
        reveal_with_fuel(output::completes_name, 14);
    }
    assert(output::plain_name("ds:DigestMethod"@)) by {
        reveal_strlit("ds:DigestMethod");
        reveal_with_fuel(output::completes_name, 17);
    }
    assert(output::plain_name("ds:DigestValue"@)) by {
        reveal_strlit("ds:DigestValue");
        reveal_with_fuel(output::completes_name, 16);
    }
    assert(output::plain_name("ds:SignatureValue"@)) by {
        reveal_strlit("ds:SignatureValue");
        reveal_with_fuel(output::completes_name, 19);
    }
    assert(output::plain_name("ds:KeyInfo"@)) by {
        reveal_strlit("ds:KeyInfo");
        reveal_with_fuel(output::completes_name, 12);
    }
    assert(output::plain_name("ds:X509Data"@)) by {
        reveal_strlit("ds:X509Data");
        reveal_with_fuel(output::completes_name, 13);
    }
    assert(output::plain_name("ds:X509Certificate"@)) by {
        reveal_strlit("ds:X509Certificate");
        reveal_with_fuel(output::completes_name, 20);
    }
    assert(output::plain_name("ds:Object"@)) by {
        reveal_strlit("ds:Object");
        reveal_with_fuel(output::completes_name, 11);
    }
}

/// The elements of the signed properties have plain names.
pub(crate) proof fn lemma_signed_names()
    ensures
        output::plain_name("xades:QualifyingProperties"@),
        output::plain_name("xades:SignedProperties"@),
        output::plain_name("xades:SignedSignatureProperties"@),
        output::plain_name("xades:SigningTime"@),
        output::plain_name("xades:SigningCertificateV2"@),
        output::plain_name("xades:Cert"@),
        output::plain_name("xades:CertDigest"@),
        output::plain_name("xades:IssuerSerialV2"@),
        output::plain_name("xades:SignedDataObjectProperties"@),
        output::plain_name("xades:DataObjectFormat"@),
        output::plain_name("xades:MimeType"@),
{
    assert(output::plain_name("xades:QualifyingProperties"@)) by {
        reveal_strlit("xades:QualifyingProperties");
        reveal_with_fuel(output::completes_name, 28);
    }
    assert(output::plain_name("xades:SignedProperties"@)) by {
        reveal_strlit("xades:SignedProperties");
        reveal_with_fuel(output::completes_name, 24);
    }
    assert(output::plain_name("xades:SignedSignatureProperties"@)) by {
        reveal_strlit("xades:SignedSignatureProperties");
        reveal_with_fuel(output::completes_name, 33);
    }
    assert(output::plain_name("xades:SigningTime"@)) by {
        reveal_strlit("xades:SigningTime");
        reveal_with_fuel(output::completes_name, 19);
    }
    assert(output::plain_name("xades:SigningCertificateV2"@)) by {
        reveal_strlit("xades:SigningCertificateV2");
        reveal_with_fuel(output::completes_name, 28);
    }
    assert(output::plain_name("xades:Cert"@)) by {
        reveal_strlit("xades:Cert");
        reveal_with_fuel(output::completes_name, 12);
    }
    assert(output::plain_name("xades:CertDigest"@)) by {
        reveal_strlit("xades:CertDigest");
        reveal_with_fuel(output::completes_name, 18);
    }
    assert(output::plain_name("xades:IssuerSerialV2"@)) by {
        reveal_strlit("xades:IssuerSerialV2");
        reveal_with_fuel(output::completes_name, 22);
    }
    assert(output::plain_name("xades:SignedDataObjectProperties"@)) by {
        reveal_strlit("xades:SignedDataObjectProperties");
        reveal_with_fuel(output::completes_name, 34);
    }
    assert(output::plain_name("xades:DataObjectFormat"@)) by {
        reveal_strlit("xades:DataObjectFormat");
        reveal_with_fuel(output::completes_name, 24);
    }
    assert(output::plain_name("xades:MimeType"@)) by {
        reveal_strlit("xades:MimeType");
        reveal_with_fuel(output::completes_name, 16);
    }
}

/// The elements of the unsigned properties have plain names.
pub(crate) proof fn lemma_unsigned_names()
    ensures
        output::plain_name("xades:UnsignedProperties"@),
        output::plain_name("xades:UnsignedSignatureProperties"@),
        output::plain_name("xades:SignatureTimeStamp"@),
        output::plain_name("xades:EncapsulatedTimeStamp"@),
        output::plain_name("xades:CertificateValues"@),
        output::plain_name("xades:EncapsulatedX509Certificate"@),
        output::plain_name("xades:RevocationValues"@),
        output::plain_name("xades:OCSPValues"@),
        output::plain_name("xades:EncapsulatedOCSPValue"@),
{
    assert(output::plain_name("xades:UnsignedProperties"@)) by {
        reveal_strlit("xades:UnsignedProperties");
        reveal_with_fuel(output::completes_name, 26);
    }
    assert(output::plain_name("xades:UnsignedSignatureProperties"@)) by {
        reveal_strlit("xades:UnsignedSignatureProperties");
        reveal_with_fuel(output::completes_name, 35);
    }
    assert(output::plain_name("xades:SignatureTimeStamp"@)) by {
        reveal_strlit("xades:SignatureTimeStamp");
        reveal_with_fuel(output::completes_name, 26);
    }
    assert(output::plain_name("xades:EncapsulatedTimeStamp"@)) by {
        reveal_strlit("xades:EncapsulatedTimeStamp");
        reveal_with_fuel(output::completes_name, 29);
    }
    assert(output::plain_name("xades:CertificateValues"@)) by {
        reveal_strlit("xades:CertificateValues");
        reveal_with_fuel(output::completes_name, 25);
    }
    assert(output::plain_name("xades:EncapsulatedX509Certificate"@)) by {
        reveal_strlit("xades:EncapsulatedX509Certificate");
        reveal_with_fuel(output::completes_name, 35);
    }
    assert(output::plain_name("xades:RevocationValues"@)) by {
        reveal_strlit("xades:RevocationValues");
        reveal_with_fuel(output::completes_name, 24);
    }
    assert(output::plain_name("xades:OCSPValues"@)) by {
        reveal_strlit("xades:OCSPValues");
        reveal_with_fuel(output::completes_name, 18);
    }
    assert(output::plain_name("xades:EncapsulatedOCSPValue"@)) by {
        reveal_strlit("xades:EncapsulatedOCSPValue");
        reveal_with_fuel(output::completes_name, 29);
    }
}

/// The attributes, and the document element, have plain names.
pub(crate) proof fn lemma_attribute_names()
    ensures
        output::plain_name("asic:XAdESSignatures"@),
        output::plain_name("Id"@),
        output::plain_name("URI"@),
        output::plain_name("Algorithm"@),
        output::plain_name("Type"@),
        output::plain_name("Target"@),
        output::plain_name("ObjectReference"@),
        output::plain_name("xmlns:asic"@),
        output::plain_name("xmlns:ds"@),
        output::plain_name("xmlns:xades"@),
{
    assert(output::plain_name("asic:XAdESSignatures"@)) by {
        reveal_strlit("asic:XAdESSignatures");
        reveal_with_fuel(output::completes_name, 22);
    }
    assert(output::plain_name("Id"@)) by {
        reveal_strlit("Id");
        reveal_with_fuel(output::completes_name, 4);
    }
    assert(output::plain_name("URI"@)) by {
        reveal_strlit("URI");
        reveal_with_fuel(output::completes_name, 5);
    }
    assert(output::plain_name("Algorithm"@)) by {
        reveal_strlit("Algorithm");
        reveal_with_fuel(output::completes_name, 11);
    }
    assert(output::plain_name("Type"@)) by {
        reveal_strlit("Type");
        reveal_with_fuel(output::completes_name, 6);
    }
    assert(output::plain_name("Target"@)) by {
        reveal_strlit("Target");
        reveal_with_fuel(output::completes_name, 8);
    }
    assert(output::plain_name("ObjectReference"@)) by {
        reveal_strlit("ObjectReference");
        reveal_with_fuel(output::completes_name, 17);
    }
    assert(output::plain_name("xmlns:asic"@)) by {
        reveal_strlit("xmlns:asic");
        reveal_with_fuel(output::completes_name, 12);
    }
    assert(output::plain_name("xmlns:ds"@)) by {
        reveal_strlit("xmlns:ds");
        reveal_with_fuel(output::completes_name, 10);
    }
    assert(output::plain_name("xmlns:xades"@)) by {
        reveal_strlit("xmlns:xades");
        reveal_with_fuel(output::completes_name, 13);
    }
}

/// What a draft is made from counts in full: every text, every file with its URI, media type and
/// digest, and every certificate and OCSP response, in order.
pub proof fn draft_counts_in_full(draft: Draft)
    ensures
        draft@.id == draft.id@,
        draft@.c14n_uri == draft.c14n_uri@,
        draft@.sig_method_uri == draft.sig_method_uri@,
        draft@.digest_uri == draft.digest_uri@,
        draft@.cert_der == draft.cert_der@,
        draft@.signing_time == draft.signing_time@,
        draft@.files.len() == draft.files@.len(),
        forall|i: int|
            0 <= i < draft.files@.len() ==> (#[trigger] draft@.files[i]).uri == draft.files@[i].uri@
                && draft@.files[i].mime_type == draft.files@[i].mime_type@ && draft@.files[i].digest
                == draft.files@[i].digest@,
        draft@.signed_props_digest is Some <==> draft.signed_props_digest is Some,
        draft.signed_props_digest matches Some(d) ==> draft@.signed_props_digest == Some(d@),
        draft@.signature_value is Some <==> draft.signature_value is Some,
        draft.signature_value matches Some(v) ==> draft@.signature_value == Some(v@),
        draft@.unsigned is Some <==> draft.unsigned is Some,
        draft.unsigned matches Some(u) ==> {
            let view = draft@.unsigned->Some_0;
            &&& view.timestamp_der == u.timestamp_der@
            &&& view.timestamp_c14n_uri == u.timestamp_c14n_uri@
            &&& view.cert_values.len() == u.cert_values@.len()
            &&& view.ocsp_values.len() == u.ocsp_values@.len()
            &&& forall|i: int|
                0 <= i < u.cert_values@.len() ==> #[trigger] view.cert_values[i]
                    == u.cert_values@[i]@
            &&& forall|i: int|
                0 <= i < u.ocsp_values@.len() ==> #[trigger] view.ocsp_values[i]
                    == u.ocsp_values@[i]@
        },
{
}

/// The `Id` of the reference to a file starts with that of the signature and ends with the number
/// of the file; that of the signed properties starts with that of the signature too.
pub proof fn ids_start_with_the_signature(draft: DraftView, index: nat)
    ensures
        ({
            let prefix = draft.id + "-RefId"@;
            &&& prefix.is_prefix_of(draft.reference_id(index))
            &&& text::number_of(draft.reference_id(index).skip(prefix.len() as int)) == Some(index)
            &&& draft.signed_properties_id() == draft.id + "-SignedProperties"@
        }),
{
    let prefix = draft.id + "-RefId"@;
    text::decimal_reads_back(index);
    assert(draft.reference_id(index).skip(prefix.len() as int) =~= text::decimal(index));
    assert(prefix =~= draft.reference_id(index).take(prefix.len() as int));
}

/// A signature document can be written exactly if the digest method is known and the bytes are a
/// certificate whose issuer and serial number can be encoded; else the reason is said.
pub proof fn document_needs_digest_and_certificate(draft: DraftView)
    ensures
        ({
            let digested = digest::digest_outcome(draft.digest_uri, draft.cert_der);
            let issued = x509::issuer_serial_outcome(draft.cert_der);
            let outcome = document_outcome(draft);
            &&& outcome is Ok <==> digested is Ok && issued is Ok
            &&& digested matches Err(e) ==> outcome == Err::<Seq<char>, ErrorView>(
                ErrorView::Crypto(e),
            )
            &&& digested is Ok ==> (issued matches Err(e) ==> outcome == Err::<
                Seq<char>,
                ErrorView,
            >(e))
        }),
{
}

} // verus!
