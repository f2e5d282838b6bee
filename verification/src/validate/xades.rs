//! Checks of the qualifying properties.
use vstd::prelude::*;
use vstd::string::*;

use crate::codec;
use crate::crypto::digest;
use crate::ns;
use crate::text;
use crate::validate::Profile;
use crate::xml::tree;
use crate::xml::tree::{Tree, TreeView};

verus! {

broadcast use crate::text::texts_push;

/// What the qualifying properties say, and what is wrong with them.
pub struct XadesOutcome {
    pub profile: Profile,
    pub claimed_signing_time: Option<String>,
    /// Place of `xades:UnsignedSignatureProperties`, when present.
    pub unsigned_node: Option<usize>,
    pub errors: Vec<String>,
    pub warnings: Vec<String>,
}

/// The mathematical counterpart of [`XadesOutcome`].
pub struct XadesView {
    pub profile: Profile,
    pub claimed_signing_time: Option<Seq<char>>,
    pub unsigned_node: Option<int>,
    pub errors: Seq<Seq<char>>,
    pub warnings: Seq<Seq<char>>,
}

impl View for XadesOutcome {
    type V = XadesView;

    open spec fn view(&self) -> XadesView {
        XadesView {
            profile: self.profile,
            claimed_signing_time: text::opt_text(self.claimed_signing_time),
            unsigned_node: tree::opt_place(self.unsigned_node),
            errors: text::texts(self.errors@),
            warnings: text::texts(self.warnings@),
        }
    }
}

/// Whether a text is a date and time as in RFC 3339.
pub uninterp spec fn is_rfc3339(value: Seq<char>) -> bool;

/// `chrono::DateTime::parse_from_rfc3339`, as far as whether it succeeds.
#[verifier::external_body]
fn parses_as_rfc3339(value: &str) -> (r: bool)
    ensures
        r == is_rfc3339(value@),
{
    chrono::DateTime::parse_from_rfc3339(value).is_ok()
}

/// The first of some places in the document that a node lies in.
pub open spec fn first_around(doc: TreeView, list: Seq<int>, inner: int) -> Option<int>
    decreases list.len(),
{
    if list.len() == 0 {
        None
    } else if doc.is_within(list[0], inner) {
        Some(list[0])
    } else {
        first_around(doc, list.skip(1), inner)
    }
}

/// The qualifying properties of a signature that hold its signed properties.
pub open spec fn qualifying_node(doc: TreeView, sig: int, sp: int) -> Option<int> {
    first_around(doc, doc.descendants(sig, ns::XADES@, "QualifyingProperties"@), sp)
}

/// Whether the qualifying properties name the signature that they are in.
pub open spec fn target_matches(doc: TreeView, sig: int, qp: int) -> bool {
    text::after_hash(tree::or_empty(doc.attribute(qp, "Target"@))) == Some(
        tree::or_empty(doc.attribute(sig, "Id"@)),
    )
}

/// What is wrong with the place of the signed properties.
pub open spec fn target_errors(doc: TreeView, sig: int, sp: int) -> Seq<Seq<char>> {
    match qualifying_node(doc, sig, sp) {
        None => seq!["SignedProperties is not inside QualifyingProperties"@],
        Some(qp) => if target_matches(doc, sig, qp) {
            Seq::empty()
        } else {
            seq![
                "QualifyingProperties Target "@ + text::quoted_text(
                    tree::or_empty(doc.attribute(qp, "Target"@)),
                ) + (" does not match signature Id "@ + text::quoted_text(
                    tree::or_empty(doc.attribute(sig, "Id"@)),
                )),
            ]
        },
    }
}

/// The unsigned signature properties.
pub open spec fn unsigned_node(doc: TreeView, sig: int, sp: int) -> Option<int> {
    doc.child_of(
        doc.child_of(qualifying_node(doc, sig, sp), ns::XADES@, "UnsignedProperties"@),
        ns::XADES@,
        "UnsignedSignatureProperties"@,
    )
}

/// The signing time as claimed.
pub open spec fn claimed_time(doc: TreeView, ssp: int) -> Option<Seq<char>> {
    match doc.child(ssp, ns::XADES@, "SigningTime"@) {
        Some(t) => Some(doc.text(t)),
        None => None,
    }
}

/// What is wrong with the claimed signing time.
pub open spec fn time_errors(doc: TreeView, ssp: int) -> Seq<Seq<char>> {
    match claimed_time(doc, ssp) {
        Some(value) => if is_rfc3339(value) {
            Seq::empty()
        } else {
            seq!["SigningTime is not a valid timestamp: "@ + value]
        },
        None => seq!["missing SigningTime"@],
    }
}

/// The element that binds the signing certificate: the one that some signers still use, or else
/// the current one.
pub open spec fn certificate_property(doc: TreeView, ssp: int) -> Option<int> {
    match doc.child(ssp, ns::XADES@, "SigningCertificate"@) {
        Some(legacy) => Some(legacy),
        None => doc.child(ssp, ns::XADES@, "SigningCertificateV2"@),
    }
}

/// The digest method of the signing certificate's digest.
pub open spec fn certificate_digest_method(doc: TreeView, digest_node: Option<int>) -> Seq<char> {
    tree::or_empty(
        doc.attribute_of(doc.child_of(digest_node, ns::DSIG@, "DigestMethod"@), "Algorithm"@),
    )
}

/// The value of the signing certificate's digest.
pub open spec fn certificate_digest_value(doc: TreeView, digest_node: Option<int>) -> Option<
    Seq<u8>,
> {
    match doc.child_of(digest_node, ns::DSIG@, "DigestValue"@) {
        Some(v) => codec::embedded_base64(doc.text(v)),
        None => None,
    }
}

/// What is wrong with one digest of the signing certificate, whose digest by the same method is
/// `actual`.
pub open spec fn digest_errors(
    method: Seq<char>,
    value: Option<Seq<u8>>,
    actual: Result<Seq<u8>, Seq<char>>,
) -> Seq<Seq<char>> {
    if !digest::is_allowed(method) {
        seq!["SigningCertificate digest uses unsupported method: "@ + method]
    } else {
        match (value, actual) {
            (Some(expected), Ok(found)) => if expected == found {
                Seq::empty()
            } else {
                seq!["SigningCertificate digest does not match the KeyInfo certificate"@]
            },
            _ => seq!["SigningCertificate digest is missing or malformed"@],
        }
    }
}

/// What is wrong with how the signing certificate is bound.
pub open spec fn certificate_errors(doc: TreeView, ssp: int, cert_der: Seq<u8>) -> Seq<Seq<char>> {
    match doc.child_of(certificate_property(doc, ssp), ns::XADES@, "Cert"@) {
        None => seq!["missing SigningCertificate"@],
        Some(cert_node) => {
            let digest_node = doc.child(cert_node, ns::XADES@, "CertDigest"@);
            let method = certificate_digest_method(doc, digest_node);
            digest_errors(
                method,
                certificate_digest_value(doc, digest_node),
                digest::digest_outcome(method, cert_der),
            )
        },
    }
}

/// The profile by the unsigned properties: a time-stamp makes T, revocation values beside it LT.
pub open spec fn profile_of(has_timestamp: bool, has_revocation: bool) -> Profile {
    if has_timestamp && has_revocation {
        Profile::LT
    } else if has_timestamp {
        Profile::T
    } else {
        Profile::B
    }
}

/// The profile that a signature's unsigned properties amount to.
pub open spec fn declared_profile(doc: TreeView, unsigned: Option<int>) -> Profile {
    profile_of(
        doc.child_of(unsigned, ns::XADES@, "SignatureTimeStamp"@) is Some,
        doc.child_of(unsigned, ns::XADES@, "RevocationValues"@) is Some,
    )
}

/// Whether a reference covers the signed properties, and so no data object.
pub open spec fn covers_properties(doc: TreeView, reference: int) -> bool {
    doc.attribute(reference, "Type"@) == Some(ns::TYPE_SIGNED_PROPERTIES@)
}

/// Whether one of the formats is for `target`.
pub open spec fn has_format(doc: TreeView, formats: Seq<int>, target: Seq<char>) -> bool {
    exists|i: int|
        0 <= i < formats.len() && doc.attribute(#[trigger] formats[i], "ObjectReference"@) == Some(
            target,
        )
}

/// Whether one of the references to data objects has the `Id`.
pub open spec fn has_data_reference(doc: TreeView, references: Seq<int>, id: Seq<char>) -> bool {
    exists|i: int|
        0 <= i < references.len() && !covers_properties(doc, #[trigger] references[i])
            && doc.attribute(references[i], "Id"@) == Some(id)
}

/// What is odd about one reference.
pub open spec fn reference_warnings(doc: TreeView, formats: Seq<int>, reference: int) -> Seq<
    Seq<char>,
> {
    if covers_properties(doc, reference) || has_format(
        doc,
        formats,
        "#"@ + tree::or_empty(doc.attribute(reference, "Id"@)),
    ) {
        Seq::empty()
    } else {
        seq![
            "'"@ + text::quoted_text(tree::or_empty(doc.attribute(reference, "URI"@)))
                + "' not referenced in SignedDataObjectProperties"@,
        ]
    }
}

/// What is odd about some references.
pub open spec fn references_warnings(
    doc: TreeView,
    formats: Seq<int>,
    references: Seq<int>,
) -> Seq<Seq<char>>
    decreases references.len(),
{
    if references.len() == 0 {
        Seq::empty()
    } else {
        references_warnings(doc, formats, references.drop_last()) + reference_warnings(
            doc,
            formats,
            references.last(),
        )
    }
}

/// Whether a format is for a data object.
pub open spec fn format_resolves(doc: TreeView, references: Seq<int>, format: int) -> bool {
    text::after_hash(tree::or_empty(doc.attribute(format, "ObjectReference"@))) matches Some(id)
        && has_data_reference(doc, references, id)
}

/// What is odd about one format.
pub open spec fn format_warnings(doc: TreeView, references: Seq<int>, format: int) -> Seq<
    Seq<char>,
> {
    let target = text::quoted_text(tree::or_empty(doc.attribute(format, "ObjectReference"@)));
    (if format_resolves(doc, references, format) {
        Seq::empty()
    } else {
        seq!["Unknown ds:Reference '"@ + target + "'"@]
    }) + (if doc.child(format, ns::XADES@, "MimeType"@) is Some {
        Seq::empty()
    } else {
        seq!["No MimeType specified for '"@ + target + "'"@]
    })
}

/// What is odd about some formats.
pub open spec fn formats_warnings(doc: TreeView, references: Seq<int>, formats: Seq<int>) -> Seq<
    Seq<char>,
>
    decreases formats.len(),
{
    if formats.len() == 0 {
        Seq::empty()
    } else {
        formats_warnings(doc, references, formats.drop_last()) + format_warnings(
            doc,
            references,
            formats.last(),
        )
    }
}

/// The formats of the data objects.
pub open spec fn format_nodes(doc: TreeView, sp: int) -> Seq<int> {
    match doc.child(sp, ns::XADES@, "SignedDataObjectProperties"@) {
        Some(sdop) => doc.children(sdop, ns::XADES@, "DataObjectFormat"@),
        None => Seq::empty(),
    }
}

/// What is odd about the formats of the data objects: references without one first, then formats
/// that are for nothing or say nothing.
pub open spec fn data_object_warnings(doc: TreeView, sig: int, sp: int) -> Seq<Seq<char>> {
    match doc.child(sig, ns::DSIG@, "SignedInfo"@) {
        None => Seq::empty(),
        Some(signed_info) => {
            let references = doc.children(signed_info, ns::DSIG@, "Reference"@);
            let formats = format_nodes(doc, sp);
            references_warnings(doc, formats, references) + formats_warnings(
                doc,
                references,
                formats,
            )
        },
    }
}

/// What the qualifying properties say, and what is wrong with them.
pub open spec fn signed_properties_outcome(
    doc: TreeView,
    sig: int,
    sp: int,
    cert_der: Seq<u8>,
) -> XadesView {
    let unsigned = unsigned_node(doc, sig, sp);
    match doc.child(sp, ns::XADES@, "SignedSignatureProperties"@) {
        None => XadesView {
            profile: Profile::B,
            claimed_signing_time: None,
            unsigned_node: unsigned,
            errors: target_errors(doc, sig, sp) + seq!["missing SignedSignatureProperties"@],
            warnings: Seq::empty(),
        },
        Some(ssp) => XadesView {
            profile: declared_profile(doc, unsigned),
            claimed_signing_time: claimed_time(doc, ssp),
            unsigned_node: unsigned,
            errors: target_errors(doc, sig, sp) + time_errors(doc, ssp) + certificate_errors(
                doc,
                ssp,
                cert_der,
            ),
            warnings: data_object_warnings(doc, sig, sp),
        },
    }
}

/// Finds the qualifying properties that hold the signed properties.
fn find_qualifying(doc: &Tree, sig_node: usize, sp_node: usize) -> (r: Option<usize>)
    ensures
        tree::opt_place(r) == qualifying_node(doc@, sig_node as int, sp_node as int),
{
    let list = doc.descendants(sig_node, ns::XADES, "QualifyingProperties");
    let ghost all = tree::places(list@);
    let mut i: usize = 0;
    assert(all.skip(0) =~= all);
    while i < list.len()
        invariant
            i <= list@.len(),
            all == tree::places(list@),
            all == doc@.descendants(sig_node as int, ns::XADES@, "QualifyingProperties"@),
            first_around(doc@, all, sp_node as int) == first_around(
                doc@,
                all.skip(i as int),
                sp_node as int,
            ),
        decreases list@.len() - i,
    {
        assert(all.skip(i as int)[0] == list@[i as int] as int);
        if doc.is_within(list[i], sp_node) {
            return Some(list[i]);
        }
        assert(all.skip(i as int).skip(1) =~= all.skip(i + 1));
        i += 1;
    }
    None
}

/// Checks that the qualifying properties name the signature.
fn check_target(doc: &Tree, sig_node: usize, sp_node: usize, qp: Option<usize>) -> (r: Vec<String>)
    requires
        tree::opt_place(qp) == qualifying_node(doc@, sig_node as int, sp_node as int),
    ensures
        text::texts(r@) == target_errors(doc@, sig_node as int, sp_node as int),
{
    let mut errors: Vec<String> = Vec::new();
    match qp {
        Some(qp_node) => {
            let target = doc.attribute_or_empty(Some(qp_node), "Target");
            let sig_id = doc.attribute_or_empty(Some(sig_node), "Id");
            if !text::refers_to(target, sig_id) {
                let quoted_target = text::quoted(target);
                let quoted_id = text::quoted(sig_id);
                let first = text::joined("QualifyingProperties Target ", quoted_target.as_str());
                let second = text::joined(" does not match signature Id ", quoted_id.as_str());
                errors.push(text::joined(first.as_str(), second.as_str()));
            }
        },
        None => {
            errors.push("SignedProperties is not inside QualifyingProperties".to_owned());
        },
    }
    assert(text::texts(errors@) =~= target_errors(doc@, sig_node as int, sp_node as int));
    errors
}

/// Checks the claimed signing time.
fn check_signing_time(doc: &Tree, ssp: usize) -> (r: (Option<String>, Vec<String>))
    ensures
        text::opt_text(r.0) == claimed_time(doc@, ssp as int),
        text::texts(r.1@) == time_errors(doc@, ssp as int),
{
    let mut errors: Vec<String> = Vec::new();
    let claimed = match doc.child(ssp, ns::XADES, "SigningTime") {
        Some(t) => {
            let value = doc.text(t);
            if !parses_as_rfc3339(value.as_str()) {
                errors.push(
                    text::joined("SigningTime is not a valid timestamp: ", value.as_str()),
                );
            }
            Some(value)
        },
        None => {
            errors.push("missing SigningTime".to_owned());
            None
        },
    };
    assert(text::texts(errors@) =~= time_errors(doc@, ssp as int));
    (claimed, errors)
}

/// Finds the value of the signing certificate's digest.
fn find_digest_value(doc: &Tree, digest_node: Option<usize>) -> (r: Option<Vec<u8>>)
    ensures
        text::opt_bytes(r) == certificate_digest_value(doc@, tree::opt_place(digest_node)),
{
    match doc.child_of(digest_node, ns::DSIG, "DigestValue") {
        Some(v) => codec::decode_b64(doc.text(v).as_str()),
        None => None,
    }
}

/// Compares a digest of the signing certificate with the one that was computed.
pub fn check_certificate_digest(
    method: &str,
    value: Option<Vec<u8>>,
    actual: Result<Vec<u8>, String>,
) -> (r: Vec<String>)
    ensures
        text::texts(r@) == digest_errors(
            method@,
            text::opt_bytes(value),
            text::bytes_view(actual),
        ),
{
    let mut errors: Vec<String> = Vec::new();
    if !digest::allowed(method) {
        errors.push(text::joined("SigningCertificate digest uses unsupported method: ", method));
    } else {
        match (&value, &actual) {
            (Some(expected), Ok(found)) => {
                if !text::same_bytes(expected.as_slice(), found.as_slice()) {
                    let message = "SigningCertificate digest does not match the KeyInfo certificate";
                    errors.push(message.to_owned());
                }
            },
            _ => {
                errors.push("SigningCertificate digest is missing or malformed".to_owned());
            },
        }
    }
    assert(text::texts(errors@) =~= digest_errors(
        method@,
        text::opt_bytes(value),
        text::bytes_view(actual),
    ));
    errors
}

/// Checks how the signing certificate is bound.
fn check_signing_certificate(doc: &Tree, ssp: usize, cert_der: &[u8]) -> (r: Vec<String>)
    ensures
        text::texts(r@) == certificate_errors(doc@, ssp as int, cert_der@),
{
    let property = match doc.child(ssp, ns::XADES, "SigningCertificate") {
        Some(legacy) => Some(legacy),
        None => doc.child(ssp, ns::XADES, "SigningCertificateV2"),
    };
    match doc.child_of(property, ns::XADES, "Cert") {
        Some(cert_node) => {
            let digest_node = doc.child(cert_node, ns::XADES, "CertDigest");
            let method_node = doc.child_of(digest_node, ns::DSIG, "DigestMethod");
            let method = doc.attribute_or_empty(method_node, "Algorithm");
            let value = find_digest_value(doc, digest_node);
            check_certificate_digest(method, value, digest::digest(method, cert_der))
        },
        None => {
            let mut errors: Vec<String> = Vec::new();
            errors.push("missing SigningCertificate".to_owned());
            assert(text::texts(errors@) =~= seq!["missing SigningCertificate"@]);
            errors
        },
    }
}

/// Whether a reference covers the signed properties.
fn is_properties_reference(doc: &Tree, reference: usize) -> (r: bool)
    ensures
        r == covers_properties(doc@, reference as int),
{
    match doc.attribute(reference, "Type") {
        Some(t) => text::same(t, ns::TYPE_SIGNED_PROPERTIES),
        None => false,
    }
}

/// Looks for a format for `target`.
fn find_format(doc: &Tree, formats: &Vec<usize>, target: &str) -> (r: bool)
    ensures
        r == has_format(doc@, tree::places(formats@), target@),
{
    let ghost all = tree::places(formats@);
    let mut i: usize = 0;
    while i < formats.len()
        invariant
            i <= formats@.len(),
            all == tree::places(formats@),
            forall|k: int|
                0 <= k < i ==> doc@.attribute(#[trigger] all[k], "ObjectReference"@) != Some(
                    target@,
                ),
        decreases formats@.len() - i,
    {
        assert(all[i as int] == formats@[i as int] as int);
        if let Some(reference) = doc.attribute(formats[i], "ObjectReference") {
            if text::same(reference, target) {
                return true;
            }
        }
        i += 1;
    }
    false
}

/// Looks for a reference to a data object that `target` leads to.
fn find_data_reference(doc: &Tree, references: &Vec<usize>, target: &str) -> (r: bool)
    ensures
        r == (text::after_hash(target@) matches Some(id) && has_data_reference(
            doc@,
            tree::places(references@),
            id,
        )),
{
    let ghost all = tree::places(references@);
    let mut i: usize = 0;
    while i < references.len()
        invariant
            i <= references@.len(),
            all == tree::places(references@),
            forall|k: int|
                0 <= k < i && !covers_properties(doc@, #[trigger] all[k]) ==> (doc@.attribute(
                    all[k],
                    "Id"@,
                ) matches Some(id) ==> text::after_hash(target@) != Some(id)),
        decreases references@.len() - i,
    {
        assert(all[i as int] == references@[i as int] as int);
        if !is_properties_reference(doc, references[i]) {
            if let Some(id) = doc.attribute(references[i], "Id") {
                if text::refers_to(target, id) {
                    return true;
                }
            }
        }
        i += 1;
    }
    false
}

/// Checks that every reference to a data object has a format.
fn check_references(doc: &Tree, formats: &Vec<usize>, references: &Vec<usize>) -> (r: Vec<String>)
    ensures
        text::texts(r@) == references_warnings(
            doc@,
            tree::places(formats@),
            tree::places(references@),
        ),
{
    let ghost all = tree::places(references@);
    let mut warnings: Vec<String> = Vec::new();
    let mut i: usize = 0;
    assert(all.take(0) =~= Seq::<int>::empty());
    assert(text::texts(warnings@) =~= Seq::<Seq<char>>::empty());
    while i < references.len()
        invariant
            i <= references@.len(),
            all == tree::places(references@),
            text::texts(warnings@) == references_warnings(
                doc@,
                tree::places(formats@),
                all.take(i as int),
            ),
        decreases references@.len() - i,
    {
        let ghost before = text::texts(warnings@);
        let reference: usize = references[i];
        if !is_properties_reference(doc, reference) {
            let id = doc.attribute_or_empty(Some(reference), "Id");
            let expected = text::joined("#", id);
            if !find_format(doc, formats, expected.as_str()) {
                let uri = text::quoted(doc.attribute_or_empty(Some(reference), "URI"));
                warnings.push(
                    text::joined3(
                        "'",
                        uri.as_str(),
                        "' not referenced in SignedDataObjectProperties",
                    ),
                );
            }
        }
        proof {
            let next = all.take(i + 1);
            assert(next.drop_last() =~= all.take(i as int));
            assert(next.last() == reference as int);
            assert(text::texts(warnings@) =~= before + reference_warnings(
                doc@,
                tree::places(formats@),
                reference as int,
            ));
        }
        i += 1;
    }
    assert(all.take(i as int) =~= all);
    warnings
}

/// Checks that every format is for a data object and names a media type.
fn check_formats(doc: &Tree, references: &Vec<usize>, formats: &Vec<usize>) -> (r: Vec<String>)
    ensures
        text::texts(r@) == formats_warnings(
            doc@,
            tree::places(references@),
            tree::places(formats@),
        ),
{
    let ghost all = tree::places(formats@);
    let mut warnings: Vec<String> = Vec::new();
    let mut i: usize = 0;
    assert(all.take(0) =~= Seq::<int>::empty());
    assert(text::texts(warnings@) =~= Seq::<Seq<char>>::empty());
    while i < formats.len()
        invariant
            i <= formats@.len(),
            all == tree::places(formats@),
            text::texts(warnings@) == formats_warnings(
                doc@,
                tree::places(references@),
                all.take(i as int),
            ),
        decreases formats@.len() - i,
    {
        let ghost before = text::texts(warnings@);
        let format: usize = formats[i];
        let target = doc.attribute_or_empty(Some(format), "ObjectReference");
        let quoted_target = text::quoted(target);
        if !find_data_reference(doc, references, target) {
            warnings.push(
                text::joined3("Unknown ds:Reference '", quoted_target.as_str(), "'"),
            );
        }
        if doc.child(format, ns::XADES, "MimeType").is_none() {
            warnings.push(
                text::joined3("No MimeType specified for '", quoted_target.as_str(), "'"),
            );
        }
        proof {
            let next = all.take(i + 1);
            assert(next.drop_last() =~= all.take(i as int));
            assert(next.last() == format as int);
            assert(text::texts(warnings@) =~= before + format_warnings(
                doc@,
                tree::places(references@),
                format as int,
            ));
        }
        i += 1;
    }
    assert(all.take(i as int) =~= all);
    warnings
}

/// Checks the formats of the data objects.
fn check_data_object_formats(doc: &Tree, sig_node: usize, sp_node: usize) -> (r: Vec<String>)
    ensures
        text::texts(r@) == data_object_warnings(doc@, sig_node as int, sp_node as int),
{
    let signed_info = match doc.child(sig_node, ns::DSIG, "SignedInfo") {
        Some(n) => n,
        None => {
            let none: Vec<String> = Vec::new();
            assert(text::texts(none@) =~= Seq::<Seq<char>>::empty());
            return none;
        },
    };
    let references = doc.children(signed_info, ns::DSIG, "Reference");
    let formats = match doc.child(sp_node, ns::XADES, "SignedDataObjectProperties") {
        Some(sdop) => doc.children(sdop, ns::XADES, "DataObjectFormat"),
        None => Vec::new(),
    };
    assert(tree::places(formats@) =~= format_nodes(doc@, sp_node as int));
    let mut warnings = check_references(doc, &formats, &references);
    let mut more = check_formats(doc, &references, &formats);
    proof {
        text::lemma_texts_concat(warnings@, more@);
    }
    warnings.append(&mut more);
    warnings
}

/// Checks the signed properties of a signature against its certificate.
pub fn check_signed_properties(
    doc: &Tree,
    sig_node: usize,
    sp_node: usize,
    cert_der: &[u8],
) -> (r: XadesOutcome)
    ensures
        r@ == signed_properties_outcome(doc@, sig_node as int, sp_node as int, cert_der@),
{
    let qp = find_qualifying(doc, sig_node, sp_node);
    let mut errors = check_target(doc, sig_node, sp_node, qp);
    let unsigned_properties = doc.child_of(qp, ns::XADES, "UnsignedProperties");
    let unsigned_node = doc.child_of(
        unsigned_properties,
        ns::XADES,
        "UnsignedSignatureProperties",
    );
    let ssp = match doc.child(sp_node, ns::XADES, "SignedSignatureProperties") {
        Some(n) => n,
        None => {
            errors.push("missing SignedSignatureProperties".to_owned());
            let warnings: Vec<String> = Vec::new();
            assert(text::texts(warnings@) =~= Seq::<Seq<char>>::empty());
            assert(text::texts(errors@) =~= target_errors(doc@, sig_node as int, sp_node as int)
                + seq!["missing SignedSignatureProperties"@]);
            return XadesOutcome {
                profile: Profile::B,
                claimed_signing_time: None,
                unsigned_node,
                errors,
                warnings,
            };
        },
    };
    let (claimed_signing_time, mut of_time) = check_signing_time(doc, ssp);
    let mut of_certificate = check_signing_certificate(doc, ssp, cert_der);
    proof {
        text::lemma_texts_concat(errors@, of_time@);
        text::lemma_texts_concat(errors@ + of_time@, of_certificate@);
    }
    errors.append(&mut of_time);
    errors.append(&mut of_certificate);
    let has_timestamp = doc.child_of(unsigned_node, ns::XADES, "SignatureTimeStamp").is_some();
    let has_revocation = doc.child_of(unsigned_node, ns::XADES, "RevocationValues").is_some();
    let profile = if has_timestamp && has_revocation {
        Profile::LT
    } else if has_timestamp {
        Profile::T
    } else {
        Profile::B
    };
    let warnings = check_data_object_formats(doc, sig_node, sp_node);
    XadesOutcome { profile, claimed_signing_time, unsigned_node, errors, warnings }
}

} // verus!
