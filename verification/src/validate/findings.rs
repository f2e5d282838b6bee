//! What reports say, told by the document and by what other crates say of certificates, time-stamps
//! and OCSP responses.
use vstd::prelude::*;

use crate::chain;
use crate::codec;
use crate::crypto::digest;
use crate::error::{ErrorView, LibError};
use crate::ns;
use crate::text;
use crate::time;
use crate::time::{Time, TimeView};
use crate::validate;
use crate::validate::acceptance;
use crate::validate::ltv;
use crate::validate::xades;
use crate::validate::{CoreOutcome, CoreVerifier, CoreView, Profile};
use crate::validate::{SignatureValidation, ValidationOptions};
use crate::x509;
use crate::x509::CertView;
use crate::xml::input;
use crate::xml::input::C14nMethod;
use crate::xml::tree::{Tree, TreeView};
use crate::DataObject;

verus! {

/// A report says which signature it is on, and which certificate signed it, by its bytes and by the
/// subject that parsing gives.
pub proof fn report_names_signature_and_signer(
    doc: TreeView,
    sig: int,
    core: CoreView,
    anchors: Seq<Seq<u8>>,
    wanted: Option<TimeView>,
    now: TimeView,
)
    ensures
        ({
            let report = validate::signature_report(doc, sig, core, anchors, wanted, now);
            &&& report.signature_id == doc.attribute(sig, "Id"@)
            &&& report.signer_cert_der == core.cert_der
            &&& core.cert_der is None ==> report.signer_subject is None
            &&& core.cert_der matches Some(cert) ==> {
                &&& x509::certificate_parts(cert) is Err ==> report.signer_subject is None
                &&& x509::certificate_parts(cert) matches Ok(parts) ==> report.signer_subject
                    == Some(parts.3)
            }
        }),
{
}

/// The claimed signing time is the text of the `SigningTime` among the signed properties.
pub proof fn claimed_time_is_that_of_the_properties(
    doc: TreeView,
    sig: int,
    core: CoreView,
    sp: int,
    anchors: Seq<Seq<u8>>,
    wanted: Option<TimeView>,
    now: TimeView,
)
    requires
        core.sp_node == Some(sp),
        core.cert_der is Some,
    ensures
        ({
            let report = validate::signature_report(doc, sig, core, anchors, wanted, now);
            let ssp = doc.child(sp, ns::XADES@, "SignedSignatureProperties"@);
            let at = doc.child(ssp->Some_0, ns::XADES@, "SigningTime"@);
            &&& ssp is None || at is None ==> report.claimed_signing_time is None
            &&& ssp is Some && at is Some ==> report.claimed_signing_time == Some(
                doc.text(at->Some_0),
            )
        }),
{
}

/// The time of an OCSP proof is the one that the one embedded response gives; and the response is
/// good as of the proved time, or as of now where none is proved.
pub proof fn ocsp_time_is_that_of_the_response(
    doc: TreeView,
    sig: int,
    core: CoreView,
    sp: int,
    qp: int,
    up: int,
    usp: int,
    cert: Seq<u8>,
    anchors: Seq<Seq<u8>>,
    wanted: Option<TimeView>,
    now: TimeView,
)
    requires
        core.sp_node == Some(sp),
        core.cert_der == Some(cert),
        acceptance::parses(cert),
        acceptance::is_holder(doc, sig, sp, qp),
        doc.child(qp, ns::XADES@, "UnsignedProperties"@) == Some(up),
        doc.child(up, ns::XADES@, "UnsignedSignatureProperties"@) == Some(usp),
    ensures
        ({
            let report = validate::signature_report(doc, sig, core, anchors, wanted, now);
            let nodes = doc.descendants(usp, ns::XADES@, "EncapsulatedOCSPValue"@);
            let response = codec::embedded_base64(doc.text(nodes[0]));
            let content = ltv::response_content(response->Some_0);
            &&& report.ocsp_time matches Some(t) ==> {
                &&& report.profile != Profile::B
                &&& nodes.len() == 1
                &&& response is Some
                &&& content is Some
                &&& (content->Some_0).0 == (t.secs, t.nanos)
            }
            &&& report.is_valid() && report.profile != Profile::B && nodes.len() > 0
                && content is Some ==> report.ocsp_time == Some(
                TimeView { secs: (content->Some_0).0.0, nanos: (content->Some_0).0.1 },
            )
        }),
{
    acceptance::lemma_holder(doc, sig, sp, qp);
}

/// Signed properties outside of qualifying properties, or inside such as are for another signature,
/// are a fault of their own.
pub proof fn misplaced_properties_are_named(
    doc: TreeView,
    sig: int,
    sp: int,
    cert: Seq<u8>,
)
    ensures
        ({
            let errors = xades::signed_properties_outcome(doc, sig, sp, cert).errors;
            &&& (forall|qp: int| !acceptance::is_holder(doc, sig, sp, qp)) ==> errors.contains(
                "SignedProperties is not inside QualifyingProperties"@,
            )
            &&& forall|qp: int| #[trigger]
                acceptance::is_holder(doc, sig, sp, qp) ==> {
                    let target = acceptance::or_nothing(doc.attribute(qp, "Target"@));
                    let id = acceptance::or_nothing(doc.attribute(sig, "Id"@));
                    target != seq!['#'] + id ==> errors.contains(
                        "QualifyingProperties Target "@ + text::quoted_text(target) + (
                        " does not match signature Id "@ + text::quoted_text(id)),
                    )
                }
        }),
{
    let errors = xades::signed_properties_outcome(doc, sig, sp, cert).errors;
    let own = xades::target_errors(doc, sig, sp);
    assert(own.len() > 0 ==> errors[0] == own[0]);
    if (forall|qp: int| !acceptance::is_holder(doc, sig, sp, qp)) {
        if let Some(qp) = xades::qualifying_node(doc, sig, sp) {
            acceptance::lemma_holder(doc, sig, sp, qp);
            assert(acceptance::is_holder(doc, sig, sp, qp));
        }
        assert(errors[0] == "SignedProperties is not inside QualifyingProperties"@);
    }
    assert forall|qp: int| #[trigger] acceptance::is_holder(doc, sig, sp, qp) implies {
        let target = acceptance::or_nothing(doc.attribute(qp, "Target"@));
        let id = acceptance::or_nothing(doc.attribute(sig, "Id"@));
        target != seq!['#'] + id ==> errors.contains(
            "QualifyingProperties Target "@ + text::quoted_text(target) + (
            " does not match signature Id "@ + text::quoted_text(id)),
        )
    } by {
        acceptance::lemma_holder(doc, sig, sp, qp);
        let target = acceptance::or_nothing(doc.attribute(qp, "Target"@));
        let id = acceptance::or_nothing(doc.attribute(sig, "Id"@));
        acceptance::lemma_after_hash(target, id);
        if target != seq!['#'] + id {
            assert(errors[0] == own[0]);
        }
    }
}

/// Each fault of the signing time has its own message.
pub proof fn time_faults_are_named(doc: TreeView, sig: int, sp: int, cert: Seq<u8>)
    ensures
        ({
            let errors = xades::signed_properties_outcome(doc, sig, sp, cert).errors;
            let ssp = doc.child(sp, ns::XADES@, "SignedSignatureProperties"@);
            let at = doc.child(ssp->Some_0, ns::XADES@, "SigningTime"@);
            let text = doc.text(at->Some_0);
            &&& ssp is None ==> errors.contains("missing SignedSignatureProperties"@)
            &&& ssp is Some && at is None ==> errors.contains("missing SigningTime"@)
            &&& ssp is Some && at is Some && !xades::is_rfc3339(text) ==> errors.contains(
                "SigningTime is not a valid timestamp: "@ + text,
            )
        }),
{
    let errors = xades::signed_properties_outcome(doc, sig, sp, cert).errors;
    let n = xades::target_errors(doc, sig, sp).len() as int;
    let ssp = doc.child(sp, ns::XADES@, "SignedSignatureProperties"@);
    let at = doc.child(ssp->Some_0, ns::XADES@, "SigningTime"@);
    if ssp is None {
        assert(errors[n] == "missing SignedSignatureProperties"@);
    } else if at is None {
        assert(errors[n] == "missing SigningTime"@);
    } else if !xades::is_rfc3339(doc.text(at->Some_0)) {
        assert(errors[n] == "SigningTime is not a valid timestamp: "@ + doc.text(at->Some_0));
    }
}

/// The element that binds the signing certificate to signed properties.
pub open spec fn binding(doc: TreeView, sp: int) -> Option<int> {
    let ssp = doc.child(sp, ns::XADES@, "SignedSignatureProperties"@);
    let legacy = doc.child(ssp->Some_0, ns::XADES@, "SigningCertificate"@);
    let current = doc.child(ssp->Some_0, ns::XADES@, "SigningCertificateV2"@);
    let property = if legacy is Some {
        legacy
    } else {
        current
    };
    if ssp is Some && property is Some {
        doc.child(property->Some_0, ns::XADES@, "Cert"@)
    } else {
        None
    }
}

/// The method of the digest that binds the signing certificate, or no text.
pub open spec fn binding_method(doc: TreeView, holder: int) -> Seq<char> {
    let hashed = doc.child(holder, ns::XADES@, "CertDigest"@);
    let method = doc.child(hashed->Some_0, ns::DSIG@, "DigestMethod"@);
    if hashed is Some && method is Some {
        acceptance::or_nothing(doc.attribute(method->Some_0, "Algorithm"@))
    } else {
        Seq::empty()
    }
}

/// The digest that binds the signing certificate.
pub open spec fn binding_value(doc: TreeView, holder: int) -> Option<Seq<u8>> {
    let hashed = doc.child(holder, ns::XADES@, "CertDigest"@);
    let value = doc.child(hashed->Some_0, ns::DSIG@, "DigestValue"@);
    if hashed is Some && value is Some {
        codec::embedded_base64(doc.text(value->Some_0))
    } else {
        None
    }
}

/// Whether a URI is that of a digest method of the SHA-2 family.
pub open spec fn is_sha2(uri: Seq<char>) -> bool {
    uri == "http://www.w3.org/2001/04/xmlenc#sha256"@ || uri
        == "http://www.w3.org/2001/04/xmldsig-more#sha384"@ || uri
        == "http://www.w3.org/2001/04/xmlenc#sha512"@
}

/// Each fault of how the signing certificate is bound has its own message.
pub proof fn certificate_faults_are_named(doc: TreeView, sig: int, sp: int, cert: Seq<u8>)
    requires
        doc.child(sp, ns::XADES@, "SignedSignatureProperties"@) is Some,
    ensures
        ({
            let errors = xades::signed_properties_outcome(doc, sig, sp, cert).errors;
            let holder = binding(doc, sp);
            let method = binding_method(doc, holder->Some_0);
            let value = binding_value(doc, holder->Some_0);
            let actual = digest::digest_outcome(method, cert);
            &&& holder is None ==> errors.contains("missing SigningCertificate"@)
            &&& holder is Some && !is_sha2(method) ==> errors.contains(
                "SigningCertificate digest uses unsupported method: "@ + method,
            )
            &&& holder is Some && is_sha2(method) && (value is None || actual is Err)
                ==> errors.contains("SigningCertificate digest is missing or malformed"@)
            &&& holder is Some && is_sha2(method) && value is Some && actual is Ok
                && value->Some_0 != actual->Ok_0 ==> errors.contains(
                "SigningCertificate digest does not match the KeyInfo certificate"@,
            )
        }),
{
    let errors = xades::signed_properties_outcome(doc, sig, sp, cert).errors;
    let ssp = doc.child(sp, ns::XADES@, "SignedSignatureProperties"@)->Some_0;
    let n = xades::target_errors(doc, sig, sp).len() + xades::time_errors(doc, ssp).len();
    let own = xades::certificate_errors(doc, ssp, cert);
    assert(own.len() > 0 ==> errors[n as int] == own[0]);
    let holder = binding(doc, sp);
    if holder is Some {
        let node = doc.child(holder->Some_0, ns::XADES@, "CertDigest"@);
        let method = binding_method(doc, holder->Some_0);
        assert(xades::certificate_digest_method(doc, node) == method);
        assert(xades::certificate_digest_value(doc, node) == binding_value(doc, holder->Some_0));
    }
}

/// There are no more messages on the qualifying properties than faults: at most one for the place,
/// one for the time and one for the certificate, and none of a kind without a fault.
pub proof fn properties_have_one_message_for_each_fault(
    doc: TreeView,
    sig: int,
    sp: int,
    qp: int,
    cert: Seq<u8>,
)
    requires
        acceptance::is_holder(doc, sig, sp, qp),
    ensures
        ({
            let errors = xades::signed_properties_outcome(doc, sig, sp, cert).errors;
            let ssp = doc.child(sp, ns::XADES@, "SignedSignatureProperties"@);
            let at = doc.child(ssp->Some_0, ns::XADES@, "SigningTime"@);
            let holder = binding(doc, sp);
            let method = binding_method(doc, holder->Some_0);
            let target = acceptance::or_nothing(doc.attribute(qp, "Target"@));
            let id = acceptance::or_nothing(doc.attribute(sig, "Id"@));
            let misplaced = target != seq!['#'] + id;
            let untimely = at is None || !xades::is_rfc3339(doc.text(at->Some_0));
            let unbound = holder is None || !is_sha2(method) || binding_value(
                doc,
                holder->Some_0,
            ) is None || digest::digest_outcome(method, cert) != Ok::<Seq<u8>, Seq<char>>(
                binding_value(doc, holder->Some_0)->Some_0,
            );
            &&& ssp is None ==> errors.len() == number(misplaced) + 1
            &&& ssp is Some ==> errors.len() == number(misplaced) + number(untimely) + number(
                unbound,
            )
        }),
{
    acceptance::lemma_holder(doc, sig, sp, qp);
    let target = acceptance::or_nothing(doc.attribute(qp, "Target"@));
    let id = acceptance::or_nothing(doc.attribute(sig, "Id"@));
    acceptance::lemma_after_hash(target, id);
    let holder = binding(doc, sp);
    if holder is Some {
        let node = doc.child(holder->Some_0, ns::XADES@, "CertDigest"@);
        let method = binding_method(doc, holder->Some_0);
        assert(xades::certificate_digest_method(doc, node) == method);
        assert(xades::certificate_digest_value(doc, node) == binding_value(doc, holder->Some_0));
    }
}

/// One where something holds, and zero where it does not.
pub open spec fn number(holds: bool) -> int {
    if holds {
        1
    } else {
        0
    }
}

/// Whether a reference is to a data object that has no format among some.
pub open spec fn lacks_format(doc: TreeView, formats: Seq<int>, reference: int) -> bool {
    let id = acceptance::or_nothing(doc.attribute(reference, "Id"@));
    &&& doc.attribute(reference, "Type"@) != Some("http://uri.etsi.org/01903#SignedProperties"@)
    &&& forall|k: int|
        0 <= k < formats.len() ==> doc.attribute(#[trigger] formats[k], "ObjectReference"@) != Some(
            seq!['#'] + id,
        )
}

/// The warning on a reference to a data object without a format.
pub open spec fn lacking_text(doc: TreeView, reference: int) -> Seq<char> {
    "'"@ + text::quoted_text(acceptance::or_nothing(doc.attribute(reference, "URI"@)))
        + "' not referenced in SignedDataObjectProperties"@
}

/// Whether a format is for none of some references to data objects.
pub open spec fn is_for_nothing(doc: TreeView, references: Seq<int>, format: int) -> bool {
    let target = acceptance::or_nothing(doc.attribute(format, "ObjectReference"@));
    forall|k: int|
        0 <= k < references.len() ==> {
            let id = doc.attribute(#[trigger] references[k], "Id"@);
            doc.attribute(references[k], "Type"@) == Some(
                "http://uri.etsi.org/01903#SignedProperties"@,
            ) || id is None || target != seq!['#'] + id->Some_0
        }
}

proof fn lemma_lacking(doc: TreeView, formats: Seq<int>, references: Seq<int>)
    ensures
        ({
            let found = xades::references_warnings(doc, formats, references);
            let odd = references.filter(|r: int| lacks_format(doc, formats, r));
            found == odd.map_values(|r: int| lacking_text(doc, r))
        }),
    decreases references.len(),
{
    reveal(Seq::filter);
    let odd = references.filter(|r: int| lacks_format(doc, formats, r));
    if references.len() > 0 {
        let front = references.drop_last();
        lemma_lacking(doc, formats, front);
        let last = references.last();
        lemma_hash_sign();
        let target = "#"@ + acceptance::or_nothing(doc.attribute(last, "Id"@));
        if lacks_format(doc, formats, last) {
            assert(!xades::has_format(doc, formats, target));
        }
    }
    assert(xades::references_warnings(doc, formats, references) =~= odd.map_values(
        |r: int| lacking_text(doc, r),
    ));
}

proof fn lemma_hash_sign()
    ensures
        "#"@ == seq!['#'],
{
    reveal_strlit("#");
    assert("#"@ =~= seq!['#']);
}

proof fn lemma_for_nothing(doc: TreeView, references: Seq<int>, format: int)
    ensures
        is_for_nothing(doc, references, format) <==> !xades::format_resolves(
            doc,
            references,
            format,
        ),
{
    let target = acceptance::or_nothing(doc.attribute(format, "ObjectReference"@));
    if xades::format_resolves(doc, references, format) {
        let id = text::after_hash(target)->Some_0;
        acceptance::lemma_after_hash(target, id);
        let k = choose|k: int|
            0 <= k < references.len() && !xades::covers_properties(doc, #[trigger] references[k])
                && doc.attribute(references[k], "Id"@) == Some(id);
        assert(doc.attribute(references[k], "Id"@) is Some);
    }
    if !is_for_nothing(doc, references, format) {
        let k = choose|k: int|
            0 <= k < references.len() && !({
                let id = doc.attribute(#[trigger] references[k], "Id"@);
                doc.attribute(references[k], "Type"@) == Some(
                    "http://uri.etsi.org/01903#SignedProperties"@,
                ) || id is None || target != seq!['#'] + id->Some_0
            });
        let id = doc.attribute(references[k], "Id"@)->Some_0;
        acceptance::lemma_after_hash(target, id);
        assert(!xades::covers_properties(doc, references[k]));
    }
}

proof fn lemma_formats(doc: TreeView, references: Seq<int>, formats: Seq<int>)
    ensures
        ({
            let found = xades::formats_warnings(doc, references, formats);
            &&& forall|i: int|
                0 <= i < formats.len() && is_for_nothing(doc, references, #[trigger] formats[i])
                    ==> found.contains(unknown_text(doc, formats[i]))
            &&& forall|i: int|
                0 <= i < formats.len() && doc.child(
                    #[trigger] formats[i],
                    ns::XADES@,
                    "MimeType"@,
                ) is None ==> found.contains(untyped_text(doc, formats[i]))
            &&& found.len() == formats.filter(
                |f: int| is_for_nothing(doc, references, f),
            ).len() + formats.filter(
                |f: int| doc.child(f, ns::XADES@, "MimeType"@) is None,
            ).len()
        }),
    decreases formats.len(),
{
    reveal(Seq::filter);
    if formats.len() > 0 {
        let front = formats.drop_last();
        lemma_formats(doc, references, front);
        let last = formats.last();
        lemma_for_nothing(doc, references, last);
        let before = xades::formats_warnings(doc, references, front);
        let own = xades::format_warnings(doc, references, last);
        let found = xades::formats_warnings(doc, references, formats);
        assert(found == before + own);
        if is_for_nothing(doc, references, last) {
            assert(own[0] == unknown_text(doc, last));
            assert(found[before.len() as int] == own[0]);
        }
        if doc.child(last, ns::XADES@, "MimeType"@) is None {
            let k = own.len() - 1;
            assert(own[k] == untyped_text(doc, last));
            assert(found[before.len() + k] == own[k]);
        }
        assert forall|i: int|
            0 <= i < formats.len() && is_for_nothing(
                doc,
                references,
                #[trigger] formats[i],
            ) implies found.contains(unknown_text(doc, formats[i])) by {
            if i < front.len() {
                assert(front[i] == formats[i]);
                let k = before.index_of(unknown_text(doc, front[i]));
                assert(found[k] == before[k]);
            }
        }
        assert forall|i: int|
            0 <= i < formats.len() && doc.child(
                #[trigger] formats[i],
                ns::XADES@,
                "MimeType"@,
            ) is None implies found.contains(untyped_text(doc, formats[i])) by {
            if i < front.len() {
                assert(front[i] == formats[i]);
                let k = before.index_of(untyped_text(doc, front[i]));
                assert(found[k] == before[k]);
            }
        }
    }
}

/// The warning on a format that is for no data object.
pub open spec fn unknown_text(doc: TreeView, format: int) -> Seq<char> {
    "Unknown ds:Reference '"@ + text::quoted_text(
        acceptance::or_nothing(doc.attribute(format, "ObjectReference"@)),
    ) + "'"@
}

/// The warning on a format without a media type.
pub open spec fn untyped_text(doc: TreeView, format: int) -> Seq<char> {
    "No MimeType specified for '"@ + text::quoted_text(
        acceptance::or_nothing(doc.attribute(format, "ObjectReference"@)),
    ) + "'"@
}

/// The warnings on data objects are one for each reference to a data object that has no format, in
/// order, and then one for each format that is for no data object, and one for each format without
/// a media type.
pub proof fn data_objects_are_warned_about_one_by_one(
    doc: TreeView,
    sig: int,
    sp: int,
    info: int,
    held: int,
    cert: Seq<u8>,
)
    requires
        doc.child(sig, ns::DSIG@, "SignedInfo"@) == Some(info),
        doc.child(sp, ns::XADES@, "SignedSignatureProperties"@) is Some,
        doc.child(sp, ns::XADES@, "SignedDataObjectProperties"@) == Some(held),
    ensures
        ({
            let warnings = xades::signed_properties_outcome(doc, sig, sp, cert).warnings;
            let references = doc.children(info, ns::DSIG@, "Reference"@);
            let formats = doc.children(held, ns::XADES@, "DataObjectFormat"@);
            let odd = references.filter(|r: int| lacks_format(doc, formats, r));
            let n = odd.len() as int;
            let later = warnings.skip(n);
            &&& warnings.take(n) == odd.map_values(|r: int| lacking_text(doc, r))
            &&& forall|i: int|
                0 <= i < formats.len() && is_for_nothing(doc, references, #[trigger] formats[i])
                    ==> later.contains(unknown_text(doc, formats[i]))
            &&& forall|i: int|
                0 <= i < formats.len() && doc.child(
                    #[trigger] formats[i],
                    ns::XADES@,
                    "MimeType"@,
                ) is None ==> later.contains(untyped_text(doc, formats[i]))
            &&& later.len() == formats.filter(
                |f: int| is_for_nothing(doc, references, f),
            ).len() + formats.filter(
                |f: int| doc.child(f, ns::XADES@, "MimeType"@) is None,
            ).len()
        }),
{
    let warnings = xades::signed_properties_outcome(doc, sig, sp, cert).warnings;
    let references = doc.children(info, ns::DSIG@, "Reference"@);
    let formats = doc.children(held, ns::XADES@, "DataObjectFormat"@);
    lemma_lacking(doc, formats, references);
    lemma_formats(doc, references, formats);
    let first = xades::references_warnings(doc, formats, references);
    let second = xades::formats_warnings(doc, references, formats);
    let odd = references.filter(|r: int| lacks_format(doc, formats, r));
    assert(warnings == first + second);
    assert(first.len() == odd.len());
    assert(warnings.take(odd.len() as int) =~= first);
    assert(warnings.skip(odd.len() as int) =~= second);
}

/// Without a certificate the report says so, unless something else is wrong; bytes that are no
/// certificate are reported with the reason; and so are signed properties that were not found.
pub proof fn missing_parts_are_named(
    doc: TreeView,
    sig: int,
    core: CoreView,
    anchors: Seq<Seq<u8>>,
    wanted: Option<TimeView>,
    now: TimeView,
)
    ensures
        ({
            let errors = validate::signature_report(doc, sig, core, anchors, wanted, now).errors;
            &&& core.sp_node is None ==> errors.contains("SignedProperties could not be resolved"@)
            &&& core.cert_der is None && core.sp_node is Some && core.errors.len() == 0 ==> errors
                == seq!["no signer certificate"@]
            &&& core.cert_der is None && core.sp_node is Some && core.errors.len() > 0 ==> errors
                == core.errors
            &&& core.cert_der matches Some(cert) ==> (x509::certificate_parts(cert) matches Err(e)
                ==> errors.last() == "signer certificate does not parse: "@ + e)
        }),
{
    let errors = validate::signature_report(doc, sig, core, anchors, wanted, now).errors;
    if core.sp_node is None {
        assert(errors[core.errors.len() as int] == "SignedProperties could not be resolved"@);
    }
    assert(core.errors + Seq::<Seq<char>>::empty() =~= core.errors);
}

proof fn lemma_keyinfo(ders: Seq<Seq<u8>>)
    ensures
        ({
            let found = validate::keyinfo_warnings(ders);
            &&& found.len() == ders.filter(|der: Seq<u8>| !acceptance::parses(der)).len()
            &&& forall|i: int|
                0 <= i < found.len() ==> #[trigger] found[i]
                    == "KeyInfo certificate does not parse"@
        }),
    decreases ders.len(),
{
    reveal(Seq::filter);
    if ders.len() > 0 {
        lemma_keyinfo(ders.drop_last());
    }
}

/// A report on a signature without a time-stamp has the warnings on its data objects, and then one
/// for each certificate of KeyInfo that does not parse.
pub proof fn plain_report_warns(
    doc: TreeView,
    sig: int,
    core: CoreView,
    sp: int,
    cert: Seq<u8>,
    anchors: Seq<Seq<u8>>,
    wanted: Option<TimeView>,
    now: TimeView,
)
    requires
        core.sp_node == Some(sp),
        core.cert_der == Some(cert),
        acceptance::parses(cert),
        validate::signature_report(doc, sig, core, anchors, wanted, now).profile == Profile::B,
    ensures
        ({
            let warnings = validate::signature_report(
                doc,
                sig,
                core,
                anchors,
                wanted,
                now,
            ).warnings;
            let first = xades::signed_properties_outcome(doc, sig, sp, cert).warnings;
            let bad = core.extra_certs.filter(|der: Seq<u8>| !acceptance::parses(der));
            &&& warnings.len() == first.len() + bad.len()
            &&& warnings.take(first.len() as int) == first
            &&& forall|i: int|
                first.len() <= i < warnings.len() ==> #[trigger] warnings[i]
                    == "KeyInfo certificate does not parse"@
        }),
{
    lemma_keyinfo(core.extra_certs);
    let warnings = validate::signature_report(doc, sig, core, anchors, wanted, now).warnings;
    let first = xades::signed_properties_outcome(doc, sig, sp, cert).warnings;
    let own = validate::keyinfo_warnings(core.extra_certs);
    assert(warnings =~= first + own);
    assert(warnings.take(first.len() as int) =~= first);
}

/// A report on a signature with a time-stamp has the warnings on its data objects, then one for
/// each certificate of KeyInfo that does not parse, then those on its time-stamps; and last, if the
/// signature has no revocation values, that it has none.
pub proof fn stamped_report_warns(
    doc: TreeView,
    sig: int,
    core: CoreView,
    sp: int,
    qp: int,
    up: int,
    usp: int,
    cert: Seq<u8>,
    anchors: Seq<Seq<u8>>,
    wanted: Option<TimeView>,
    now: TimeView,
)
    requires
        core.sp_node == Some(sp),
        core.cert_der == Some(cert),
        acceptance::parses(cert),
        acceptance::is_holder(doc, sig, sp, qp),
        doc.child(qp, ns::XADES@, "UnsignedProperties"@) == Some(up),
        doc.child(up, ns::XADES@, "UnsignedSignatureProperties"@) == Some(usp),
        validate::signature_report(doc, sig, core, anchors, wanted, now).profile != Profile::B,
    ensures
        ({
            let report = validate::signature_report(doc, sig, core, anchors, wanted, now);
            let first = xades::signed_properties_outcome(doc, sig, sp, cert).warnings;
            let bad = core.extra_certs.filter(|der: Seq<u8>| !acceptance::parses(der));
            let stamps = ltv::timestamp_warnings(
                ltv::timestamp_outcomes(
                    doc,
                    sig,
                    doc.children(usp, ns::XADES@, "SignatureTimeStamp"@),
                    anchors,
                    acceptance::embedded(doc, usp),
                ),
            );
            let n = first.len() + bad.len();
            &&& report.warnings.take(first.len() as int) == first
            &&& forall|i: int|
                first.len() <= i < n ==> #[trigger] report.warnings[i]
                    == "KeyInfo certificate does not parse"@
            &&& report.warnings.subrange(n as int, (n + stamps.len()) as int) == stamps
            &&& report.profile == Profile::LT ==> report.warnings.len() == n + stamps.len()
            &&& report.profile == Profile::T ==> report.warnings.len() == n + stamps.len() + 1
                && report.warnings.last()
                == "T-level signature: no embedded revocation proof for the signer"@
        }),
{
    lemma_keyinfo(core.extra_certs);
    acceptance::lemma_holder(doc, sig, sp, qp);
    acceptance::lemma_held(
        doc,
        doc.descendants(usp, ns::XADES@, "EncapsulatedX509Certificate"@),
    );
    let report = validate::signature_report(doc, sig, core, anchors, wanted, now);
    let first = xades::signed_properties_outcome(doc, sig, sp, cert).warnings;
    let own = validate::keyinfo_warnings(core.extra_certs);
    let stamps = ltv::timestamp_warnings(
        ltv::timestamp_outcomes(
            doc,
            sig,
            doc.children(usp, ns::XADES@, "SignatureTimeStamp"@),
            anchors,
            acceptance::embedded(doc, usp),
        ),
    );
    let n = first.len() + own.len();
    assert(report.warnings == first + own + stamps + validate::level_warnings(report.profile));
    assert(report.warnings.take(first.len() as int) =~= first);
    assert(report.warnings.subrange(n as int, (n + stamps.len()) as int) =~= stamps);
}

/// Time-stamps that fail while another verifies are warned about, each with its number and its
/// reason; where none verifies, that is the one error, and there are no warnings.
pub proof fn failed_timestamps_are_named(outcomes: Seq<Result<TimeView, Seq<char>>>)
    ensures
        ({
            let errors = ltv::timestamp_errors(outcomes);
            let warnings = ltv::timestamp_warnings(outcomes);
            let good = exists|i: int| 0 <= i < outcomes.len() && (#[trigger] outcomes[i]) is Ok;
            &&& outcomes.len() == 0 ==> errors == seq!["missing SignatureTimeStamp"@]
            &&& errors.len() == number(!good)
            &&& !good ==> warnings.len() == 0
            &&& good ==> warnings.len() == outcomes.filter(
                |o: Result<TimeView, Seq<char>>| o is Err,
            ).len()
            &&& good ==> forall|i: int|
                0 <= i < outcomes.len() && (#[trigger] outcomes[i]) is Err ==> warnings.contains(
                    "SignatureTimeStamp "@ + text::decimal((i + 1) as nat) + (" did not verify: "@
                        + outcomes[i]->Err_0),
                )
            &&& !good ==> forall|i: int|
                0 <= i < outcomes.len() && (#[trigger] outcomes[i]) is Err ==> occurs(
                    "#"@ + text::decimal((i + 1) as nat) + (": "@ + outcomes[i]->Err_0),
                    errors[0],
                )
        }),
{
    lemma_failures(outcomes);
    ltv::earliest_is_the_minimum(outcomes);
    let errors = ltv::timestamp_errors(outcomes);
    let good = exists|i: int| 0 <= i < outcomes.len() && (#[trigger] outcomes[i]) is Ok;
    if good {
        lemma_some_proved(outcomes);
    } else if outcomes.len() > 0 {
        let head = "no SignatureTimeStamp verified ("@;
        let summary = ltv::failure_summary(outcomes);
        assert(ltv::earliest(outcomes) is None);
        assert(errors[0] == head + summary + ")"@);
        assert forall|i: int|
            0 <= i < outcomes.len() && (#[trigger] outcomes[i]) is Err implies occurs(
            "#"@ + text::decimal((i + 1) as nat) + (": "@ + outcomes[i]->Err_0),
            errors[0],
        ) by {
            let part = "#"@ + text::decimal((i + 1) as nat) + (": "@ + outcomes[i]->Err_0);
            lemma_occurs_inside(part, head, summary, ")"@);
        }
    }
}

/// Whether a text occurs in another.
pub open spec fn occurs(part: Seq<char>, whole: Seq<char>) -> bool {
    exists|p: int|
        0 <= p && p + part.len() <= whole.len() && #[trigger] whole.subrange(p, p + part.len())
            == part
}

proof fn lemma_occurs_inside(part: Seq<char>, a: Seq<char>, b: Seq<char>, c: Seq<char>)
    requires
        occurs(part, b),
    ensures
        occurs(part, a + b + c),
{
    let p = choose|p: int|
        0 <= p && p + part.len() <= b.len() && #[trigger] b.subrange(p, p + part.len()) == part;
    let q = a.len() + p;
    assert((a + b + c).subrange(q, q + part.len()) =~= part);
}

proof fn lemma_some_proved(outcomes: Seq<Result<TimeView, Seq<char>>>)
    requires
        exists|i: int| 0 <= i < outcomes.len() && (#[trigger] outcomes[i]) is Ok,
    ensures
        ltv::earliest(outcomes) is Some,
{
    ltv::earliest_is_the_minimum(outcomes);
}

proof fn lemma_failures(outcomes: Seq<Result<TimeView, Seq<char>>>)
    ensures
        ltv::failure_warnings(outcomes).len() == outcomes.filter(
            |o: Result<TimeView, Seq<char>>| o is Err,
        ).len(),
        forall|i: int|
            0 <= i < outcomes.len() && (#[trigger] outcomes[i]) is Err ==> ltv::failure_warnings(
                outcomes,
            ).contains(
                "SignatureTimeStamp "@ + text::decimal((i + 1) as nat) + (" did not verify: "@
                    + outcomes[i]->Err_0),
            ),
        forall|i: int|
            0 <= i < outcomes.len() && (#[trigger] outcomes[i]) is Err ==> occurs(
                "#"@ + text::decimal((i + 1) as nat) + (": "@ + outcomes[i]->Err_0),
                ltv::failure_summary(outcomes),
            ),
    decreases outcomes.len(),
{
    reveal(Seq::filter);
    if outcomes.len() > 0 {
        let front = outcomes.drop_last();
        lemma_failures(front);
        let found = ltv::failure_warnings(outcomes);
        let before = ltv::failure_warnings(front);
        let summary = ltv::failure_summary(outcomes);
        let rest = ltv::failure_summary(front);
        let nothing = Seq::<char>::empty();
        let tail = summary.skip(rest.len() as int);
        assert(summary =~= rest + tail);
        let n = outcomes.len();
        if let Err(e) = outcomes.last() {
            let own = "#"@ + text::decimal(n) + (": "@ + e);
            assert(found[before.len() as int] == "SignatureTimeStamp "@ + text::decimal(n) + (
            " did not verify: "@ + e));
            let q = summary.len() - own.len();
            assert(summary.subrange(q, q + own.len()) =~= own);
            assert(occurs(own, summary));
        }
        assert forall|i: int|
            0 <= i < outcomes.len() && (#[trigger] outcomes[i]) is Err implies found.contains(
            "SignatureTimeStamp "@ + text::decimal((i + 1) as nat) + (" did not verify: "@
                + outcomes[i]->Err_0),
        ) by {
            if i < front.len() {
                assert(front[i] == outcomes[i]);
                let item = "SignatureTimeStamp "@ + text::decimal((i + 1) as nat) + (
                " did not verify: "@ + front[i]->Err_0);
                let k = before.index_of(item);
                assert(found[k] == before[k]);
            }
        }
        assert forall|i: int|
            0 <= i < outcomes.len() && (#[trigger] outcomes[i]) is Err implies occurs(
            "#"@ + text::decimal((i + 1) as nat) + (": "@ + outcomes[i]->Err_0),
            summary,
        ) by {
            if i < front.len() {
                assert(front[i] == outcomes[i]);
                let part = "#"@ + text::decimal((i + 1) as nat) + (": "@ + front[i]->Err_0);
                lemma_occurs_inside(part, nothing, rest, tail);
                assert(nothing + rest + tail =~= summary);
            }
        }
    }
}

/// What is wrong with a signer's chain is said in one message: that there are no anchors, that no
/// chain can be built, or that it does not verify as of the second, with the reason. Only a time
/// that no certificate can speak of gets a message of its own.
pub proof fn chain_faults_are_named(
    leaf: Seq<u8>,
    pool: Seq<Seq<u8>>,
    anchors: Seq<Seq<u8>>,
    at: TimeView,
)
    requires
        forall|i: int| 0 <= i < anchors.len() ==> acceptance::parses(#[trigger] anchors[i]),
    ensures
        ({
            let errors = chain::chain_errors(leaf, pool, anchors, at);
            let links = chain::built_chain(leaf, pool, acceptance::names(anchors));
            let plain = 0 <= at.secs <= 253_402_300_799;
            &&& anchors.len() == 0 ==> errors == seq!["no trust anchors configured"@]
            &&& anchors.len() > 0 ==> (links matches Err(e) ==> errors == seq![
                "cannot build certificate chain: "@ + e,
            ])
            &&& anchors.len() > 0 && plain ==> (links matches Ok(list) ==> (
            chain::signer_chain_outcome(anchors, list, Some(at.secs)) matches Err(e) ==> errors
                == seq!["certificate chain validation failed: "@ + e]))
            &&& anchors.len() > 0 && links is Ok && !plain ==> errors.len() >= 1 && errors[0]
                == "validation time out of range: "@ + time::time_text(at.secs, at.nanos)
        }),
{
    acceptance::lemma_names(anchors);
    let errors = chain::chain_errors(leaf, pool, anchors, at);
    if let Ok(list) = chain::built_chain(leaf, pool, acceptance::names(anchors)) {
        if let Err(e) = chain::signer_chain_outcome(anchors, list, Some(at.secs)) {
            assert(Seq::<Seq<char>>::empty() + seq!["certificate chain validation failed: "@ + e]
                =~= seq!["certificate chain validation failed: "@ + e]);
        }
    }
}

/// What is wrong with the chain of an OCSP issuer is said in one message, with the reason; an
/// issuer that is an anchor needs no chain.
pub proof fn issuer_chain_faults_are_named(
    issuer: Seq<u8>,
    pool: Seq<Seq<u8>>,
    anchors: Seq<Seq<u8>>,
    at: TimeView,
)
    requires
        forall|i: int| 0 <= i < anchors.len() ==> acceptance::parses(#[trigger] anchors[i]),
    ensures
        ({
            let errors = chain::responder_chain_errors(issuer, pool, anchors, at);
            let links = chain::built_chain(issuer, pool, acceptance::names(anchors));
            let known = exists|i: int| 0 <= i < anchors.len() && #[trigger] anchors[i] == issuer;
            let second = if 0 <= at.secs <= 253_402_300_799 {
                Some(at.secs)
            } else {
                None
            };
            let verified = chain::issuer_chain_outcome(anchors, links->Ok_0, second);
            &&& known ==> errors.len() == 0
            &&& !known ==> (links matches Err(e) ==> errors == seq![
                "OCSP issuer: cannot build certificate chain: "@ + e,
            ])
            &&& !known && links is Ok ==> (verified matches Err(e) ==> errors == seq![
                "OCSP issuer: certificate chain validation failed: "@ + e,
            ])
            &&& !known && links is Ok && verified is Ok ==> errors.len() == 0
        }),
{
    acceptance::lemma_names(anchors);
    if exists|i: int| 0 <= i < anchors.len() && #[trigger] anchors[i] == issuer {
        assert(anchors.contains(issuer));
    }
}

/// Why a time-stamp proves nothing is said by the first thing that is wrong with it.
pub proof fn timestamp_faults_are_named(
    doc: TreeView,
    sig: int,
    tst: int,
    anchors: Seq<Seq<u8>>,
    certs: Seq<Seq<u8>>,
)
    ensures
        ({
            let outcome = ltv::timestamp_outcome(doc, sig, tst, anchors, certs);
            let stamp = doc.child(tst, ns::XADES@, "EncapsulatedTimeStamp"@);
            let token = codec::embedded_base64(doc.text(stamp->Some_0));
            let named = doc.child(tst, ns::DSIG@, "CanonicalizationMethod"@);
            let uri = doc.attribute(named->Some_0, "Algorithm"@);
            let method = if named is Some && uri is Some {
                uri->Some_0
            } else {
                "http://www.w3.org/TR/2001/REC-xml-c14n-20010315"@
            };
            let value = doc.child(sig, ns::DSIG@, "SignatureValue"@);
            let covered = doc.canonical(value->Some_0, method);
            let algorithm = ltv::token_algorithm(token->Some_0);
            let verified = ltv::verified_token(
                token->Some_0,
                ltv::hashed(algorithm->Ok_0, covered->Some_0),
                algorithm->Ok_0,
                anchors,
                certs,
            );
            let usable = stamp is Some && token is Some;
            let known = usable && C14nMethod::is_uri(method);
            let reached = known && value is Some && covered is Some;
            &&& !usable ==> outcome == Err::<TimeView, Seq<char>>(
                "SignatureTimeStamp has no usable EncapsulatedTimeStamp"@,
            )
            &&& usable && !known ==> outcome == Err::<TimeView, Seq<char>>(
                "timestamp canonicalization: "@ + method,
            )
            &&& known && value is None ==> outcome == Err::<TimeView, Seq<char>>(
                "signature has no SignatureValue"@,
            )
            &&& known && value is Some && covered is None ==> outcome == Err::<
                TimeView,
                Seq<char>,
            >("SignatureValue canonicalization failed"@)
            &&& reached ==> (algorithm matches Err(e) ==> outcome == Err::<TimeView, Seq<char>>(
                "timestamp token does not parse: "@ + e,
            ))
            &&& reached && algorithm is Ok ==> (verified matches Err(e) ==> outcome == Err::<
                TimeView,
                Seq<char>,
            >("signature timestamp invalid: "@ + e))
            &&& reached && algorithm is Ok && verified is Ok && outcome is Err ==> outcome
                == Err::<TimeView, Seq<char>>("timestamp genTime does not parse"@)
        }),
{
    lemma_default_method();
}

proof fn lemma_default_method()
    ensures
        C14nMethod::is_uri("http://www.w3.org/TR/2001/REC-xml-c14n-20010315"@),
{
}

/// One error for each embedded element that holds no certificate, before the others.
pub proof fn embedded_faults_are_named(
    doc: TreeView,
    sig: int,
    usp: int,
    leaf: CertView,
    extras: Seq<CertView>,
    anchors: Seq<Seq<u8>>,
    now: TimeView,
)
    ensures
        ({
            let errors = ltv::unsigned_outcome(doc, sig, usp, leaf, extras, anchors, now).errors;
            let nodes = doc.descendants(usp, ns::XADES@, "EncapsulatedX509Certificate"@);
            let bad = nodes.filter(|n: int| !acceptance::holds_certificate(doc, n));
            &&& errors.len() >= bad.len()
            &&& forall|i: int|
                0 <= i < bad.len() ==> #[trigger] errors[i]
                    == "unparseable encapsulated certificate"@
        }),
{
    lemma_unparseable(doc, doc.descendants(usp, ns::XADES@, "EncapsulatedX509Certificate"@));
}

proof fn lemma_unparseable(doc: TreeView, nodes: Seq<int>)
    ensures
        ({
            let found = ltv::embedded_errors(doc, nodes);
            &&& found.len() == nodes.filter(
                |n: int| !acceptance::holds_certificate(doc, n),
            ).len()
            &&& forall|i: int|
                0 <= i < found.len() ==> #[trigger] found[i]
                    == "unparseable encapsulated certificate"@
        }),
    decreases nodes.len(),
{
    reveal(Seq::filter);
    if nodes.len() > 0 {
        lemma_unparseable(doc, nodes.drop_last());
    }
}

/// What is wrong with embedded revocation data is said: that there is none where the signature has
/// revocation values, that there is more than one response, that the issuer is not at hand, that a
/// response is no base64, and what its status is if that is not good.
pub proof fn revocation_faults_are_named(
    doc: TreeView,
    sig: int,
    usp: int,
    leaf: CertView,
    extras: Seq<CertView>,
    anchors: Seq<Seq<u8>>,
    now: TimeView,
)
    ensures
        ({
            let outcome = ltv::unsigned_outcome(doc, sig, usp, leaf, extras, anchors, now);
            let errors = outcome.errors;
            let nodes = doc.descendants(usp, ns::XADES@, "EncapsulatedOCSPValue"@);
            let values = doc.child(usp, ns::XADES@, "RevocationValues"@);
            let lists = doc.child(values->Some_0, ns::XADES@, "CRLValues"@);
            let certs = ltv::embedded_pool(
                doc,
                doc.descendants(usp, ns::XADES@, "EncapsulatedX509Certificate"@),
            ) + extras;
            let known = exists|i: int|
                0 <= i < certs.len() && (#[trigger] certs[i]).subject == leaf.issuer;
            &&& nodes.len() == 0 && values is Some && lists is Some ==> errors.contains(
                "CRLs not supported"@,
            )
            &&& nodes.len() == 0 && values is Some && lists is None ==> errors.contains(
                "missing OCSP response"@,
            )
            &&& nodes.len() > 0 && !known ==> errors.contains(
                "cannot verify OCSP: issuer certificate is missing"@,
            )
            &&& nodes.len() > 1 && known ==> errors.contains(
                "multiple OCSP responses not supported"@,
            )
            &&& nodes.len() == 1 && known && codec::embedded_base64(doc.text(nodes[0])) is None
                ==> errors.contains("EncapsulatedOCSPValue is not valid base64"@)
            &&& outcome.timestamp_time matches Some(ts) ==> (outcome.ocsp_produced_at matches Some(
                made,
            ) ==> (made.secs < ts.secs || (made.secs == ts.secs && made.nanos < ts.nanos)
                ==> errors.contains(
                "OCSP proof ("@ + time::time_text(made.secs, made.nanos) + (
                ") predates the signature timestamp ("@ + time::time_text(ts.secs, ts.nanos)
                    + ")"@),
            )))
        }),
{
    let outcome = ltv::unsigned_outcome(doc, sig, usp, leaf, extras, anchors, now);
    let cert_nodes = doc.descendants(usp, ns::XADES@, "EncapsulatedX509Certificate"@);
    let pool = ltv::embedded_pool(doc, cert_nodes);
    let certs = pool + extras;
    let stamps = ltv::timestamp_outcomes(
        doc,
        sig,
        doc.children(usp, ns::XADES@, "SignatureTimeStamp"@),
        anchors,
        x509::ders(pool),
    );
    let at = match outcome.timestamp_time {
        Some(t) => t,
        None => now,
    };
    lemma_known(certs, leaf.issuer);
    let found = ltv::revocation_data_outcome(doc, usp, leaf, certs, anchors, at);
    let last = ltv::order_errors(outcome.timestamp_time, found.0);
    let n = ltv::embedded_errors(doc, cert_nodes).len() + ltv::timestamp_errors(stamps).len();
    assert(found.2.len() > 0 ==> outcome.errors[n as int] == found.2[0]);
    assert(last.len() > 0 ==> outcome.errors[(n + found.2.len()) as int] == last[0]);
}

proof fn lemma_known(certs: Seq<CertView>, name: Seq<u8>)
    ensures
        ltv::first_named(certs, name) is Some <==> exists|i: int|
            0 <= i < certs.len() && (#[trigger] certs[i]).subject == name,
    decreases certs.len(),
{
    if certs.len() > 0 {
        let rest = certs.skip(1);
        lemma_known(rest, name);
        if certs[0].subject != name {
            if exists|i: int| 0 <= i < certs.len() && (#[trigger] certs[i]).subject == name {
                let i = choose|i: int|
                    0 <= i < certs.len() && (#[trigger] certs[i]).subject == name;
                assert(rest[i - 1] == certs[i]);
            }
            if exists|i: int| 0 <= i < rest.len() && (#[trigger] rest[i]).subject == name {
                let i = choose|i: int|
                    0 <= i < rest.len() && (#[trigger] rest[i]).subject == name;
                assert(certs[i + 1] == rest[i]);
            }
        }
    }
}

/// A response whose status is not good, or that cannot be verified, is an error that says so, and
/// proves no time.
pub proof fn bad_status_is_named(
    response: Seq<u8>,
    leaf: CertView,
    issuer: CertView,
    certs: Seq<CertView>,
    anchors: Seq<Seq<u8>>,
    at: TimeView,
)
    ensures
        ({
            let outcome = ltv::response_outcome(response, leaf, issuer, certs, anchors, at);
            let status = ltv::revocation_outcome(
                response,
                leaf.der,
                issuer.der,
                None,
                at.secs,
                at.nanos,
            );
            &&& outcome.2.len() > 0 ==> outcome.0 is None && outcome.1.len() == 0
            &&& status matches Err(e) ==> outcome.2 == seq!["OCSP response: "@ + e]
            &&& status matches Ok(given) ==> (given matches Some(other) ==> outcome.2 == seq![
                "revocation status: "@ + other,
            ])
        }),
{
}

/// A document can be validated exactly if it parses, no value identifies two things in it, and it
/// holds a signature; what else it is, is said.
pub proof fn document_faults_are_named(source: Seq<char>)
    ensures
        ({
            let parsed = input::parsed_document(source);
            let doc = (TreeView { source, nodes: parsed->Ok_0 });
            let found = doc.descendants(0, ns::DSIG@, "Signature"@);
            let fault = validate::document_error(source);
            &&& fault is None <==> parsed is Ok && input::ids(
                parsed->Ok_0,
            ).no_duplicates() && found.len() > 0
            &&& parsed matches Err(e) ==> fault == Some(
                "signature document is not well-formed XML: "@ + e,
            )
            &&& parsed is Ok && input::ids(parsed->Ok_0).no_duplicates() && found.len() == 0
                ==> fault == Some("document contains no ds:Signature"@)
            &&& parsed is Ok && !input::ids(parsed->Ok_0).no_duplicates() ==> exists|
                value: Seq<char>,
            |
                input::ids(parsed->Ok_0).contains(value) && #[trigger] duplicate_text(value)
                    == fault->Some_0
        }),
{
    let parsed = input::parsed_document(source);
    if parsed is Ok {
        let list = input::ids(parsed->Ok_0);
        input::repeated_means_twice(list);
        lemma_repeated(list);
        if let Some(value) = input::first_repeated(list) {
            assert(duplicate_text(value) == "ID attributes: "@ + (
            "invalid XML structure: duplicate ID: "@ + value));
            assert(list.contains(value));
        }
    }
}

/// The error on a document in which a value identifies two things.
pub open spec fn duplicate_text(value: Seq<char>) -> Seq<char> {
    "ID attributes: "@ + ("invalid XML structure: duplicate ID: "@ + value)
}

proof fn lemma_repeated(list: Seq<Seq<char>>)
    ensures
        input::first_repeated(list) matches Some(value) ==> list.contains(value),
    decreases list.len(),
{
    if list.len() > 0 {
        let front = list.drop_last();
        lemma_repeated(front);
        if let Some(value) = input::first_repeated(front) {
            let k = front.index_of(value);
            assert(list[k] == value);
        } else if front.contains(list.last()) {
            let k = front.index_of(list.last());
            assert(list[k] == list.last());
        }
    }
}

/// Validating a document fails exactly if one of the trusted certificates is none, with the reason
/// for the first such. A document that cannot be validated gets one report that says only why.
pub proof fn validation_fails_on_bad_anchors_only(
    source: Seq<char>,
    cores: Seq<CoreView>,
    trusted: Seq<Seq<u8>>,
    wanted: Option<TimeView>,
    now: TimeView,
)
    ensures
        ({
            let outcome = validate::validation_outcome(source, cores, trusted, wanted, now);
            let all = forall|i: int|
                0 <= i < trusted.len() ==> acceptance::parses(#[trigger] trusted[i]);
            &&& outcome is Ok <==> all
            &&& forall|k: int|
                0 <= k < trusted.len() && !acceptance::parses(#[trigger] trusted[k]) && (forall|
                    i: int,
                |
                    0 <= i < k ==> acceptance::parses(#[trigger] trusted[i])) ==> outcome == Err::<
                    Seq<validate::ReportView>,
                    ErrorView,
                >(
                    ErrorView::Certificate(
                        "trust anchor: certificate parse error: DER decode failed: "@
                            + x509::certificate_parts(trusted[k])->Err_0,
                    ),
                )
            &&& all ==> (validate::document_error(source) matches Some(fault) ==> {
                let report = (outcome->Ok_0)[0];
                &&& (outcome->Ok_0).len() == 1
                &&& report.errors == seq![fault]
                &&& report.warnings.len() == 0
                &&& report.signature_id is None
                &&& report.signer_cert_der is None
                &&& report.signer_subject is None
                &&& report.claimed_signing_time is None
                &&& report.timestamp_time is None
                &&& report.ocsp_time is None
                &&& report.profile == Profile::B
            })
        }),
{
    chain::store_holds_what_was_added(trusted);
    let outcome = validate::validation_outcome(source, cores, trusted, wanted, now);
    assert forall|k: int|
        0 <= k < trusted.len() && !acceptance::parses(#[trigger] trusted[k]) && (forall|i: int|
            0 <= i < k ==> acceptance::parses(#[trigger] trusted[i])) implies outcome == Err::<
        Seq<validate::ReportView>,
        ErrorView,
    >(
        ErrorView::Certificate(
            "trust anchor: certificate parse error: DER decode failed: "@
                + x509::certificate_parts(trusted[k])->Err_0,
        ),
    ) by {
        lemma_store_fault(trusted, k);
    }
}

proof fn lemma_store_fault(trusted: Seq<Seq<u8>>, k: int)
    requires
        0 <= k < trusted.len(),
        !acceptance::parses(trusted[k]),
        forall|i: int| 0 <= i < k ==> acceptance::parses(#[trigger] trusted[i]),
    ensures
        chain::store_outcome(trusted) == Err::<Seq<Seq<u8>>, ErrorView>(
            ErrorView::Certificate(
                "trust anchor: certificate parse error: DER decode failed: "@
                    + x509::certificate_parts(trusted[k])->Err_0,
            ),
        ),
    decreases trusted.len(),
{
    let front = trusted.drop_last();
    if k < front.len() {
        assert(front[k] == trusted[k]);
        lemma_store_fault(front, k);
    } else {
        chain::store_holds_what_was_added(front);
        assert forall|i: int| 0 <= i < front.len() implies x509::is_certificate(
            #[trigger] front[i],
        ) by {
            assert(front[i] == trusted[i]);
        }
    }
}

/// A report counts in full.
pub proof fn report_counts_in_full(report: SignatureValidation)
    ensures
        report.signature_id is None <==> report@.signature_id is None,
        report.signature_id matches Some(id) ==> report@.signature_id == Some(id@),
        report@.profile == report.profile,
        report@.errors.len() == report.errors@.len(),
        forall|i: int|
            0 <= i < report.errors@.len() ==> #[trigger] report@.errors[i] == report.errors@[i]@,
        report@.warnings.len() == report.warnings@.len(),
        forall|i: int|
            0 <= i < report.warnings@.len() ==> #[trigger] report@.warnings[i]
                == report.warnings@[i]@,
        report.signer_cert_der is None <==> report@.signer_cert_der is None,
        report.signer_cert_der matches Some(der) ==> report@.signer_cert_der == Some(der@),
        report.signer_subject is None <==> report@.signer_subject is None,
        report.signer_subject matches Some(text) ==> report@.signer_subject == Some(text@),
        report.claimed_signing_time is None <==> report@.claimed_signing_time is None,
        report.claimed_signing_time matches Some(text) ==> report@.claimed_signing_time == Some(
            text@,
        ),
        report.timestamp_time is None <==> report@.timestamp_time is None,
        report.timestamp_time matches Some(t) ==> report@.timestamp_time == Some(t@),
        report.ocsp_time is None <==> report@.ocsp_time is None,
        report.ocsp_time matches Some(t) ==> report@.ocsp_time == Some(t@),
{
}

/// What verifying an XML signature gave counts in full.
pub proof fn core_outcome_counts_in_full(core: CoreOutcome)
    ensures
        core.sp_node is None <==> core@.sp_node is None,
        core.sp_node matches Some(p) ==> core@.sp_node == Some(p as int),
        core.cert_der is None <==> core@.cert_der is None,
        core.cert_der matches Some(der) ==> core@.cert_der == Some(der@),
        core@.extra_certs.len() == core.extra_certs@.len(),
        forall|i: int|
            0 <= i < core.extra_certs@.len() ==> #[trigger] core@.extra_certs[i]
                == core.extra_certs@[i]@,
        core@.errors.len() == core.errors@.len(),
        forall|i: int|
            0 <= i < core.errors@.len() ==> #[trigger] core@.errors[i] == core.errors@[i]@,
{
}

/// A signature is valid exactly if its report has no error.
pub proof fn valid_means_without_error(report: &SignatureValidation, r: bool)
    requires
        call_ensures(SignatureValidation::is_valid, (report,), r),
    ensures
        r <==> report.errors@.len() == 0,
{
}

/// A report to start with says nothing, and so has no error and the profile B.
pub proof fn first_report_is_blank(report: SignatureValidation)
    requires
        call_ensures(SignatureValidation::default, (), report),
    ensures
        report.signature_id is None,
        report.profile == Profile::B,
        report.errors@.len() == 0,
        report.warnings@.len() == 0,
        report.signer_cert_der is None,
        report.signer_subject is None,
        report.claimed_signing_time is None,
        report.timestamp_time is None,
        report.ocsp_time is None,
{
    report_counts_in_full(report);
    assert(report@ == validate::blank_report());
}

/// Every signature of a document is verified, and its own result decides its report: the trust
/// anchors and the time are those of the options.
pub proof fn validation_reports_on_every_signature<C: CoreVerifier>(
    signature_xml: &str,
    files: &[DataObject<'_>],
    options: &ValidationOptions,
    core: &C,
    now: Time,
    r: Result<Vec<SignatureValidation>, LibError>,
)
    requires
        call_ensures(validate::validate_at::<C>, (signature_xml, files, options, core, now), r),
        forall|i: int|
            0 <= i < options.trusted_certs_der@.len() ==> acceptance::parses(
                (#[trigger] options.trusted_certs_der@[i])@,
            ),
        validate::document_error(signature_xml@) is None,
    ensures
        ({
            let nodes = input::parsed_document(signature_xml@)->Ok_0;
            let doc = (TreeView { source: signature_xml@, nodes });
            let sigs = doc.descendants(0, ns::DSIG@, "Signature"@);
            let anchors = text::byte_strings(options.trusted_certs_der@);
            &&& r is Ok
            &&& r->Ok_0@.len() == sigs.len()
            &&& exists|tree: Tree, outcomes: Seq<CoreOutcome>|
                {
                    &&& tree@ == doc
                    &&& #[trigger] validate::verified_by(core, &tree, sigs, files, outcomes)
                    &&& forall|i: int|
                        0 <= i < sigs.len() ==> (#[trigger] r->Ok_0@[i])@
                            == validate::signature_report(
                            doc,
                            sigs[i],
                            outcomes[i]@,
                            anchors,
                            time::opt_time(options.validation_time),
                            now@,
                        )
                }
        }),
{
    let source = signature_xml@;
    let trusted = text::byte_strings(options.trusted_certs_der@);
    let wanted = time::opt_time(options.validation_time);
    let nodes = input::parsed_document(source)->Ok_0;
    let doc = (TreeView { source, nodes });
    let sigs = doc.descendants(0, ns::DSIG@, "Signature"@);
    chain::store_holds_what_was_added(trusted);
    assert forall|i: int| 0 <= i < trusted.len() implies x509::is_certificate(
        #[trigger] trusted[i],
    ) by {
        assert(trusted[i] == options.trusted_certs_der@[i]@);
    }
    let (tree, outcomes) = choose|tree: Tree, outcomes: Seq<CoreOutcome>| #[trigger]
        validate::core_run(core, source, trusted, files, &tree, outcomes)
            && validate::reports_result(r) == validate::validation_outcome(
            source,
            validate::core_views(outcomes),
            trusted,
            wanted,
            now@,
        );
    assert(tree@ == doc);
    let reports = validate::reports_result(r)->Ok_0;
    assert(reports.len() == r->Ok_0@.len());
    assert forall|i: int| 0 <= i < sigs.len() implies (#[trigger] r->Ok_0@[i])@
        == validate::signature_report(
        doc,
        sigs[i],
        outcomes[i]@,
        trusted,
        wanted,
        now@,
    ) by {
        assert(reports[i] == r->Ok_0@[i]@);
        assert(validate::core_views(outcomes)[i] == outcomes[i]@);
    }
    assert(validate::verified_by(core, &tree, sigs, files, outcomes));
}

/// What was found among the properties of a signature counts in full.
pub proof fn property_outcomes_count_in_full(
    signed: xades::XadesOutcome,
    unsigned: ltv::LtvOutcome,
)
    ensures
        signed@.profile == signed.profile,
        signed.claimed_signing_time is None <==> signed@.claimed_signing_time is None,
        signed.claimed_signing_time matches Some(t) ==> signed@.claimed_signing_time == Some(t@),
        signed.unsigned_node is None <==> signed@.unsigned_node is None,
        signed.unsigned_node matches Some(p) ==> signed@.unsigned_node == Some(p as int),
        signed@.errors.len() == signed.errors@.len(),
        signed@.warnings.len() == signed.warnings@.len(),
        unsigned.timestamp_time is None <==> unsigned@.timestamp_time is None,
        unsigned.timestamp_time matches Some(t) ==> unsigned@.timestamp_time == Some(t@),
        unsigned.ocsp_produced_at is None <==> unsigned@.ocsp_produced_at is None,
        unsigned.ocsp_produced_at matches Some(t) ==> unsigned@.ocsp_produced_at == Some(t@),
        unsigned@.pool.len() == unsigned.pool@.len(),
        unsigned@.errors.len() == unsigned.errors@.len(),
        unsigned@.warnings.len() == unsigned.warnings@.len(),
{
}

/// A report on a signature without a time-stamp has all errors: those of the XML signature, those
/// of the qualifying properties, and those of the signer's chain as of the asked time, or as of now
/// where none is asked for; in this order.
pub proof fn plain_report_has_all_errors(
    doc: TreeView,
    sig: int,
    core: CoreView,
    sp: int,
    cert: Seq<u8>,
    anchors: Seq<Seq<u8>>,
    wanted: Option<TimeView>,
    now: TimeView,
)
    requires
        core.sp_node == Some(sp),
        core.cert_der == Some(cert),
        acceptance::parses(cert),
        validate::signature_report(doc, sig, core, anchors, wanted, now).profile == Profile::B,
    ensures
        ({
            let report = validate::signature_report(doc, sig, core, anchors, wanted, now);
            let own = xades::signed_properties_outcome(doc, sig, sp, cert).errors;
            let pool = acceptance::certificates(core.extra_certs);
            &&& wanted matches Some(at) ==> report.errors == core.errors + own
                + chain::chain_errors(cert, pool, anchors, at)
            &&& wanted is None ==> report.errors == core.errors + own + chain::chain_errors(
                cert,
                pool,
                anchors,
                now,
            )
        }),
{
    acceptance::lemma_parseable(core.extra_certs);
    let extras = ltv::parseable(core.extra_certs);
    assert(extras + Seq::<CertView>::empty() =~= extras);
    let none = Seq::<Seq<char>>::empty();
    let own = xades::signed_properties_outcome(doc, sig, sp, cert).errors;
    assert(core.errors + own + none =~= core.errors + own);
}

/// A report on a signature with a time-stamp has all errors: those of the XML signature, those of
/// the qualifying properties, one for each embedded element that holds no certificate, those of the
/// time-stamps, of the revocation data and of their order, and those of the signer's chain as of
/// the proved time, or else the asked one, or else now; in this order.
pub proof fn stamped_report_has_all_errors(
    doc: TreeView,
    sig: int,
    core: CoreView,
    sp: int,
    qp: int,
    up: int,
    usp: int,
    cert: Seq<u8>,
    anchors: Seq<Seq<u8>>,
    wanted: Option<TimeView>,
    now: TimeView,
)
    requires
        core.sp_node == Some(sp),
        core.cert_der == Some(cert),
        acceptance::parses(cert),
        acceptance::is_holder(doc, sig, sp, qp),
        doc.child(qp, ns::XADES@, "UnsignedProperties"@) == Some(up),
        doc.child(up, ns::XADES@, "UnsignedSignatureProperties"@) == Some(usp),
        validate::signature_report(doc, sig, core, anchors, wanted, now).profile != Profile::B,
    ensures
        ({
            let report = validate::signature_report(doc, sig, core, anchors, wanted, now);
            let own = xades::signed_properties_outcome(doc, sig, sp, cert).errors;
            let leaf = x509::certificate(cert)->Ok_0;
            let extras = acceptance::parsed(acceptance::certificates(core.extra_certs));
            let nodes = doc.descendants(usp, ns::XADES@, "EncapsulatedX509Certificate"@);
            let bad = nodes.filter(|n: int| !acceptance::holds_certificate(doc, n));
            let found = acceptance::parsed(acceptance::embedded(doc, usp));
            let stamps = ltv::timestamp_outcomes(
                doc,
                sig,
                doc.children(usp, ns::XADES@, "SignatureTimeStamp"@),
                anchors,
                acceptance::embedded(doc, usp),
            );
            let proved = report.timestamp_time;
            let revocation = ltv::revocation_data_outcome(
                doc,
                usp,
                leaf,
                found + extras,
                anchors,
                if proved is Some {
                    proved->Some_0
                } else {
                    now
                },
            );
            let at = if proved is Some {
                proved->Some_0
            } else if wanted is Some {
                wanted->Some_0
            } else {
                now
            };
            let first = Seq::new(bad.len(), |i: int| "unparseable encapsulated certificate"@);
            let links = x509::ders(extras) + (x509::ders(found) + x509::ders(revocation.1));
            &&& report.ocsp_time == revocation.0
            &&& report.errors == core.errors + own + (first + ltv::timestamp_errors(stamps)
                + revocation.2 + ltv::order_errors(proved, revocation.0)) + chain::chain_errors(
                cert,
                links,
                anchors,
                at,
            )
        }),
{
    let nodes = doc.descendants(usp, ns::XADES@, "EncapsulatedX509Certificate"@);
    let bad = nodes.filter(|n: int| !acceptance::holds_certificate(doc, n));
    acceptance::lemma_holder(doc, sig, sp, qp);
    acceptance::lemma_held(doc, nodes);
    acceptance::lemma_parseable(core.extra_certs);
    lemma_unparseable(doc, nodes);
    let first = Seq::new(bad.len(), |i: int| "unparseable encapsulated certificate"@);
    assert(ltv::embedded_errors(doc, nodes) =~= first);
    let extras = ltv::parseable(core.extra_certs);
    let leaf = x509::certificate(cert)->Ok_0;
    let outcome = ltv::unsigned_outcome(doc, sig, usp, leaf, extras, anchors, now);
    let found = ltv::embedded_pool(doc, nodes);
    let at = match outcome.timestamp_time {
        Some(t) => t,
        None => now,
    };
    let more = ltv::revocation_data_outcome(doc, usp, leaf, found + extras, anchors, at).1;
    assert(outcome.pool == found + more);
    assert(x509::ders(found + more) =~= x509::ders(found) + x509::ders(more));
    assert(x509::ders(extras + outcome.pool) =~= x509::ders(extras) + x509::ders(outcome.pool));
}

/// The failures of time-stamps are listed with semicolons in between, each with the number of its
/// time-stamp; what verifies is left out. The list stands in the one error.
pub proof fn failures_are_listed(outcomes: Seq<Result<TimeView, Seq<char>>>, e: Seq<char>)
    ensures
        ({
            let item = "#"@ + text::decimal(outcomes.len() + 1) + (": "@ + e);
            let longer = outcomes.push(Err::<TimeView, Seq<char>>(e));
            let none = forall|i: int| 0 <= i < outcomes.len() ==> (#[trigger] outcomes[i]) is Ok;
            &&& none ==> ltv::failure_summary(longer) == item
            &&& !none ==> ltv::failure_summary(longer) == ltv::failure_summary(outcomes) + "; "@
                + item
            &&& forall|t: TimeView|
                #![trigger outcomes.push(Ok::<TimeView, Seq<char>>(t))]
                ltv::failure_summary(outcomes.push(Ok::<TimeView, Seq<char>>(t)))
                    == ltv::failure_summary(outcomes)
            &&& outcomes.len() > 0 && (forall|i: int|
                0 <= i < outcomes.len() ==> (#[trigger] outcomes[i]) is Err)
                ==> ltv::timestamp_errors(outcomes) == seq![
                "no SignatureTimeStamp verified ("@ + ltv::failure_summary(outcomes) + ")"@,
            ]
        }),
{
    let longer = outcomes.push(Err::<TimeView, Seq<char>>(e));
    assert(longer.drop_last() =~= outcomes);
    if forall|i: int| 0 <= i < outcomes.len() ==> (#[trigger] outcomes[i]) is Ok {
        lemma_nothing_listed(outcomes);
        assert(!ltv::failed(outcomes));
        let item = "#"@ + text::decimal(outcomes.len() + 1) + (": "@ + e);
        assert(Seq::<char>::empty() + item =~= item);
    }
    assert forall|t: TimeView|
        #![trigger outcomes.push(Ok::<TimeView, Seq<char>>(t))]
        ltv::failure_summary(outcomes.push(Ok::<TimeView, Seq<char>>(t)))
            == ltv::failure_summary(outcomes) by {
        assert(outcomes.push(Ok::<TimeView, Seq<char>>(t)).drop_last() =~= outcomes);
    }
    ltv::earliest_is_the_minimum(outcomes);
}

proof fn lemma_nothing_listed(outcomes: Seq<Result<TimeView, Seq<char>>>)
    requires
        forall|i: int| 0 <= i < outcomes.len() ==> (#[trigger] outcomes[i]) is Ok,
    ensures
        ltv::failure_summary(outcomes) == Seq::<char>::empty(),
    decreases outcomes.len(),
{
    if outcomes.len() > 0 {
        let front = outcomes.drop_last();
        assert forall|i: int| 0 <= i < front.len() implies (#[trigger] front[i]) is Ok by {
            assert(front[i] == outcomes[i]);
        }
        lemma_nothing_listed(front);
        assert(outcomes[outcomes.len() - 1] is Ok);
    }
}

/// The certificates of an OCSP response are held against the issuer one by one, in order: only one
/// that bears the issuer's name without being the issuer's own has to chain to an anchor.
pub proof fn namesakes_are_checked_one_by_one(
    first: Seq<CertView>,
    second: Seq<CertView>,
    cert: CertView,
    issuer: CertView,
    pool: Seq<Seq<u8>>,
    anchors: Seq<Seq<u8>>,
    at: TimeView,
)
    ensures
        ltv::namesake_errors(first + second, issuer, pool, anchors, at) == ltv::namesake_errors(
            first,
            issuer,
            pool,
            anchors,
            at,
        ) + ltv::namesake_errors(second, issuer, pool, anchors, at),
        cert.subject == issuer.subject && cert.der != issuer.der ==> ltv::namesake_errors(
            seq![cert],
            issuer,
            pool,
            anchors,
            at,
        ) == chain::responder_chain_errors(cert.der, pool, anchors, at),
        cert.subject != issuer.subject || cert.der == issuer.der ==> ltv::namesake_errors(
            seq![cert],
            issuer,
            pool,
            anchors,
            at,
        ).len() == 0,
    decreases second.len(),
{
    if second.len() == 0 {
        assert(first + second =~= first);
        assert(ltv::namesake_errors(first, issuer, pool, anchors, at) + ltv::namesake_errors(
            second,
            issuer,
            pool,
            anchors,
            at,
        ) =~= ltv::namesake_errors(first, issuer, pool, anchors, at));
    } else {
        let front = second.drop_last();
        namesakes_are_checked_one_by_one(first, front, cert, issuer, pool, anchors, at);
        assert((first + second).drop_last() =~= first + front);
        assert(ltv::namesake_errors(first + second, issuer, pool, anchors, at)
            =~= ltv::namesake_errors(first, issuer, pool, anchors, at) + ltv::namesake_errors(
            second,
            issuer,
            pool,
            anchors,
            at,
        ));
    }
    reveal_with_fuel(ltv::namesake_errors, 2);
    assert(seq![cert].drop_last() =~= Seq::<CertView>::empty());
    let own = chain::responder_chain_errors(cert.der, pool, anchors, at);
    assert(Seq::<Seq<char>>::empty() + own =~= own);
}

/// A response with a good status has all errors of the chains of its issuer and of its namesakes;
/// without any it proves the time that it gives, and adds its certificates.
pub proof fn good_response_is_held_to_its_chains(
    response: Seq<u8>,
    leaf: CertView,
    issuer: CertView,
    certs: Seq<CertView>,
    anchors: Seq<Seq<u8>>,
    at: TimeView,
)
    requires
        ltv::revocation_outcome(response, leaf.der, issuer.der, None, at.secs, at.nanos) == Ok::<
            Option<Seq<char>>,
            Seq<char>,
        >(None),
    ensures
        ({
            let outcome = ltv::response_outcome(response, leaf, issuer, certs, anchors, at);
            let content = ltv::response_content(response);
            let own = if content is Some {
                acceptance::parsed(acceptance::certificates((content->Some_0).1))
            } else {
                Seq::empty()
            };
            let pool = x509::ders(certs) + x509::ders(own);
            &&& outcome.2 == chain::responder_chain_errors(issuer.der, pool, anchors, at)
                + ltv::namesake_errors(own, issuer, pool, anchors, at)
            &&& outcome.2.len() > 0 ==> outcome.0 is None && outcome.1.len() == 0
            &&& outcome.2.len() == 0 ==> outcome.1 == own
            &&& outcome.2.len() == 0 && content is None ==> outcome.0 is None
            &&& outcome.2.len() == 0 && content is Some ==> outcome.0 == Some(
                TimeView { secs: (content->Some_0).0.0, nanos: (content->Some_0).0.1 },
            )
        }),
{
    if let Some(content) = ltv::response_content(response) {
        acceptance::lemma_parseable(content.1);
    }
    let own = ltv::accepted_response(response).1;
    assert(x509::ders(certs + own) =~= x509::ders(certs) + x509::ders(own));
}

/// Formats are warned about one by one, in order: first that they are for nothing, then that they
/// have no media type.
pub proof fn formats_are_warned_about_in_order(
    doc: TreeView,
    references: Seq<int>,
    first: Seq<int>,
    second: Seq<int>,
    format: int,
)
    ensures
        xades::formats_warnings(doc, references, first + second) == xades::formats_warnings(
            doc,
            references,
            first,
        ) + xades::formats_warnings(doc, references, second),
        ({
            let own = xades::formats_warnings(doc, references, seq![format]);
            let lost = is_for_nothing(doc, references, format);
            let untyped = doc.child(format, ns::XADES@, "MimeType"@) is None;
            &&& own.len() == number(lost) + number(untyped)
            &&& lost ==> own[0] == unknown_text(doc, format)
            &&& untyped ==> own.last() == untyped_text(doc, format)
        }),
    decreases second.len(),
{
    let before = xades::formats_warnings(doc, references, first);
    if second.len() == 0 {
        assert(first + second =~= first);
        assert(before + xades::formats_warnings(doc, references, second) =~= before);
    } else {
        let front = second.drop_last();
        formats_are_warned_about_in_order(doc, references, first, front, format);
        assert((first + second).drop_last() =~= first + front);
        assert(xades::formats_warnings(doc, references, first + second) =~= before
            + xades::formats_warnings(doc, references, second));
    }
    lemma_for_nothing(doc, references, format);
    reveal_with_fuel(xades::formats_warnings, 2);
    assert(seq![format].drop_last() =~= Seq::<int>::empty());
    let own = xades::format_warnings(doc, references, format);
    assert(Seq::<Seq<char>>::empty() + own =~= own);
}

} // verus!
