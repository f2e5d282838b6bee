//! What holds of every validation.
use vstd::prelude::*;

use crate::chain;
use crate::codec;
use crate::crypto::digest;
use crate::error::LibError;
use crate::ns;
use crate::text;
use crate::time;
use crate::time::{Time, TimeView};
use crate::validate;
use crate::validate::ltv;
use crate::validate::xades;
use crate::validate::{CoreOutcome, CoreVerifier, CoreView, Profile};
use crate::validate::{SignatureValidation, ValidationOptions};
use crate::x509;
use crate::x509::CertView;
use crate::xml::input;
use crate::xml::tree::{Tree, TreeView};
use crate::DataObject;

verus! {

/// What is wrong with the XML signature itself is always reported, before anything else.
pub proof fn core_errors_are_kept(
    doc: TreeView,
    sig: int,
    core: CoreView,
    anchors: Seq<Seq<u8>>,
    wanted: Option<TimeView>,
    now: TimeView,
)
    ensures
        core.errors.is_prefix_of(
            validate::signature_report(doc, sig, core, anchors, wanted, now).errors,
        ),
        core.errors.len() > 0 ==> !validate::signature_report(
            doc,
            sig,
            core,
            anchors,
            wanted,
            now,
        ).is_valid(),
{
    let errors = validate::signature_report(doc, sig, core, anchors, wanted, now).errors;
    assert(core.errors =~= errors.take(core.errors.len() as int));
}

/// A signature whose signed properties cannot be resolved is never valid.
pub proof fn unresolved_properties_are_invalid(
    doc: TreeView,
    sig: int,
    core: CoreView,
    anchors: Seq<Seq<u8>>,
    wanted: Option<TimeView>,
    now: TimeView,
)
    requires
        core.sp_node is None,
    ensures
        !validate::signature_report(doc, sig, core, anchors, wanted, now).is_valid(),
{
}

/// Without trust anchors no signature is valid.
pub proof fn no_anchors_no_validity(
    doc: TreeView,
    sig: int,
    core: CoreView,
    wanted: Option<TimeView>,
    now: TimeView,
)
    ensures
        !validate::signature_report(doc, sig, core, Seq::empty(), wanted, now).is_valid(),
{
}

/// The certificates that a signature brings along: those from KeyInfo, and those from its unsigned
/// properties where the profile calls for them.
pub open spec fn known_certificates(
    doc: TreeView,
    sig: int,
    core: CoreView,
    leaf: CertView,
    anchors: Seq<Seq<u8>>,
    now: TimeView,
) -> Seq<CertView> {
    let extras = ltv::parseable(core.extra_certs);
    let found = validate::properties_of(doc, sig, core);
    extras + match validate::unsigned_of(doc, sig, found, leaf, extras, anchors, now) {
        Some(u) => u.pool,
        None => Seq::empty(),
    }
}

/// The signer's certificate of a valid signature parses and chains to an anchor, as of the proved
/// time of the signature, or else the time that was asked for, or else the current time.
pub proof fn valid_signer_chains_to_an_anchor(
    doc: TreeView,
    sig: int,
    core: CoreView,
    anchors: Seq<Seq<u8>>,
    wanted: Option<TimeView>,
    now: TimeView,
)
    requires
        validate::signature_report(doc, sig, core, anchors, wanted, now).is_valid(),
    ensures
        ({
            let report = validate::signature_report(doc, sig, core, anchors, wanted, now);
            let at = validate::validation_instant(report.timestamp_time, wanted, now);
            let leaf = x509::certificate(core.cert_der->Some_0);
            let pool = x509::ders(
                known_certificates(doc, sig, core, leaf->Ok_0, anchors, now),
            );
            let links = chain::built_chain(leaf->Ok_0.der, pool, chain::subjects(anchors));
            &&& core.cert_der is Some
            &&& anchors.len() > 0
            &&& leaf is Ok
            &&& links is Ok
            &&& at.der_seconds() is Some
            &&& chain::signer_chain_outcome(anchors, links->Ok_0, at.der_seconds()) is Ok
        }),
{
    let leaf = x509::certificate(core.cert_der->Some_0);
    let report = validate::signature_report(doc, sig, core, anchors, wanted, now);
    let at = validate::validation_instant(report.timestamp_time, wanted, now);
    let pool = x509::ders(known_certificates(doc, sig, core, leaf->Ok_0, anchors, now));
    assert(chain::chain_errors(leaf->Ok_0.der, pool, anchors, at).len() == 0);
}

/// A valid signature is bound to its certificate: the signed properties hold a digest of it by an
/// accepted method.
pub proof fn valid_signature_binds_its_certificate(
    doc: TreeView,
    sig: int,
    core: CoreView,
    anchors: Seq<Seq<u8>>,
    wanted: Option<TimeView>,
    now: TimeView,
)
    requires
        validate::signature_report(doc, sig, core, anchors, wanted, now).is_valid(),
    ensures
        ({
            let ssp = doc.child(
                core.sp_node->Some_0,
                ns::XADES@,
                "SignedSignatureProperties"@,
            );
            let cert_node = doc.child_of(
                xades::certificate_property(doc, ssp->Some_0),
                ns::XADES@,
                "Cert"@,
            );
            let digest_node = doc.child(cert_node->Some_0, ns::XADES@, "CertDigest"@);
            let method = xades::certificate_digest_method(doc, digest_node);
            &&& core.sp_node is Some
            &&& core.cert_der is Some
            &&& ssp is Some
            &&& cert_node is Some
            &&& digest::is_allowed(method)
            &&& xades::certificate_digest_value(doc, digest_node) is Some
            &&& digest::digest_outcome(method, core.cert_der->Some_0) == Ok::<
                Seq<u8>,
                Seq<char>,
            >(xades::certificate_digest_value(doc, digest_node)->Some_0)
        }),
{
    let found = validate::properties_of(doc, sig, core);
    assert(found->Some_0.errors.len() == 0);
}

/// A valid signature names itself as the target of its qualifying properties, and claims a
/// well-formed signing time.
pub proof fn valid_signature_has_sound_properties(
    doc: TreeView,
    sig: int,
    core: CoreView,
    anchors: Seq<Seq<u8>>,
    wanted: Option<TimeView>,
    now: TimeView,
)
    requires
        validate::signature_report(doc, sig, core, anchors, wanted, now).is_valid(),
    ensures
        ({
            let report = validate::signature_report(doc, sig, core, anchors, wanted, now);
            let qp = xades::qualifying_node(doc, sig, core.sp_node->Some_0);
            &&& core.sp_node is Some
            &&& qp is Some
            &&& xades::target_matches(doc, sig, qp->Some_0)
            &&& report.claimed_signing_time is Some
            &&& xades::is_rfc3339(report.claimed_signing_time->Some_0)
        }),
{
    let found = validate::properties_of(doc, sig, core);
    assert(found->Some_0.errors.len() == 0);
}

/// Only signatures with a time-stamp have a proved time, and a valid one of that profile has one.
pub proof fn profile_and_proved_time(
    doc: TreeView,
    sig: int,
    core: CoreView,
    anchors: Seq<Seq<u8>>,
    wanted: Option<TimeView>,
    now: TimeView,
)
    ensures
        ({
            let report = validate::signature_report(doc, sig, core, anchors, wanted, now);
            &&& report.timestamp_time is Some ==> validate::has_timestamp(report.profile)
            &&& report.is_valid() && validate::has_timestamp(report.profile)
                ==> report.timestamp_time is Some
        }),
{
    let report = validate::signature_report(doc, sig, core, anchors, wanted, now);
    let found = validate::properties_of(doc, sig, core);
    if validate::has_timestamp(report.profile) && report.is_valid() {
        let leaf = x509::certificate(core.cert_der->Some_0)->Ok_0;
        let extras = ltv::parseable(core.extra_certs);
        lemma_profile_has_node(doc, sig, core);
        let unsigned = found->Some_0.unsigned_node->Some_0;
        ltv::unproved_time_is_an_error(doc, sig, unsigned, leaf, extras, anchors, now);
    }
}

proof fn lemma_profile_has_node(doc: TreeView, sig: int, core: CoreView)
    requires
        validate::properties_of(doc, sig, core) is Some,
        validate::has_timestamp(validate::properties_of(doc, sig, core)->Some_0.profile),
    ensures
        validate::properties_of(doc, sig, core)->Some_0.unsigned_node is Some,
{
}

/// Whether a time-stamp proves a time: its token is over the signature value, its signer chains to
/// an anchor, and its time is that time.
pub open spec fn proves(
    doc: TreeView,
    sig: int,
    tst: int,
    anchors: Seq<Seq<u8>>,
    certs: Seq<Seq<u8>>,
    time: TimeView,
) -> bool {
    let token = ltv::token_of(doc, tst);
    let method = ltv::timestamp_method(doc, tst);
    let covered = ltv::timestamped_bytes(doc, sig, method->Ok_0);
    let algorithm = ltv::token_algorithm(token->Some_0);
    let verified = ltv::verified_token(
        token->Some_0,
        ltv::hashed(algorithm->Ok_0, covered->Ok_0),
        algorithm->Ok_0,
        anchors,
        certs,
    );
    &&& token is Some
    &&& method is Ok
    &&& covered is Ok
    &&& algorithm is Ok
    &&& verified is Ok
    &&& ltv::content_time(verified->Ok_0) == Some(time)
}

/// The proved time of a signature is the one that a time-stamp among its unsigned properties
/// proves, and no other of them proves an earlier one.
pub proof fn proved_time_has_a_token(
    doc: TreeView,
    sig: int,
    core: CoreView,
    anchors: Seq<Seq<u8>>,
    wanted: Option<TimeView>,
    now: TimeView,
)
    requires
        validate::signature_report(
            doc,
            sig,
            core,
            anchors,
            wanted,
            now,
        ).timestamp_time is Some,
    ensures
        ({
            let report = validate::signature_report(doc, sig, core, anchors, wanted, now);
            let time = report.timestamp_time->Some_0;
            let unsigned = xades::unsigned_node(doc, sig, core.sp_node->Some_0)->Some_0;
            let stamps = doc.children(unsigned, ns::XADES@, "SignatureTimeStamp"@);
            let certs = x509::ders(
                ltv::embedded_pool(
                    doc,
                    doc.descendants(unsigned, ns::XADES@, "EncapsulatedX509Certificate"@),
                ),
            );
            &&& exists|i: int|
                0 <= i < stamps.len() && proves(
                    doc,
                    sig,
                    #[trigger] stamps[i],
                    anchors,
                    certs,
                    time,
                )
            &&& forall|i: int, other: TimeView|
                0 <= i < stamps.len() && #[trigger] proves(
                    doc,
                    sig,
                    stamps[i],
                    anchors,
                    certs,
                    other,
                ) ==> !other.before(time)
        }),
{
    let report = validate::signature_report(doc, sig, core, anchors, wanted, now);
    let time = report.timestamp_time->Some_0;
    let unsigned = xades::unsigned_node(doc, sig, core.sp_node->Some_0)->Some_0;
    let stamps = doc.children(unsigned, ns::XADES@, "SignatureTimeStamp"@);
    let certs = x509::ders(
        ltv::embedded_pool(
            doc,
            doc.descendants(unsigned, ns::XADES@, "EncapsulatedX509Certificate"@),
        ),
    );
    let outcomes = ltv::timestamp_outcomes(doc, sig, stamps, anchors, certs);
    ltv::earliest_is_the_minimum(outcomes);
    let k = choose|k: int|
        0 <= k < outcomes.len() && #[trigger] outcomes[k] == Ok::<TimeView, Seq<char>>(time);
    assert(proves(doc, sig, stamps[k], anchors, certs, time));
    assert forall|i: int, other: TimeView|
        0 <= i < stamps.len() && #[trigger] proves(
            doc,
            sig,
            stamps[i],
            anchors,
            certs,
            other,
        ) implies !other.before(time) by {
        assert(outcomes[i] == Ok::<TimeView, Seq<char>>(other));
    }
}

/// A valid signature of the LT profile has exactly one OCSP response, which calls the signer's
/// certificate good as of the proved time, was not produced before it, and whose issuer chains to
/// an anchor; and so does every certificate in the response that bears the issuer's name.
pub proof fn valid_lt_has_a_good_response(
    doc: TreeView,
    sig: int,
    core: CoreView,
    anchors: Seq<Seq<u8>>,
    wanted: Option<TimeView>,
    now: TimeView,
)
    requires
        validate::signature_report(doc, sig, core, anchors, wanted, now).profile == Profile::LT,
        validate::signature_report(doc, sig, core, anchors, wanted, now).is_valid(),
    ensures
        ({
            let report = validate::signature_report(doc, sig, core, anchors, wanted, now);
            let leaf = x509::certificate(core.cert_der->Some_0)->Ok_0;
            let unsigned = xades::unsigned_node(doc, sig, core.sp_node->Some_0)->Some_0;
            let nodes = doc.descendants(unsigned, ns::XADES@, "EncapsulatedOCSPValue"@);
            let certs = ltv::embedded_pool(
                doc,
                doc.descendants(unsigned, ns::XADES@, "EncapsulatedX509Certificate"@),
            ) + ltv::parseable(core.extra_certs);
            let issuer = ltv::first_named(certs, leaf.issuer);
            let response = codec::embedded_base64(doc.text(nodes[0]));
            let at = report.timestamp_time;
            &&& at is Some
            &&& nodes.len() == 1
            &&& issuer is Some
            &&& response is Some
            &&& ltv::revocation_outcome(
                response->Some_0,
                leaf.der,
                issuer->Some_0.der,
                None,
                at->Some_0.secs,
                at->Some_0.nanos,
            ) == Ok::<Option<Seq<char>>, Seq<char>>(None)
            &&& report.ocsp_time matches Some(produced) ==> !produced.before(at->Some_0)
            &&& chain::responder_chain_errors(
                issuer->Some_0.der,
                ltv::responder_pool(response->Some_0, certs),
                anchors,
                at->Some_0,
            ).len() == 0
            &&& forall|i: int|
                0 <= i < ltv::accepted_response(response->Some_0).1.len() && (
                #[trigger] ltv::accepted_response(response->Some_0).1[i]).subject
                    == issuer->Some_0.subject ==> {
                    let namesake = ltv::accepted_response(response->Some_0).1[i].der;
                    namesake == issuer->Some_0.der || chain::responder_chain_errors(
                        namesake,
                        ltv::responder_pool(response->Some_0, certs),
                        anchors,
                        at->Some_0,
                    ).len() == 0
                }
        }),
{
    profile_and_proved_time(doc, sig, core, anchors, wanted, now);
    lemma_profile_has_node(doc, sig, core);
    let found = validate::properties_of(doc, sig, core);
    let leaf = x509::certificate(core.cert_der->Some_0)->Ok_0;
    let extras = ltv::parseable(core.extra_certs);
    let unsigned = found->Some_0.unsigned_node->Some_0;
    let outcome = ltv::unsigned_outcome(doc, sig, unsigned, leaf, extras, anchors, now);
    assert(outcome.errors.len() == 0);
    assert(ltv::order_errors(outcome.timestamp_time, outcome.ocsp_produced_at).len() == 0);
    assert(doc.child(unsigned, ns::XADES@, "RevocationValues"@) is Some);
    let certs = ltv::embedded_pool(
        doc,
        doc.descendants(unsigned, ns::XADES@, "EncapsulatedX509Certificate"@),
    ) + extras;
    let nodes = doc.descendants(unsigned, ns::XADES@, "EncapsulatedOCSPValue"@);
    let response = codec::embedded_base64(doc.text(nodes[0]))->Some_0;
    ltv::no_forged_namesake(
        ltv::accepted_response(response).1,
        ltv::first_named(certs, leaf.issuer)->Some_0,
        ltv::responder_pool(response, certs),
        anchors,
        outcome.timestamp_time->Some_0,
    );
}

/// An OCSP response whose issuer does not chain to an anchor proves no time, and is an error.
pub proof fn unchained_response_proves_nothing(
    response: Seq<u8>,
    leaf: CertView,
    issuer: CertView,
    certs: Seq<CertView>,
    anchors: Seq<Seq<u8>>,
    at: TimeView,
)
    requires
        chain::responder_chain_errors(
            issuer.der,
            ltv::responder_pool(response, certs),
            anchors,
            at,
        ).len() > 0,
    ensures
        ({
            let outcome = ltv::response_outcome(response, leaf, issuer, certs, anchors, at);
            &&& outcome.0 is None
            &&& outcome.1.len() == 0
            &&& outcome.2.len() > 0
        }),
{
}

/// Where a time is asked for, and every time-stamp that the profile calls for is proved, the
/// current time does not matter.
pub proof fn asked_time_fixes_the_report(
    doc: TreeView,
    sig: int,
    core: CoreView,
    anchors: Seq<Seq<u8>>,
    wanted: TimeView,
    now: TimeView,
    later: TimeView,
)
    requires
        ({
            let report = validate::signature_report(doc, sig, core, anchors, Some(wanted), now);
            report.profile == Profile::B || report.timestamp_time is Some
        }),
    ensures
        validate::signature_report(doc, sig, core, anchors, Some(wanted), now)
            == validate::signature_report(doc, sig, core, anchors, Some(wanted), later),
{
}

/// A proved time alone decides as of when the signer's certificate is checked.
pub proof fn proved_time_decides(
    doc: TreeView,
    sig: int,
    core: CoreView,
    anchors: Seq<Seq<u8>>,
    wanted: Option<TimeView>,
    other: Option<TimeView>,
    now: TimeView,
    later: TimeView,
)
    requires
        validate::signature_report(
            doc,
            sig,
            core,
            anchors,
            wanted,
            now,
        ).timestamp_time is Some,
    ensures
        validate::signature_report(doc, sig, core, anchors, wanted, now)
            == validate::signature_report(doc, sig, core, anchors, other, later),
{
}

/// Asking for no time is asking for the current one.
pub proof fn no_asked_time_is_now(
    doc: TreeView,
    sig: int,
    core: CoreView,
    anchors: Seq<Seq<u8>>,
    now: TimeView,
)
    ensures
        validate::signature_report(doc, sig, core, anchors, None, now)
            == validate::signature_report(doc, sig, core, anchors, Some(now), now),
{
}

/// Validating a document without asking for a time is validating it as of the current one.
pub proof fn validating_now_is_the_default(
    source: Seq<char>,
    cores: Seq<CoreView>,
    trusted: Seq<Seq<u8>>,
    now: TimeView,
)
    ensures
        validate::validation_outcome(source, cores, trusted, None, now)
            == validate::validation_outcome(source, cores, trusted, Some(now), now),
{
    let by_default = validate::validation_outcome(source, cores, trusted, None, now);
    let as_of_now = validate::validation_outcome(source, cores, trusted, Some(now), now);
    if by_default is Ok {
        assert forall|i: int| 0 <= i < by_default->Ok_0.len() implies #[trigger] by_default->Ok_0[i]
            == as_of_now->Ok_0[i] by {
            if validate::document_error(source) is None {
                let nodes = input::parsed_document(source)->Ok_0;
                let doc = (TreeView { source, nodes });
                let sigs = validate::signatures(source, nodes);
                let anchors = chain::store_outcome(trusted)->Ok_0;
                no_asked_time_is_now(doc, sigs[i], cores[i], anchors, now);
            }
        }
        assert(by_default->Ok_0 =~= as_of_now->Ok_0);
    }
}

/// Of two validations of a document that differ in the asked time only, a signature with a proved
/// time gets the same report from both.
pub proof fn asked_time_leaves_proved_times(
    source: Seq<char>,
    cores: Seq<CoreView>,
    trusted: Seq<Seq<u8>>,
    wanted: Option<TimeView>,
    other: Option<TimeView>,
    now: TimeView,
    i: int,
)
    requires
        chain::store_outcome(trusted) is Ok,
        0 <= i < validate::validation_outcome(source, cores, trusted, wanted, now)->Ok_0.len(),
        validate::validation_outcome(
            source,
            cores,
            trusted,
            wanted,
            now,
        )->Ok_0[i].timestamp_time is Some,
    ensures
        validate::validation_outcome(source, cores, trusted, wanted, now)->Ok_0[i]
            == validate::validation_outcome(source, cores, trusted, other, now)->Ok_0[i],
{
    if validate::document_error(source) is None {
        let nodes = input::parsed_document(source)->Ok_0;
        let doc = (TreeView { source, nodes });
        let sigs = validate::signatures(source, nodes);
        let anchors = chain::store_outcome(trusted)->Ok_0;
        proved_time_decides(doc, sigs[i], cores[i], anchors, wanted, other, now, now);
    }
}

/// A steady verifier gives the same for the same document and data files.
proof fn lemma_steady_runs<C: CoreVerifier>(
    core: &C,
    source: Seq<char>,
    trusted: Seq<Seq<u8>>,
    files: &[DataObject<'_>],
    first: Tree,
    a: Seq<CoreOutcome>,
    second: Tree,
    b: Seq<CoreOutcome>,
)
    requires
        validate::is_steady(core),
        validate::core_run(core, source, trusted, files, &first, a),
        validate::core_run(core, source, trusted, files, &second, b),
        chain::store_outcome(trusted) is Ok,
        validate::document_error(source) is None,
    ensures
        validate::core_views(a) == validate::core_views(b),
{
    let nodes = input::parsed_document(source)->Ok_0;
    let sigs = validate::signatures(source, nodes);
    assert forall|i: int| 0 <= i < a.len() implies (#[trigger] a[i])@ == b[i]@ by {
        let sig = sigs[i] as usize;
        assert(call_ensures(C::verify_core, (core, &first, sig, files), a[i]));
        assert(call_ensures(C::verify_core, (core, &second, sig, files), b[i]));
    }
    assert(validate::core_views(a) =~= validate::core_views(b));
}

/// Of two validations with a steady verifier that differ in the asked time only, a signature with a
/// proved time gets the same report from both; and where one asks for no time and the other for the
/// current one, all reports are the same.
pub proof fn two_validations_agree<C: CoreVerifier>(
    signature_xml: &str,
    files: &[DataObject<'_>],
    options: &ValidationOptions,
    other: &ValidationOptions,
    core: &C,
    now: Time,
    r: Result<Vec<SignatureValidation>, LibError>,
    s: Result<Vec<SignatureValidation>, LibError>,
)
    requires
        validate::is_steady(core),
        text::byte_strings(options.trusted_certs_der@) == text::byte_strings(
            other.trusted_certs_der@,
        ),
        call_ensures(validate::validate_at::<C>, (signature_xml, files, options, core, now), r),
        call_ensures(validate::validate_at::<C>, (signature_xml, files, other, core, now), s),
    ensures
        match (validate::reports_result(r), validate::reports_result(s)) {
            (Ok(reports), Ok(others)) => {
                &&& reports.len() == others.len()
                &&& forall|i: int|
                    0 <= i < reports.len() && (#[trigger] reports[i]).timestamp_time is Some
                        ==> reports[i] == others[i]
                &&& options.validation_time is None && time::opt_time(other.validation_time)
                    == Some(now@) ==> reports == others
            },
            (Err(error), Err(same)) => error == same,
            _ => false,
        },
{
    let source = signature_xml@;
    let trusted = text::byte_strings(options.trusted_certs_der@);
    let wanted = time::opt_time(options.validation_time);
    let asked = time::opt_time(other.validation_time);
    let (first, a) = choose|doc: Tree, outcomes: Seq<CoreOutcome>| #[trigger]
        validate::core_run(core, source, trusted, files, &doc, outcomes)
            && validate::reports_result(r) == validate::validation_outcome(
            source,
            validate::core_views(outcomes),
            trusted,
            wanted,
            now@,
        );
    let (second, b) = choose|doc: Tree, outcomes: Seq<CoreOutcome>| #[trigger]
        validate::core_run(core, source, trusted, files, &doc, outcomes)
            && validate::reports_result(s) == validate::validation_outcome(
            source,
            validate::core_views(outcomes),
            trusted,
            asked,
            now@,
        );
    if chain::store_outcome(trusted) is Ok && validate::document_error(source) is None {
        lemma_steady_runs(core, source, trusted, files, first, a, second, b);
        let cores = validate::core_views(a);
        let reports = validate::reports_result(r)->Ok_0;
        assert forall|i: int|
            0 <= i < reports.len() && (
            #[trigger] reports[i]).timestamp_time is Some implies reports[i]
            == validate::reports_result(s)->Ok_0[i] by {
            asked_time_leaves_proved_times(source, cores, trusted, wanted, asked, now@, i);
        }
        validating_now_is_the_default(source, cores, trusted, now@);
    }
}

/// Without trust anchors no report on a document is valid.
pub proof fn no_anchors_no_valid_report(
    source: Seq<char>,
    cores: Seq<CoreView>,
    wanted: Option<TimeView>,
    now: TimeView,
)
    ensures
        ({
            let outcome = validate::validation_outcome(source, cores, Seq::empty(), wanted, now);
            &&& outcome is Ok
            &&& forall|i: int|
                0 <= i < outcome->Ok_0.len() ==> !(#[trigger] outcome->Ok_0[i]).is_valid()
        }),
{
    let outcome = validate::validation_outcome(source, cores, Seq::empty(), wanted, now);
    assert forall|i: int| 0 <= i < outcome->Ok_0.len() implies !(
    #[trigger] outcome->Ok_0[i]).is_valid() by {
        if validate::document_error(source) is None {
            let nodes = input::parsed_document(source)->Ok_0;
            let doc = (TreeView { source, nodes });
            let sigs = validate::signatures(source, nodes);
            no_anchors_no_validity(doc, sigs[i], cores[i], wanted, now);
        }
    }
}

/// A document that cannot be validated gets exactly one report, and that report is not valid.
pub proof fn unusable_document_is_invalid(
    source: Seq<char>,
    cores: Seq<CoreView>,
    trusted: Seq<Seq<u8>>,
    wanted: Option<TimeView>,
    now: TimeView,
)
    requires
        chain::store_outcome(trusted) is Ok,
        validate::document_error(source) is Some,
    ensures
        ({
            let outcome = validate::validation_outcome(source, cores, trusted, wanted, now);
            &&& outcome is Ok
            &&& outcome->Ok_0.len() == 1
            &&& !outcome->Ok_0[0].is_valid()
        }),
{
}

/// A document in which one value identifies two things gets exactly one report, and that report is
/// not valid.
pub proof fn repeated_id_is_invalid(
    source: Seq<char>,
    cores: Seq<CoreView>,
    trusted: Seq<Seq<u8>>,
    wanted: Option<TimeView>,
    now: TimeView,
)
    requires
        chain::store_outcome(trusted) is Ok,
        input::parsed_document(source) is Ok,
        !input::ids(input::parsed_document(source)->Ok_0).no_duplicates(),
    ensures
        ({
            let outcome = validate::validation_outcome(source, cores, trusted, wanted, now);
            &&& outcome is Ok
            &&& outcome->Ok_0.len() == 1
            &&& !outcome->Ok_0[0].is_valid()
        }),
{
    input::repeated_means_twice(input::ids(input::parsed_document(source)->Ok_0));
    unusable_document_is_invalid(source, cores, trusted, wanted, now);
}

/// Every signature of a document gets its own report, in document order.
pub proof fn one_report_for_each_signature(
    source: Seq<char>,
    cores: Seq<CoreView>,
    trusted: Seq<Seq<u8>>,
    wanted: Option<TimeView>,
    now: TimeView,
)
    requires
        chain::store_outcome(trusted) is Ok,
        validate::document_error(source) is None,
    ensures
        ({
            let outcome = validate::validation_outcome(source, cores, trusted, wanted, now);
            let nodes = input::parsed_document(source)->Ok_0;
            let doc = (TreeView { source, nodes });
            let sigs = validate::signatures(source, nodes);
            &&& outcome is Ok
            &&& outcome->Ok_0.len() == sigs.len()
            &&& forall|i: int|
                0 <= i < sigs.len() ==> (#[trigger] outcome->Ok_0[i]) == validate::signature_report(
                    doc,
                    sigs[i],
                    cores[i],
                    trusted,
                    wanted,
                    now,
                )
            &&& forall|i: int|
                0 <= i < sigs.len() ==> (#[trigger] outcome->Ok_0[i]).signature_id
                    == doc.attribute(sigs[i], "Id"@)
        }),
{
    chain::store_holds_what_was_added(trusted);
}

} // verus!
