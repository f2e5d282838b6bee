//! When a signature is valid, told by its document and by what other crates say of certificates,
//! time-stamps and OCSP responses.
use vstd::prelude::*;

use crate::chain;
use crate::codec;
use crate::crypto::digest;
use crate::ns;
use crate::text;
use crate::time::TimeView;
use crate::validate;
use crate::validate::ltv;
use crate::validate::xades;
use crate::validate::{CoreView, Profile};
use crate::x509;
use crate::x509::CertView;
use crate::xml::input::C14nMethod;
use crate::xml::tree;
use crate::xml::tree::TreeView;

verus! {

/// Whether bytes parse as a certificate.
pub open spec fn parses(der: Seq<u8>) -> bool {
    x509::certificate_parts(der) is Ok
}

/// Certificates, from byte strings that parse as such.
pub open spec fn parsed(ders: Seq<Seq<u8>>) -> Seq<CertView> {
    ders.map_values(|der: Seq<u8>| x509::certificate(der)->Ok_0)
}

/// The subject names of some certificates.
pub open spec fn names(anchors: Seq<Seq<u8>>) -> Seq<Seq<u8>> {
    anchors.map_values(|der: Seq<u8>| (x509::certificate_parts(der)->Ok_0).0)
}

/// Whether a node holds a certificate as base64 text.
pub open spec fn holds_certificate(doc: TreeView, node: int) -> bool {
    codec::embedded_base64(doc.text(node)) matches Some(der) && parses(der)
}

/// The certificates that some nodes hold.
pub open spec fn held_certificates(doc: TreeView, nodes: Seq<int>) -> Seq<Seq<u8>> {
    nodes.filter(|n: int| holds_certificate(doc, n)).map_values(
        |n: int| codec::embedded_base64(doc.text(n))->Some_0,
    )
}

/// Those of some byte strings that parse as certificates.
pub open spec fn certificates(ders: Seq<Seq<u8>>) -> Seq<Seq<u8>> {
    ders.filter(|der: Seq<u8>| parses(der))
}

/// The certificates among unsigned properties.
pub open spec fn embedded(doc: TreeView, unsigned: int) -> Seq<Seq<u8>> {
    held_certificates(
        doc,
        doc.descendants(unsigned, ns::XADES@, "EncapsulatedX509Certificate"@),
    )
}

proof fn lemma_certificate(der: Seq<u8>)
    ensures
        x509::certificate(der) is Ok <==> parses(der),
        x509::certificate(der) matches Ok(cert) ==> {
            &&& cert.der == der
            &&& x509::certificate_parts(der) == Ok::<
                (Seq<u8>, Seq<u8>, Seq<u8>, Seq<char>, Seq<char>),
                Seq<char>,
            >((cert.subject, cert.issuer, cert.serial, cert.subject_text, cert.issuer_text))
        },
{
}

/// A parsed certificate is the bytes that were parsed, with the parts that parsing gives.
pub proof fn certificate_keeps_its_bytes(der: Seq<u8>)
    ensures
        x509::certificate(der) is Ok <==> x509::certificate_parts(der) is Ok,
        x509::certificate(der) is Err ==> x509::certificate(der)->Err_0
            == x509::certificate_parts(der)->Err_0,
        x509::certificate(der) matches Ok(cert) ==> {
            &&& cert.der == der
            &&& x509::certificate_parts(der) == Ok::<
                (Seq<u8>, Seq<u8>, Seq<u8>, Seq<char>, Seq<char>),
                Seq<char>,
            >((cert.subject, cert.issuer, cert.serial, cert.subject_text, cert.issuer_text))
        },
{
}

pub(crate) proof fn lemma_names(anchors: Seq<Seq<u8>>)
    requires
        forall|i: int| 0 <= i < anchors.len() ==> parses(#[trigger] anchors[i]),
    ensures
        chain::subjects(anchors) == names(anchors),
    decreases anchors.len(),
{
    if anchors.len() > 0 {
        let front = anchors.drop_last();
        assert forall|i: int| 0 <= i < front.len() implies parses(#[trigger] front[i]) by {
            assert(front[i] == anchors[i]);
        }
        lemma_names(front);
        assert(parses(anchors[anchors.len() - 1]));
        assert(names(anchors) =~= names(front).push(
            (x509::certificate_parts(anchors.last())->Ok_0).0,
        ));
    } else {
        assert(names(anchors) =~= chain::subjects(anchors));
    }
}

pub(crate) proof fn lemma_parseable(ders: Seq<Seq<u8>>)
    ensures
        ltv::parseable(ders) == parsed(certificates(ders)),
        x509::ders(ltv::parseable(ders)) == certificates(ders),
    decreases ders.len(),
{
    reveal(Seq::filter);
    if ders.len() > 0 {
        let front = ders.drop_last();
        lemma_parseable(front);
        assert(ltv::parseable(ders) =~= parsed(certificates(ders)));
        assert(x509::ders(ltv::parseable(ders)) =~= certificates(ders));
    } else {
        assert(ltv::parseable(ders) =~= parsed(certificates(ders)));
        assert(x509::ders(ltv::parseable(ders)) =~= certificates(ders));
    }
}

pub(crate) proof fn lemma_held(doc: TreeView, nodes: Seq<int>)
    ensures
        ltv::embedded_pool(doc, nodes) == parsed(held_certificates(doc, nodes)),
        x509::ders(ltv::embedded_pool(doc, nodes)) == held_certificates(doc, nodes),
        ltv::embedded_errors(doc, nodes).len() == 0 <==> forall|i: int|
            0 <= i < nodes.len() ==> holds_certificate(doc, #[trigger] nodes[i]),
    decreases nodes.len(),
{
    reveal(Seq::filter);
    if nodes.len() > 0 {
        let front = nodes.drop_last();
        lemma_held(doc, front);
        let last = nodes[nodes.len() - 1];
        let kept = nodes.filter(|n: int| holds_certificate(doc, n));
        let before = front.filter(|n: int| holds_certificate(doc, n));
        if holds_certificate(doc, last) {
            assert(kept == before.push(last));
            assert(held_certificates(doc, nodes) =~= held_certificates(doc, front).push(
                codec::embedded_base64(doc.text(last))->Some_0,
            ));
        } else {
            assert(kept == before);
        }
        assert(ltv::embedded_pool(doc, nodes) =~= parsed(held_certificates(doc, nodes)));
        assert(x509::ders(ltv::embedded_pool(doc, nodes)) =~= held_certificates(doc, nodes));
        if ltv::embedded_errors(doc, nodes).len() == 0 {
            assert forall|i: int| 0 <= i < nodes.len() implies holds_certificate(
                doc,
                #[trigger] nodes[i],
            ) by {
                if i < front.len() {
                    assert(front[i] == nodes[i]);
                }
            }
        }
        if forall|i: int| 0 <= i < nodes.len() ==> holds_certificate(doc, #[trigger] nodes[i]) {
            assert forall|i: int| 0 <= i < front.len() implies holds_certificate(
                doc,
                #[trigger] front[i],
            ) by {
                assert(front[i] == nodes[i]);
            }
            assert(holds_certificate(doc, last));
        }
    } else {
        assert(ltv::embedded_pool(doc, nodes) =~= parsed(held_certificates(doc, nodes)));
        assert(x509::ders(ltv::embedded_pool(doc, nodes)) =~= held_certificates(doc, nodes));
    }
}

/// Whether qualifying properties are the first of a signature that hold its signed properties.
pub open spec fn is_holder(doc: TreeView, sig: int, sp: int, qp: int) -> bool {
    let all = doc.descendants(sig, ns::XADES@, "QualifyingProperties"@);
    exists|k: int|
        0 <= k < all.len() && #[trigger] all[k] == qp && doc.is_within(qp, sp) && forall|j: int|
            0 <= j < k ==> !doc.is_within(#[trigger] all[j], sp)
}

proof fn lemma_first_around(doc: TreeView, list: Seq<int>, inner: int)
    ensures
        match xades::first_around(doc, list, inner) {
            Some(p) => exists|k: int|
                0 <= k < list.len() && #[trigger] list[k] == p && doc.is_within(p, inner)
                    && forall|j: int| 0 <= j < k ==> !doc.is_within(#[trigger] list[j], inner),
            None => forall|k: int|
                0 <= k < list.len() ==> !doc.is_within(#[trigger] list[k], inner),
        },
    decreases list.len(),
{
    if list.len() > 0 {
        let rest = list.skip(1);
        lemma_first_around(doc, rest, inner);
        if doc.is_within(list[0], inner) {
            assert(list[0] == xades::first_around(doc, list, inner)->Some_0);
        } else if let Some(p) = xades::first_around(doc, rest, inner) {
            let k = choose|k: int|
                0 <= k < rest.len() && #[trigger] rest[k] == p && doc.is_within(p, inner)
                    && forall|j: int| 0 <= j < k ==> !doc.is_within(#[trigger] rest[j], inner);
            assert(list[k + 1] == p);
            assert forall|j: int| 0 <= j < k + 1 implies !doc.is_within(
                #[trigger] list[j],
                inner,
            ) by {
                if j > 0 {
                    assert(rest[j - 1] == list[j]);
                }
            }
        } else {
            assert forall|k: int| 0 <= k < list.len() implies !doc.is_within(
                #[trigger] list[k],
                inner,
            ) by {
                if k > 0 {
                    assert(rest[k - 1] == list[k]);
                }
            }
        }
    }
}

pub(crate) proof fn lemma_holder(doc: TreeView, sig: int, sp: int, qp: int)
    ensures
        is_holder(doc, sig, sp, qp) <==> xades::qualifying_node(doc, sig, sp) == Some(qp),
{
    let all = doc.descendants(sig, ns::XADES@, "QualifyingProperties"@);
    lemma_first_around(doc, all, sp);
    if is_holder(doc, sig, sp, qp) {
        let k = choose|k: int|
            0 <= k < all.len() && #[trigger] all[k] == qp && doc.is_within(qp, sp)
                && forall|j: int| 0 <= j < k ==> !doc.is_within(#[trigger] all[j], sp);
        let p = xades::first_around(doc, all, sp)->Some_0;
        let m = choose|m: int|
            0 <= m < all.len() && #[trigger] all[m] == p && doc.is_within(p, sp)
                && forall|j: int| 0 <= j < m ==> !doc.is_within(#[trigger] all[j], sp);
        assert(doc.is_within(all[k], sp) && doc.is_within(all[m], sp));
        assert(k == m);
    }
}

/// A text, or no text.
pub open spec fn or_nothing(value: Option<Seq<char>>) -> Seq<char> {
    if value is Some {
        value->Some_0
    } else {
        Seq::empty()
    }
}

/// Whether qualifying properties are for their signature and bind its certificate: they name the
/// signature as their target, claim a signing time, and hold a digest of the certificate.
pub open spec fn is_bound(doc: TreeView, sig: int, sp: int, qp: int, cert: Seq<u8>) -> bool {
    let ssp = doc.child(sp, ns::XADES@, "SignedSignatureProperties"@);
    let time = doc.child(ssp->Some_0, ns::XADES@, "SigningTime"@);
    let legacy = doc.child(ssp->Some_0, ns::XADES@, "SigningCertificate"@);
    let current = doc.child(ssp->Some_0, ns::XADES@, "SigningCertificateV2"@);
    let property = if legacy is Some {
        legacy
    } else {
        current
    };
    let holder = doc.child(property->Some_0, ns::XADES@, "Cert"@);
    let hashed = doc.child(holder->Some_0, ns::XADES@, "CertDigest"@);
    let method = doc.child(hashed->Some_0, ns::DSIG@, "DigestMethod"@);
    let uri = doc.attribute(method->Some_0, "Algorithm"@);
    let value = doc.child(hashed->Some_0, ns::DSIG@, "DigestValue"@);
    &&& or_nothing(doc.attribute(qp, "Target"@)) == seq!['#'] + or_nothing(
        doc.attribute(sig, "Id"@),
    )
    &&& ssp is Some
    &&& time is Some
    &&& xades::is_rfc3339(doc.text(time->Some_0))
    &&& property is Some
    &&& holder is Some
    &&& hashed is Some
    &&& method is Some
    &&& uri is Some
    &&& uri->Some_0 == "http://www.w3.org/2001/04/xmlenc#sha256"@ || uri->Some_0
        == "http://www.w3.org/2001/04/xmldsig-more#sha384"@ || uri->Some_0
        == "http://www.w3.org/2001/04/xmlenc#sha512"@
    &&& value is Some
    &&& codec::embedded_base64(doc.text(value->Some_0)) is Some
    &&& digest::digest_outcome(uri->Some_0, cert) == Ok::<Seq<u8>, Seq<char>>(
        codec::embedded_base64(doc.text(value->Some_0))->Some_0,
    )
}

pub(crate) proof fn lemma_after_hash(reference: Seq<char>, id: Seq<char>)
    ensures
        text::after_hash(reference) == Some(id) <==> reference == seq!['#'] + id,
{
    if text::after_hash(reference) == Some(id) {
        assert(reference =~= seq!['#'] + id);
    }
    if reference == seq!['#'] + id {
        assert(reference.skip(1) =~= id);
    }
}

pub(crate) proof fn lemma_empty_is_no_method()
    ensures
        !digest::is_allowed(Seq::<char>::empty()),
{
    reveal_strlit("http://www.w3.org/2001/04/xmlenc#sha256");
    reveal_strlit("http://www.w3.org/2001/04/xmldsig-more#sha384");
    reveal_strlit("http://www.w3.org/2001/04/xmlenc#sha512");
    assert(ns::SHA256@.len() > 0 && ns::SHA384@.len() > 0 && ns::SHA512@.len() > 0);
}

proof fn lemma_bound(doc: TreeView, sig: int, sp: int, qp: int, cert: Seq<u8>)
    requires
        is_holder(doc, sig, sp, qp),
    ensures
        is_bound(doc, sig, sp, qp, cert) <==> xades::signed_properties_outcome(
            doc,
            sig,
            sp,
            cert,
        ).errors.len() == 0,
{
    lemma_holder(doc, sig, sp, qp);
    lemma_after_hash(
        tree::or_empty(doc.attribute(qp, "Target"@)),
        tree::or_empty(doc.attribute(sig, "Id"@)),
    );
    lemma_empty_is_no_method();
}

/// Whether a signer's certificate chains to the anchors as of a second.
pub open spec fn chains(
    leaf: Seq<u8>,
    pool: Seq<Seq<u8>>,
    anchors: Seq<Seq<u8>>,
    secs: int,
) -> bool {
    let links = chain::built_chain(leaf, pool, names(anchors));
    &&& anchors.len() > 0
    &&& links is Ok
    &&& 0 <= secs <= 253_402_300_799
    &&& chain::signer_chain_outcome(anchors, links->Ok_0, Some(secs)) is Ok
}

proof fn lemma_chains(leaf: Seq<u8>, pool: Seq<Seq<u8>>, anchors: Seq<Seq<u8>>, at: TimeView)
    requires
        forall|i: int| 0 <= i < anchors.len() ==> parses(#[trigger] anchors[i]),
    ensures
        chains(leaf, pool, anchors, at.secs) <==> chain::chain_errors(
            leaf,
            pool,
            anchors,
            at,
        ).len() == 0,
{
    lemma_names(anchors);
}

/// A signature without a time-stamp is valid exactly if the XML signature verifies, its qualifying
/// properties are sound, and its certificate chains to the anchors as of the asked time, or as of
/// now where no time is asked for.
pub proof fn plain_signature_is_valid_exactly_if(
    doc: TreeView,
    sig: int,
    core: CoreView,
    sp: int,
    qp: int,
    cert: Seq<u8>,
    anchors: Seq<Seq<u8>>,
    wanted: Option<TimeView>,
    now: TimeView,
)
    requires
        forall|i: int| 0 <= i < anchors.len() ==> parses(#[trigger] anchors[i]),
        core.sp_node == Some(sp),
        core.cert_der == Some(cert),
        is_holder(doc, sig, sp, qp),
        validate::signature_report(doc, sig, core, anchors, wanted, now).profile == Profile::B,
    ensures
        ({
            let report = validate::signature_report(doc, sig, core, anchors, wanted, now);
            &&& report.timestamp_time is None
            &&& wanted matches Some(w) ==> (report.is_valid() <==> {
                &&& core.errors.len() == 0
                &&& is_bound(doc, sig, sp, qp, cert)
                &&& parses(cert)
                &&& chains(cert, certificates(core.extra_certs), anchors, w.secs)
            })
            &&& wanted is None ==> (report.is_valid() <==> {
                &&& core.errors.len() == 0
                &&& is_bound(doc, sig, sp, qp, cert)
                &&& parses(cert)
                &&& chains(cert, certificates(core.extra_certs), anchors, now.secs)
            })
        }),
{
    lemma_bound(doc, sig, sp, qp, cert);
    lemma_parseable(core.extra_certs);
    let extras = ltv::parseable(core.extra_certs);
    assert(extras + Seq::<CertView>::empty() =~= extras);
    let at = validate::validation_instant(None, wanted, now);
    lemma_chains(cert, certificates(core.extra_certs), anchors, at);
    let report = validate::signature_report(doc, sig, core, anchors, wanted, now);
    let found = validate::properties_of(doc, sig, core)->Some_0;
    assert(found.profile == Profile::B);
}

/// A signature is not valid without signed properties, without a certificate, with bytes that are
/// no certificate, or with signed properties outside of qualifying properties.
pub proof fn incomplete_signature_is_invalid(
    doc: TreeView,
    sig: int,
    core: CoreView,
    anchors: Seq<Seq<u8>>,
    wanted: Option<TimeView>,
    now: TimeView,
)
    requires
        core.sp_node is None || core.cert_der is None || !parses(core.cert_der->Some_0) || forall|
            qp: int,
        |
            !is_holder(doc, sig, core.sp_node->Some_0, qp),
    ensures
        !validate::signature_report(doc, sig, core, anchors, wanted, now).is_valid(),
{
    if core.sp_node is Some {
        let sp = core.sp_node->Some_0;
        if let Some(qp) = xades::qualifying_node(doc, sig, sp) {
            lemma_holder(doc, sig, sp, qp);
        }
    }
}

/// Whether the token of a time-stamp is over the signature value, verifies, and has a time field.
pub open spec fn has_field(
    doc: TreeView,
    sig: int,
    tst: int,
    anchors: Seq<Seq<u8>>,
    certs: Seq<Seq<u8>>,
    field: Seq<u8>,
) -> bool {
    let stamp = doc.child(tst, ns::XADES@, "EncapsulatedTimeStamp"@);
    let token = codec::embedded_base64(doc.text(stamp->Some_0));
    let named = doc.child(tst, ns::DSIG@, "CanonicalizationMethod"@);
    let method = if named is Some && doc.attribute(named->Some_0, "Algorithm"@) is Some {
        doc.attribute(named->Some_0, "Algorithm"@)->Some_0
    } else {
        "http://www.w3.org/TR/2001/REC-xml-c14n-20010315"@
    };
    let value = doc.child(sig, ns::DSIG@, "SignatureValue"@);
    let covered = doc.canonical(value->Some_0, method);
    let algorithm = ltv::token_algorithm(token->Some_0);
    &&& stamp is Some
    &&& token is Some
    &&& C14nMethod::is_uri(method)
    &&& value is Some
    &&& covered is Some
    &&& algorithm is Ok
    &&& ltv::verified_token(
        token->Some_0,
        ltv::hashed(algorithm->Ok_0, covered->Some_0),
        algorithm->Ok_0,
        anchors,
        certs,
    ) == Ok::<Seq<u8>, Seq<char>>(field)
}

/// The second that a time field stands for, if it is one that a point in time can have.
pub open spec fn field_second(field: Seq<u8>) -> Option<int> {
    if field.len() <= 127 {
        ltv::generalized_time(seq![0x18u8, field.len() as u8] + field)
    } else {
        None
    }
}

proof fn lemma_outcome(
    doc: TreeView,
    sig: int,
    tst: int,
    anchors: Seq<Seq<u8>>,
    certs: Seq<Seq<u8>>,
    field: Seq<u8>,
)
    requires
        has_field(doc, sig, tst, anchors, certs, field),
    ensures
        ltv::timestamp_outcome(doc, sig, tst, anchors, certs) matches Ok(t) ==> t.nanos == 0
            && field_second(field) == Some(t.secs),
        field_second(field) matches Some(secs) ==> -8_334_601_228_800 <= secs <= 8_210_266_876_799
            ==> ltv::timestamp_outcome(doc, sig, tst, anchors, certs) == Ok::<
            TimeView,
            Seq<char>,
        >(TimeView { secs, nanos: 0 }),
{
    if field.len() <= 127 {
        assert(codec::der_value(0x18, field) =~= seq![0x18u8, field.len() as u8] + field);
    }
}

proof fn lemma_field(
    doc: TreeView,
    sig: int,
    tst: int,
    anchors: Seq<Seq<u8>>,
    certs: Seq<Seq<u8>>,
) -> (field: Seq<u8>)
    requires
        ltv::timestamp_outcome(doc, sig, tst, anchors, certs) is Ok,
    ensures
        has_field(doc, sig, tst, anchors, certs, field),
        ({
            let t = ltv::timestamp_outcome(doc, sig, tst, anchors, certs)->Ok_0;
            t.nanos == 0 && field_second(field) == Some(t.secs)
        }),
{
    let token = ltv::token_of(doc, tst)->Some_0;
    let method = ltv::timestamp_method(doc, tst)->Ok_0;
    let covered = ltv::timestamped_bytes(doc, sig, method)->Ok_0;
    let algorithm = ltv::token_algorithm(token)->Ok_0;
    let field = ltv::verified_token(
        token,
        ltv::hashed(algorithm, covered),
        algorithm,
        anchors,
        certs,
    )->Ok_0;
    assert(codec::der_value(0x18, field) =~= seq![0x18u8, field.len() as u8] + field);
    assert(C14nMethod::is_uri("http://www.w3.org/TR/2001/REC-xml-c14n-20010315"@));
    assert(has_field(doc, sig, tst, anchors, certs, field));
    field
}

/// The proved time of a signature is in the time field of one of its time-stamps' tokens, which
/// verifies over the signature value, to the second; and no other of its tokens that verify has an
/// earlier one.
pub proof fn proved_time_is_that_of_a_token(
    doc: TreeView,
    sig: int,
    core: CoreView,
    sp: int,
    qp: int,
    up: int,
    usp: int,
    anchors: Seq<Seq<u8>>,
    wanted: Option<TimeView>,
    now: TimeView,
)
    requires
        core.sp_node == Some(sp),
        is_holder(doc, sig, sp, qp),
        doc.child(qp, ns::XADES@, "UnsignedProperties"@) == Some(up),
        doc.child(up, ns::XADES@, "UnsignedSignatureProperties"@) == Some(usp),
    ensures
        ({
            let report = validate::signature_report(doc, sig, core, anchors, wanted, now);
            let stamps = doc.children(usp, ns::XADES@, "SignatureTimeStamp"@);
            let certs = embedded(doc, usp);
            report.timestamp_time matches Some(t) ==> {
                &&& t.nanos == 0
                &&& exists|i: int, field: Seq<u8>|
                    0 <= i < stamps.len() && #[trigger] has_field(
                        doc,
                        sig,
                        stamps[i],
                        anchors,
                        certs,
                        field,
                    ) && ltv::generalized_time(seq![0x18u8, field.len() as u8] + field) == Some(
                        t.secs,
                    )
                &&& forall|i: int, field: Seq<u8>|
                    0 <= i < stamps.len() && #[trigger] has_field(
                        doc,
                        sig,
                        stamps[i],
                        anchors,
                        certs,
                        field,
                    ) && field.len() <= 127 ==> match ltv::generalized_time(
                        seq![0x18u8, field.len() as u8] + field,
                    ) {
                        Some(secs) => -8_334_601_228_800 <= secs <= 8_210_266_876_799 ==> t.secs
                            <= secs,
                        None => true,
                    }
            }
        }),
{
    let report = validate::signature_report(doc, sig, core, anchors, wanted, now);
    let stamps = doc.children(usp, ns::XADES@, "SignatureTimeStamp"@);
    let certs = embedded(doc, usp);
    lemma_holder(doc, sig, sp, qp);
    lemma_held(doc, doc.descendants(usp, ns::XADES@, "EncapsulatedX509Certificate"@));
    if let Some(t) = report.timestamp_time {
        let outcomes = ltv::timestamp_outcomes(doc, sig, stamps, anchors, certs);
        ltv::earliest_is_the_minimum(outcomes);
        assert(ltv::earliest(outcomes) == Some(t));
        let k = choose|k: int|
            0 <= k < outcomes.len() && #[trigger] outcomes[k] == Ok::<TimeView, Seq<char>>(t);
        let field = lemma_field(doc, sig, stamps[k], anchors, certs);
        assert(has_field(doc, sig, stamps[k], anchors, certs, field));
        assert forall|i: int, other: Seq<u8>|
            0 <= i < stamps.len() && #[trigger] has_field(
                doc,
                sig,
                stamps[i],
                anchors,
                certs,
                other,
            ) && other.len() <= 127 implies match ltv::generalized_time(
            seq![0x18u8, other.len() as u8] + other,
        ) {
            Some(secs) => -8_334_601_228_800 <= secs <= 8_210_266_876_799 ==> t.secs <= secs,
            None => true,
        } by {
            lemma_outcome(doc, sig, stamps[i], anchors, certs, other);
            if let Some(secs) = field_second(other) {
                if -8_334_601_228_800 <= secs <= 8_210_266_876_799 {
                    assert(outcomes[i] == Ok::<TimeView, Seq<char>>(TimeView { secs, nanos: 0 }));
                }
            }
        }
    }
}

/// Where a token verifies and has a time, the signature has a proved time.
pub proof fn verified_token_proves_a_time(
    doc: TreeView,
    sig: int,
    core: CoreView,
    sp: int,
    qp: int,
    up: int,
    usp: int,
    anchors: Seq<Seq<u8>>,
    wanted: Option<TimeView>,
    now: TimeView,
    i: int,
    field: Seq<u8>,
)
    requires
        core.sp_node == Some(sp),
        core.cert_der is Some,
        parses(core.cert_der->Some_0),
        is_holder(doc, sig, sp, qp),
        doc.child(sp, ns::XADES@, "SignedSignatureProperties"@) is Some,
        doc.child(qp, ns::XADES@, "UnsignedProperties"@) == Some(up),
        doc.child(up, ns::XADES@, "UnsignedSignatureProperties"@) == Some(usp),
        0 <= i < doc.children(usp, ns::XADES@, "SignatureTimeStamp"@).len(),
        has_field(
            doc,
            sig,
            doc.children(usp, ns::XADES@, "SignatureTimeStamp"@)[i],
            anchors,
            embedded(doc, usp),
            field,
        ),
        field.len() <= 127,
        ltv::generalized_time(seq![0x18u8, field.len() as u8] + field) matches Some(secs)
            && -8_334_601_228_800 <= secs <= 8_210_266_876_799,
    ensures
        validate::signature_report(
            doc,
            sig,
            core,
            anchors,
            wanted,
            now,
        ).timestamp_time is Some,
{
    let stamps = doc.children(usp, ns::XADES@, "SignatureTimeStamp"@);
    let certs = embedded(doc, usp);
    lemma_holder(doc, sig, sp, qp);
    lemma_held(doc, doc.descendants(usp, ns::XADES@, "EncapsulatedX509Certificate"@));
    let outcomes = ltv::timestamp_outcomes(doc, sig, stamps, anchors, certs);
    lemma_outcome(doc, sig, stamps[i], anchors, certs, field);
    assert(outcomes[i] is Ok);
    ltv::earliest_is_the_minimum(outcomes);
}

/// The profile of a signature: B without a time-stamp, T with one, and LT with revocation values
/// beside it.
pub proof fn profile_goes_by_the_unsigned_properties(
    doc: TreeView,
    sig: int,
    core: CoreView,
    sp: int,
    qp: int,
    anchors: Seq<Seq<u8>>,
    wanted: Option<TimeView>,
    now: TimeView,
)
    requires
        core.sp_node == Some(sp),
        core.cert_der is Some,
        is_holder(doc, sig, sp, qp),
        doc.child(sp, ns::XADES@, "SignedSignatureProperties"@) is Some,
    ensures
        ({
            let report = validate::signature_report(doc, sig, core, anchors, wanted, now);
            let up = doc.child(qp, ns::XADES@, "UnsignedProperties"@);
            let usp = doc.child(up->Some_0, ns::XADES@, "UnsignedSignatureProperties"@);
            let stamp = doc.child(usp->Some_0, ns::XADES@, "SignatureTimeStamp"@);
            let values = doc.child(usp->Some_0, ns::XADES@, "RevocationValues"@);
            let stamped = up is Some && usp is Some && stamp is Some;
            &&& report.profile == Profile::B <==> !stamped
            &&& report.profile == Profile::T <==> stamped && values is None
            &&& report.profile == Profile::LT <==> stamped && values is Some
        }),
{
    lemma_holder(doc, sig, sp, qp);
}

/// Whether the issuer of an OCSP response is an anchor, or chains to one as of a point in time.
pub open spec fn issuer_chains(
    issuer: Seq<u8>,
    pool: Seq<Seq<u8>>,
    anchors: Seq<Seq<u8>>,
    secs: int,
) -> bool {
    let links = chain::built_chain(issuer, pool, names(anchors));
    let second = if 0 <= secs <= 253_402_300_799 {
        Some(secs)
    } else {
        None
    };
    anchors.contains(issuer) || (links is Ok && chain::issuer_chain_outcome(
        anchors,
        links->Ok_0,
        second,
    ) is Ok)
}

proof fn lemma_issuer_chains(
    issuer: Seq<u8>,
    pool: Seq<Seq<u8>>,
    anchors: Seq<Seq<u8>>,
    at: TimeView,
)
    requires
        forall|i: int| 0 <= i < anchors.len() ==> parses(#[trigger] anchors[i]),
    ensures
        issuer_chains(issuer, pool, anchors, at.secs) <==> chain::responder_chain_errors(
            issuer,
            pool,
            anchors,
            at,
        ).len() == 0,
{
    lemma_names(anchors);
}

/// Whether a certificate is the first of some that bears a name.
pub open spec fn is_first_named(certs: Seq<Seq<u8>>, name: Seq<u8>, cert: Seq<u8>) -> bool {
    exists|k: int|
        0 <= k < certs.len() && #[trigger] certs[k] == cert && (x509::certificate_parts(
            cert,
        )->Ok_0).0 == name && forall|j: int|
            0 <= j < k ==> (x509::certificate_parts(#[trigger] certs[j])->Ok_0).0 != name
}

pub(crate) proof fn lemma_first_named(certs: Seq<Seq<u8>>, name: Seq<u8>)
    requires
        forall|i: int| 0 <= i < certs.len() ==> parses(#[trigger] certs[i]),
    ensures
        match ltv::first_named(parsed(certs), name) {
            Some(cert) => is_first_named(certs, name, cert.der) && x509::certificate(cert.der)
                == Ok::<CertView, Seq<char>>(cert),
            None => forall|cert: Seq<u8>| !is_first_named(certs, name, cert),
        },
    decreases certs.len(),
{
    if certs.len() > 0 {
        let rest = certs.skip(1);
        assert forall|i: int| 0 <= i < rest.len() implies parses(#[trigger] rest[i]) by {
            assert(rest[i] == certs[i + 1]);
        }
        lemma_first_named(rest, name);
        assert(parsed(certs).skip(1) =~= parsed(rest));
        assert(parses(certs[0]));
        let head = parsed(certs)[0];
        assert(head == x509::certificate(certs[0])->Ok_0);
        if head.subject == name {
            assert(certs[0] == head.der);
        } else {
            if let Some(cert) = ltv::first_named(parsed(rest), name) {
                let k = choose|k: int|
                    0 <= k < rest.len() && #[trigger] rest[k] == cert.der
                        && (x509::certificate_parts(cert.der)->Ok_0).0 == name && forall|j: int|
                        0 <= j < k ==> (x509::certificate_parts(#[trigger] rest[j])->Ok_0).0
                            != name;
                assert(certs[k + 1] == cert.der);
                assert forall|j: int| 0 <= j < k + 1 implies (x509::certificate_parts(
                    #[trigger] certs[j],
                )->Ok_0).0 != name by {
                    if j > 0 {
                        assert(rest[j - 1] == certs[j]);
                    }
                }
            } else {
                assert forall|cert: Seq<u8>| !is_first_named(certs, name, cert) by {
                    if is_first_named(certs, name, cert) {
                        let k = choose|k: int|
                            0 <= k < certs.len() && #[trigger] certs[k] == cert
                                && (x509::certificate_parts(cert)->Ok_0).0 == name
                                && forall|j: int|
                                0 <= j < k ==> (x509::certificate_parts(
                                    #[trigger] certs[j],
                                )->Ok_0).0 != name;
                        assert(k > 0);
                        assert(rest[k - 1] == cert);
                        assert forall|j: int| 0 <= j < k - 1 implies (x509::certificate_parts(
                            #[trigger] rest[j],
                        )->Ok_0).0 != name by {
                            assert(rest[j] == certs[j + 1]);
                        }
                        assert(is_first_named(rest, name, cert));
                    }
                }
            }
        }
    }
}

/// The certificates that came with an OCSP response and parse.
pub open spec fn response_certificates(response: Seq<u8>) -> Seq<Seq<u8>> {
    match ltv::response_content(response) {
        Some(content) => certificates(content.1),
        None => Seq::empty(),
    }
}

/// Whether an OCSP response counts: it calls a certificate good as of a point in time, its issuer
/// chains to the anchors as of then, and so does every certificate in it with the issuer's name.
pub open spec fn counts(
    response: Seq<u8>,
    cert: Seq<u8>,
    issuer: Seq<u8>,
    certs: Seq<Seq<u8>>,
    anchors: Seq<Seq<u8>>,
    at: TimeView,
) -> bool {
    let held = response_certificates(response);
    let pool = certs + held;
    &&& ltv::revocation_outcome(response, cert, issuer, None, at.secs, at.nanos) == Ok::<
        Option<Seq<char>>,
        Seq<char>,
    >(None)
    &&& issuer_chains(issuer, pool, anchors, at.secs)
    &&& forall|i: int|
        0 <= i < held.len() && (x509::certificate_parts(#[trigger] held[i])->Ok_0).0 == (
        x509::certificate_parts(issuer)->Ok_0).0 ==> held[i] == issuer || issuer_chains(
            held[i],
            pool,
            anchors,
            at.secs,
        )
}

pub(crate) proof fn lemma_certificates_parse(ders: Seq<Seq<u8>>)
    ensures
        forall|i: int|
            0 <= i < certificates(ders).len() ==> parses(#[trigger] certificates(ders)[i]),
    decreases ders.len(),
{
    reveal(Seq::filter);
    if ders.len() > 0 {
        lemma_certificates_parse(ders.drop_last());
    }
}

proof fn lemma_namesakes(
    found: Seq<Seq<u8>>,
    issuer: CertView,
    pool: Seq<Seq<u8>>,
    anchors: Seq<Seq<u8>>,
    at: TimeView,
)
    requires
        forall|i: int| 0 <= i < anchors.len() ==> parses(#[trigger] anchors[i]),
        forall|i: int| 0 <= i < found.len() ==> parses(#[trigger] found[i]),
    ensures
        ltv::namesake_errors(parsed(found), issuer, pool, anchors, at).len() == 0 <==> forall|
            i: int,
        |
            0 <= i < found.len() && (x509::certificate_parts(#[trigger] found[i])->Ok_0).0
                == issuer.subject ==> found[i] == issuer.der || issuer_chains(
                found[i],
                pool,
                anchors,
                at.secs,
            ),
    decreases found.len(),
{
    if found.len() > 0 {
        let front = found.drop_last();
        let last = found[found.len() - 1];
        assert forall|i: int| 0 <= i < front.len() implies parses(#[trigger] front[i]) by {
            assert(front[i] == found[i]);
        }
        lemma_namesakes(front, issuer, pool, anchors, at);
        lemma_issuer_chains(last, pool, anchors, at);
        assert(parsed(found).drop_last() =~= parsed(front));
        assert(parses(last));
        assert(parsed(found).last() == x509::certificate(last)->Ok_0);
        let all = ltv::namesake_errors(parsed(found), issuer, pool, anchors, at);
        if all.len() == 0 {
            assert forall|i: int|
                0 <= i < found.len() && (x509::certificate_parts(#[trigger] found[i])->Ok_0).0
                    == issuer.subject implies found[i] == issuer.der || issuer_chains(
                found[i],
                pool,
                anchors,
                at.secs,
            ) by {
                if i < front.len() {
                    assert(front[i] == found[i]);
                }
            }
        } else if ltv::namesake_errors(parsed(front), issuer, pool, anchors, at).len() != 0 {
            let k = choose|k: int|
                0 <= k < front.len() && (x509::certificate_parts(#[trigger] front[k])->Ok_0).0
                    == issuer.subject && !(front[k] == issuer.der || issuer_chains(
                    front[k],
                    pool,
                    anchors,
                    at.secs,
                ));
            assert(found[k] == front[k]);
        } else {
            assert(found[found.len() - 1] == last);
        }
    }
}

proof fn lemma_counts(
    response: Seq<u8>,
    leaf: CertView,
    issuer: CertView,
    certs: Seq<CertView>,
    anchors: Seq<Seq<u8>>,
    at: TimeView,
)
    requires
        forall|i: int| 0 <= i < anchors.len() ==> parses(#[trigger] anchors[i]),
        x509::certificate(issuer.der) == Ok::<CertView, Seq<char>>(issuer),
    ensures
        ({
            let outcome = ltv::response_outcome(response, leaf, issuer, certs, anchors, at);
            &&& outcome.2.len() == 0 <==> counts(
                response,
                leaf.der,
                issuer.der,
                x509::ders(certs),
                anchors,
                at,
            )
            &&& outcome.2.len() == 0 ==> x509::ders(outcome.1) == response_certificates(response)
            &&& outcome.2.len() == 0 ==> outcome.0 == match ltv::response_content(response) {
                Some(content) => Some(TimeView { secs: content.0.0, nanos: content.0.1 }),
                None => None,
            }
            &&& outcome.2.len() > 0 ==> outcome.0 is None && outcome.1.len() == 0
        }),
{
    let held = response_certificates(response);
    let found = ltv::accepted_response(response).1;
    if let Some(content) = ltv::response_content(response) {
        lemma_parseable(content.1);
        lemma_certificates_parse(content.1);
    } else {
        assert(x509::ders(found) =~= held);
        assert(parsed(held) =~= found);
    }
    assert(x509::ders(certs + found) =~= x509::ders(certs) + held);
    let pool = x509::ders(certs) + held;
    lemma_issuer_chains(issuer.der, pool, anchors, at);
    lemma_namesakes(held, issuer, pool, anchors, at);
    let errors = ltv::responder_errors(response, issuer, certs, anchors, at);
    assert(errors.len() == chain::responder_chain_errors(issuer.der, pool, anchors, at).len()
        + ltv::namesake_errors(found, issuer, pool, anchors, at).len());
}

/// Whether the OCSP responses among unsigned properties are in order: one that counts where there
/// are revocation values, and none where there are not. An issuer is looked for among the embedded
/// certificates and then those of KeyInfo.
pub open spec fn revocation_is_sound(
    doc: TreeView,
    usp: int,
    cert: Seq<u8>,
    extras: Seq<Seq<u8>>,
    anchors: Seq<Seq<u8>>,
    at: TimeView,
) -> bool {
    let nodes = doc.descendants(usp, ns::XADES@, "EncapsulatedOCSPValue"@);
    let certs = embedded(doc, usp) + certificates(extras);
    if nodes.len() == 0 {
        doc.child(usp, ns::XADES@, "RevocationValues"@) is None
    } else {
        let response = codec::embedded_base64(doc.text(nodes[0]));
        &&& nodes.len() == 1
        &&& response is Some
        &&& exists|issuer: Seq<u8>|
            is_first_named(certs, (x509::certificate_parts(cert)->Ok_0).1, issuer)
                && #[trigger] counts(response->Some_0, cert, issuer, certs, anchors, at)
            && match ltv::response_content(response->Some_0) {
                Some(content) => content.0.0 > at.secs || (content.0.0 == at.secs && content.0.1
                    >= at.nanos),
                None => true,
            }
    }
}

/// The certificates that the OCSP response among unsigned properties adds to the pool.
pub open spec fn revocation_certificates(doc: TreeView, usp: int) -> Seq<Seq<u8>> {
    let nodes = doc.descendants(usp, ns::XADES@, "EncapsulatedOCSPValue"@);
    if nodes.len() == 0 {
        Seq::empty()
    } else {
        response_certificates(codec::embedded_base64(doc.text(nodes[0]))->Some_0)
    }
}

proof fn lemma_unsigned(
    doc: TreeView,
    sig: int,
    usp: int,
    leaf: CertView,
    extras: Seq<Seq<u8>>,
    anchors: Seq<Seq<u8>>,
    now: TimeView,
)
    requires
        forall|i: int| 0 <= i < anchors.len() ==> parses(#[trigger] anchors[i]),
        x509::certificate(leaf.der) == Ok::<CertView, Seq<char>>(leaf),
    ensures
        ({
            let outcome = ltv::unsigned_outcome(
                doc,
                sig,
                usp,
                leaf,
                ltv::parseable(extras),
                anchors,
                now,
            );
            let nodes = doc.descendants(usp, ns::XADES@, "EncapsulatedX509Certificate"@);
            &&& outcome.errors.len() == 0 <==> {
                &&& forall|i: int|
                    0 <= i < nodes.len() ==> holds_certificate(doc, #[trigger] nodes[i])
                &&& outcome.timestamp_time is Some
                &&& revocation_is_sound(
                    doc,
                    usp,
                    leaf.der,
                    extras,
                    anchors,
                    outcome.timestamp_time->Some_0,
                )
            }
            &&& outcome.errors.len() == 0 ==> x509::ders(outcome.pool) == embedded(doc, usp)
                + revocation_certificates(doc, usp)
        }),
{
    let cert_nodes = doc.descendants(usp, ns::XADES@, "EncapsulatedX509Certificate"@);
    let nodes = doc.descendants(usp, ns::XADES@, "EncapsulatedOCSPValue"@);
    lemma_held(doc, cert_nodes);
    lemma_parseable(extras);
    lemma_certificates_parse(extras);
    let pool = ltv::embedded_pool(doc, cert_nodes);
    let certs = embedded(doc, usp) + certificates(extras);
    let views = pool + ltv::parseable(extras);
    assert(views =~= parsed(certs));
    assert(x509::ders(views) =~= certs);
    assert forall|i: int| 0 <= i < certs.len() implies parses(#[trigger] certs[i]) by {
        if i < embedded(doc, usp).len() {
            lemma_held_parse(doc, cert_nodes);
        }
    }
    lemma_first_named(certs, leaf.issuer);
    let stamps = ltv::timestamp_outcomes(
        doc,
        sig,
        doc.children(usp, ns::XADES@, "SignatureTimeStamp"@),
        anchors,
        x509::ders(pool),
    );
    let at = match ltv::earliest(stamps) {
        Some(t) => t,
        None => now,
    };
    let found = ltv::revocation_data_outcome(doc, usp, leaf, views, anchors, at);
    if nodes.len() == 1 {
        if let Some(response) = codec::embedded_base64(doc.text(nodes[0])) {
            if let Some(issuer) = ltv::first_named(views, leaf.issuer) {
                lemma_counts(response, leaf, issuer, views, anchors, at);
                let name = leaf.issuer;
                assert forall|other: Seq<u8>| is_first_named(certs, name, other) implies other
                    == issuer.der by {
                    lemma_one_first(certs, leaf.issuer, issuer.der, other);
                }
            }
        }
    }
    assert(x509::ders(pool + found.1) =~= x509::ders(pool) + x509::ders(found.1));
    assert(x509::ders(Seq::<CertView>::empty()) =~= Seq::<Seq<u8>>::empty());
}

proof fn lemma_one_first(certs: Seq<Seq<u8>>, name: Seq<u8>, a: Seq<u8>, b: Seq<u8>)
    requires
        is_first_named(certs, name, a),
        is_first_named(certs, name, b),
    ensures
        a == b,
{
    let i = choose|k: int|
        0 <= k < certs.len() && #[trigger] certs[k] == a && (x509::certificate_parts(a)->Ok_0).0
            == name && forall|j: int|
            0 <= j < k ==> (x509::certificate_parts(#[trigger] certs[j])->Ok_0).0 != name;
    let m = choose|k: int|
        0 <= k < certs.len() && #[trigger] certs[k] == b && (x509::certificate_parts(b)->Ok_0).0
            == name && forall|j: int|
            0 <= j < k ==> (x509::certificate_parts(#[trigger] certs[j])->Ok_0).0 != name;
    assert(certs[i] == a && certs[m] == b);
}

proof fn lemma_held_parse(doc: TreeView, nodes: Seq<int>)
    ensures
        forall|i: int|
            0 <= i < held_certificates(doc, nodes).len() ==> parses(
                #[trigger] held_certificates(doc, nodes)[i],
            ),
    decreases nodes.len(),
{
    reveal(Seq::filter);
    if nodes.len() > 0 {
        let front = nodes.drop_last();
        lemma_held_parse(doc, front);
        let kept = nodes.filter(|n: int| holds_certificate(doc, n));
        let before = front.filter(|n: int| holds_certificate(doc, n));
        assert forall|i: int| 0 <= i < held_certificates(doc, nodes).len() implies parses(
            #[trigger] held_certificates(doc, nodes)[i],
        ) by {
            if i < before.len() {
                assert(held_certificates(doc, nodes)[i] == held_certificates(doc, front)[i]);
            }
        }
    }
}

/// A signature with a time-stamp is valid exactly if the XML signature verifies, its qualifying
/// properties are sound, all embedded certificates are certificates, a time is proved, its OCSP
/// responses are in order as of that time, and its certificate chains to the anchors as of that
/// time.
pub proof fn stamped_signature_is_valid_exactly_if(
    doc: TreeView,
    sig: int,
    core: CoreView,
    sp: int,
    qp: int,
    up: int,
    usp: int,
    cert: Seq<u8>,
    anchors: Seq<Seq<u8>>,
    wanted: Option<TimeView>,
    now: TimeView,
)
    requires
        forall|i: int| 0 <= i < anchors.len() ==> parses(#[trigger] anchors[i]),
        core.sp_node == Some(sp),
        core.cert_der == Some(cert),
        parses(cert),
        is_holder(doc, sig, sp, qp),
        doc.child(qp, ns::XADES@, "UnsignedProperties"@) == Some(up),
        doc.child(up, ns::XADES@, "UnsignedSignatureProperties"@) == Some(usp),
        validate::signature_report(doc, sig, core, anchors, wanted, now).profile != Profile::B,
    ensures
        ({
            let report = validate::signature_report(doc, sig, core, anchors, wanted, now);
            let nodes = doc.descendants(usp, ns::XADES@, "EncapsulatedX509Certificate"@);
            let pool = certificates(core.extra_certs) + (embedded(doc, usp)
                + revocation_certificates(doc, usp));
            report.is_valid() <==> {
                &&& core.errors.len() == 0
                &&& is_bound(doc, sig, sp, qp, cert)
                &&& forall|i: int|
                    0 <= i < nodes.len() ==> holds_certificate(doc, #[trigger] nodes[i])
                &&& report.timestamp_time matches Some(t) && revocation_is_sound(
                    doc,
                    usp,
                    cert,
                    core.extra_certs,
                    anchors,
                    t,
                ) && chains(cert, pool, anchors, t.secs)
            }
        }),
{
    let report = validate::signature_report(doc, sig, core, anchors, wanted, now);
    let leaf = x509::certificate(cert)->Ok_0;
    let extras = ltv::parseable(core.extra_certs);
    lemma_holder(doc, sig, sp, qp);
    lemma_bound(doc, sig, sp, qp, cert);
    lemma_unsigned(doc, sig, usp, leaf, core.extra_certs, anchors, now);
    lemma_parseable(core.extra_certs);
    let outcome = ltv::unsigned_outcome(doc, sig, usp, leaf, extras, anchors, now);
    let pool = certificates(core.extra_certs) + (embedded(doc, usp) + revocation_certificates(
        doc,
        usp,
    ));
    let at = validate::validation_instant(outcome.timestamp_time, wanted, now);
    assert(x509::ders(extras + outcome.pool) =~= x509::ders(extras) + x509::ders(outcome.pool));
    lemma_chains(cert, pool, anchors, at);
}

} // verus!
