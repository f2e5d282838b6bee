//! Validating signatures.
pub mod acceptance;
pub mod findings;
pub mod laws;
pub mod ltv;
pub mod xades;

use vstd::prelude::*;
use vstd::string::*;

use crate::chain;
use crate::chain::Trust;
use crate::error::{ErrorView, LibError};
use crate::ns;
use crate::text;
use crate::time;
use crate::time::{Time, TimeView};
use crate::x509;
use crate::x509::{Cert, CertView};
use crate::xml::input;
use crate::xml::tree;
use crate::xml::tree::{NodeView, Tree, TreeView};
use crate::DataObject;

verus! {

broadcast use crate::text::texts_push;

/// XAdES baseline profile of a signature.
#[derive(Debug, Clone, Copy, PartialEq, Eq, Structural)]
pub enum Profile {
    /// Signature only.
    B,
    /// B with a signature time-stamp.
    T,
    /// T with validation data (certificates and an OCSP response).
    LT,
}

impl Default for Profile {
    fn default() -> (r: Profile)
        ensures
            r == Profile::B,
    {
        Profile::B
    }
}

/// Result of validating one signature.
#[derive(Debug)]
pub struct SignatureValidation {
    /// `Id` attribute of the `ds:Signature` element.
    pub signature_id: Option<String>,
    pub profile: Profile,
    pub errors: Vec<String>,
    pub warnings: Vec<String>,
    /// DER of the signer certificate from KeyInfo.
    pub signer_cert_der: Option<Vec<u8>>,
    /// Subject of the signer certificate.
    pub signer_subject: Option<String>,
    /// SigningTime as claimed in the signed properties.
    pub claimed_signing_time: Option<String>,
    /// Authenticated time of the signature time-stamp (T/LT).
    pub timestamp_time: Option<Time>,
    /// producedAt of the accepted OCSP proof (LT).
    pub ocsp_time: Option<Time>,
}

/// The mathematical counterpart of [`SignatureValidation`].
pub struct ReportView {
    pub signature_id: Option<Seq<char>>,
    pub profile: Profile,
    pub errors: Seq<Seq<char>>,
    pub warnings: Seq<Seq<char>>,
    pub signer_cert_der: Option<Seq<u8>>,
    pub signer_subject: Option<Seq<char>>,
    pub claimed_signing_time: Option<Seq<char>>,
    pub timestamp_time: Option<TimeView>,
    pub ocsp_time: Option<TimeView>,
}

impl View for SignatureValidation {
    type V = ReportView;

    open spec fn view(&self) -> ReportView {
        ReportView {
            signature_id: text::opt_text(self.signature_id),
            profile: self.profile,
            errors: text::texts(self.errors@),
            warnings: text::texts(self.warnings@),
            signer_cert_der: text::opt_bytes(self.signer_cert_der),
            signer_subject: text::opt_text(self.signer_subject),
            claimed_signing_time: text::opt_text(self.claimed_signing_time),
            timestamp_time: time::opt_time(self.timestamp_time),
            ocsp_time: time::opt_time(self.ocsp_time),
        }
    }
}

impl ReportView {
    /// Whether the signature is valid.
    pub open spec fn is_valid(self) -> bool {
        self.errors.len() == 0
    }
}

impl SignatureValidation {
    /// A signature is valid when nothing produced an error.
    pub fn is_valid(&self) -> (r: bool)
        ensures
            r == self@.is_valid(),
    {
        self.errors.len() == 0
    }
}

/// A report that says nothing.
pub open spec fn blank_report() -> ReportView {
    ReportView {
        signature_id: None,
        profile: Profile::B,
        errors: Seq::empty(),
        warnings: Seq::empty(),
        signer_cert_der: None,
        signer_subject: None,
        claimed_signing_time: None,
        timestamp_time: None,
        ocsp_time: None,
    }
}

impl Default for SignatureValidation {
    fn default() -> (r: SignatureValidation)
        ensures
            r@ == blank_report(),
    {
        let r = SignatureValidation {
            signature_id: None,
            profile: Profile::B,
            errors: Vec::new(),
            warnings: Vec::new(),
            signer_cert_der: None,
            signer_subject: None,
            claimed_signing_time: None,
            timestamp_time: None,
            ocsp_time: None,
        };
        assert(r@.errors =~= Seq::<Seq<char>>::empty());
        assert(r@.warnings =~= Seq::<Seq<char>>::empty());
        r
    }
}

/// Validation configuration.
pub struct ValidationOptions {
    /// Trusted CA certificates (DER).
    /// Signature, time-stamp and OCSP certificates must chain to one of these.
    pub trusted_certs_der: Vec<Vec<u8>>,
    /// Time at which certificate validity is checked for B-level signatures.
    /// Defaults to now.
    pub validation_time: Option<Time>,
}

impl Default for ValidationOptions {
    fn default() -> (r: ValidationOptions)
        ensures
            r.trusted_certs_der@ == Seq::<Vec<u8>>::empty(),
            r.validation_time is None,
    {
        ValidationOptions { trusted_certs_der: Vec::new(), validation_time: None }
    }
}

/// What adding trust anchors from PEM data gives: the anchors afterwards, and the error if there
/// is one.
///
/// Where one of the certificates cannot be encoded, those before it have been added.
pub open spec fn pem_outcome(
    before: Seq<Seq<u8>>,
    certs: Result<Seq<Result<Seq<u8>, Seq<char>>>, Seq<char>>,
) -> (Seq<Seq<u8>>, Option<ErrorView>) {
    match certs {
        Err(e) => (before, Some(ErrorView::Certificate("trusted PEM: "@ + e))),
        Ok(list) => if list.len() == 0 {
            (before, Some(ErrorView::Certificate("no certificates in PEM input"@)))
        } else {
            added(before, list)
        },
    }
}

/// What adding some encodings gives, up to the first that failed.
pub open spec fn added(before: Seq<Seq<u8>>, list: Seq<Result<Seq<u8>, Seq<char>>>) -> (
    Seq<Seq<u8>>,
    Option<ErrorView>,
)
    decreases list.len(),
{
    if list.len() == 0 {
        (before, None)
    } else {
        match list[0] {
            Err(e) => (before, Some(ErrorView::Certificate("trusted cert: "@ + e))),
            Ok(der) => added(before.push(der), list.skip(1)),
        }
    }
}

impl ValidationOptions {
    /// Adds trust anchors from PEM data (may contain several certificates).
    ///
    /// Data that is empty but for line breaks holds no certificates.
    pub fn add_trusted_pem(&mut self, pem: &[u8]) -> (r: Result<(), LibError>)
        ensures
            ({
                let outcome = pem_outcome(
                    text::byte_strings(old(self).trusted_certs_der@),
                    if x509::is_not_blank(pem@) {
                        x509::pem_certificates(pem@)
                    } else {
                        Ok(Seq::empty())
                    },
                );
                &&& text::byte_strings(final(self).trusted_certs_der@) == outcome.0
                &&& match outcome.1 {
                    Some(e) => r matches Err(error) && error@ == e,
                    None => r is Ok,
                }
            }),
            final(self).validation_time == old(self).validation_time,
    {
        if !x509::has_content(pem) {
            return Err(LibError::Certificate("no certificates in PEM input".to_owned()));
        }
        let certs = match x509::load_pem_chain(pem) {
            Ok(list) => list,
            Err(e) => {
                return Err(LibError::Certificate(text::joined("trusted PEM: ", e.as_str())));
            },
        };
        if certs.len() == 0 {
            return Err(LibError::Certificate("no certificates in PEM input".to_owned()));
        }
        self.add_encoded(certs)
    }

    /// Adds encoded certificates up to the first that could not be encoded.
    pub fn add_encoded(&mut self, certs: Vec<Result<Vec<u8>, String>>) -> (r: Result<(), LibError>)
        ensures
            ({
                let outcome = added(
                    text::byte_strings(old(self).trusted_certs_der@),
                    x509::encodings(certs@),
                );
                &&& text::byte_strings(final(self).trusted_certs_der@) == outcome.0
                &&& match outcome.1 {
                    Some(e) => r matches Err(error) && error@ == e,
                    None => r is Ok,
                }
            }),
            final(self).validation_time == old(self).validation_time,
            r is Ok ==> final(self).trusted_certs_der@.len() == old(self).trusted_certs_der@.len()
                + certs@.len(),
            r is Ok ==> forall|i: int|
                0 <= i < certs@.len() ==> (#[trigger] certs@[i]) is Ok && final(self)
                    .trusted_certs_der@[old(self).trusted_certs_der@.len() + i]@
                    == certs@[i]->Ok_0@,
    {
        let ghost all = x509::encodings(certs@);
        let ghost start = text::byte_strings(self.trusted_certs_der@);
        let mut i: usize = 0;
        assert(all.skip(0) =~= all);
        while i < certs.len()
            invariant
                i <= certs@.len(),
                all == x509::encodings(certs@),
                start == text::byte_strings(old(self).trusted_certs_der@),
                self.validation_time == old(self).validation_time,
                added(start, all) == added(
                    text::byte_strings(self.trusted_certs_der@),
                    all.skip(i as int),
                ),
            decreases certs@.len() - i,
        {
            assert(all.skip(i as int)[0] == text::bytes_view(certs@[i as int]));
            assert(all.skip(i as int).skip(1) =~= all.skip(i + 1));
            match &certs[i] {
                Ok(der) => {
                    let copy = vstd::slice::slice_to_vec(der.as_slice());
                    assert(copy@ =~= der@);
                    proof {
                        text::byte_strings_push(self.trusted_certs_der@, copy);
                    }
                    self.trusted_certs_der.push(copy);
                },
                Err(e) => {
                    return Err(
                        LibError::Certificate(text::joined("trusted cert: ", e.as_str())),
                    );
                },
            }
            i += 1;
        }
        assert(all.skip(i as int) =~= Seq::<Result<Seq<u8>, Seq<char>>>::empty());
        proof {
            lemma_added(start, all);
            let after = text::byte_strings(self.trusted_certs_der@);
            assert(after.len() == self.trusted_certs_der@.len());
            assert(start.len() == old(self).trusted_certs_der@.len());
            assert forall|k: int| 0 <= k < certs@.len() implies (#[trigger] certs@[k]) is Ok
                && self.trusted_certs_der@[start.len() + k]@ == certs@[k]->Ok_0@ by {
                assert(all[k] == text::bytes_view(certs@[k]));
                assert(after[start.len() + k] == self.trusted_certs_der@[start.len() + k]@);
            }
        }
        Ok(())
    }
}

/// Trust anchors from PEM data: where nothing goes wrong, the anchors afterwards are those before
/// and then every certificate of the data, in order.
pub proof fn every_certificate_becomes_an_anchor(
    before: Seq<Seq<u8>>,
    list: Seq<Result<Seq<u8>, Seq<char>>>,
)
    ensures
        ({
            let (after, error) = pem_outcome(before, Ok(list));
            &&& error is None <==> list.len() > 0 && forall|i: int|
                0 <= i < list.len() ==> (#[trigger] list[i]) is Ok
            &&& error is None ==> {
                &&& after.len() == before.len() + list.len()
                &&& forall|i: int| 0 <= i < before.len() ==> #[trigger] after[i] == before[i]
                &&& forall|i: int|
                    0 <= i < list.len() ==> Ok::<Seq<u8>, Seq<char>>(after[before.len() + i])
                        == #[trigger] list[i]
            }
        }),
{
    lemma_added(before, list);
}

/// Where a certificate of PEM data cannot be encoded, those in front of the first such have become
/// anchors, and no other.
pub proof fn anchors_up_to_the_first_failure(
    before: Seq<Seq<u8>>,
    list: Seq<Result<Seq<u8>, Seq<char>>>,
    n: int,
)
    requires
        0 <= n < list.len(),
        list[n] is Err,
        forall|i: int| 0 <= i < n ==> (#[trigger] list[i]) is Ok,
    ensures
        ({
            let (after, error) = pem_outcome(before, Ok(list));
            &&& error == Some(ErrorView::Certificate("trusted cert: "@ + list[n]->Err_0))
            &&& after.len() == before.len() + n
            &&& forall|i: int| 0 <= i < before.len() ==> #[trigger] after[i] == before[i]
            &&& forall|i: int|
                0 <= i < n ==> Ok::<Seq<u8>, Seq<char>>(after[before.len() + i])
                    == #[trigger] list[i]
        }),
    decreases n,
{
    if n > 0 {
        let der = list[0]->Ok_0;
        let rest = list.skip(1);
        assert(rest[n - 1] == list[n]);
        assert forall|i: int| 0 <= i < n - 1 implies (#[trigger] rest[i]) is Ok by {
            assert(rest[i] == list[i + 1]);
        }
        anchors_up_to_the_first_failure(before.push(der), rest, n - 1);
        let after = added(before, list).0;
        assert(after == pem_outcome(before.push(der), Ok(rest)).0);
        assert forall|i: int| 0 <= i < before.len() implies #[trigger] after[i] == before[i] by {
            assert(after[i] == before.push(der)[i]);
        }
        assert forall|i: int| 0 <= i < n implies Ok::<Seq<u8>, Seq<char>>(
            after[before.len() + i],
        ) == #[trigger] list[i] by {
            if i == 0 {
                assert(after[before.len() as int] == before.push(der)[before.len() as int]);
            } else {
                assert(rest[i - 1] == list[i]);
                assert(Ok::<Seq<u8>, Seq<char>>(after[before.push(der).len() + (i - 1)])
                    == rest[i - 1]);
            }
        }
    }
}

/// PEM data that does not parse or holds no certificates adds no anchor, and is an error.
pub proof fn unreadable_data_adds_no_anchor(
    before: Seq<Seq<u8>>,
    certs: Result<Seq<Result<Seq<u8>, Seq<char>>>, Seq<char>>,
)
    requires
        certs is Err || certs->Ok_0.len() == 0,
    ensures
        pem_outcome(before, certs).0 == before,
        pem_outcome(before, certs).1 is Some,
        certs matches Err(e) ==> pem_outcome(before, certs).1 == Some(
            ErrorView::Certificate("trusted PEM: "@ + e),
        ),
{
}

proof fn lemma_added(before: Seq<Seq<u8>>, list: Seq<Result<Seq<u8>, Seq<char>>>)
    ensures
        ({
            let (after, error) = added(before, list);
            &&& error is None <==> forall|i: int|
                0 <= i < list.len() ==> (#[trigger] list[i]) is Ok
            &&& error is None ==> {
                &&& after.len() == before.len() + list.len()
                &&& forall|i: int| 0 <= i < before.len() ==> #[trigger] after[i] == before[i]
                &&& forall|i: int|
                    0 <= i < list.len() ==> Ok::<Seq<u8>, Seq<char>>(after[before.len() + i])
                        == #[trigger] list[i]
            }
        }),
    decreases list.len(),
{
    if list.len() > 0 {
        if let Ok(der) = list[0] {
            let rest = list.skip(1);
            lemma_added(before.push(der), rest);
            let (after, error) = added(before, list);
            if error is None {
                assert forall|i: int| 0 <= i < list.len() implies (#[trigger] list[i]) is Ok by {
                    if i > 0 {
                        assert(rest[i - 1] == list[i]);
                    }
                }
                assert forall|i: int| 0 <= i < before.len() implies #[trigger] after[i]
                    == before[i] by {
                    assert(after[i] == before.push(der)[i]);
                }
                assert forall|i: int| 0 <= i < list.len() implies Ok::<Seq<u8>, Seq<char>>(
                    after[before.len() + i],
                ) == #[trigger] list[i] by {
                    if i == 0 {
                        assert(after[before.len() as int] == before.push(
                            der,
                        )[before.len() as int]);
                    } else {
                        assert(rest[i - 1] == list[i]);
                        assert(Ok::<Seq<u8>, Seq<char>>(after[before.push(der).len() + (i - 1)])
                            == rest[i - 1]);
                    }
                }
            } else {
                let k = choose|k: int| 0 <= k < rest.len() && (#[trigger] rest[k]) is Err;
                assert(list[k + 1] is Err);
            }
        }
    }
}

/// Adding trust anchors never takes one away.
pub proof fn adding_keeps_anchors(
    before: Seq<Seq<u8>>,
    certs: Result<Seq<Result<Seq<u8>, Seq<char>>>, Seq<char>>,
)
    ensures
        before.is_prefix_of(pem_outcome(before, certs).0),
{
    if let Ok(list) = certs {
        lemma_added_keeps(before, list);
    }
    assert(before =~= before.take(before.len() as int));
}

proof fn lemma_added_keeps(before: Seq<Seq<u8>>, list: Seq<Result<Seq<u8>, Seq<char>>>)
    ensures
        before.is_prefix_of(added(before, list).0),
    decreases list.len(),
{
    if list.len() > 0 {
        if let Ok(der) = list[0] {
            lemma_added_keeps(before.push(der), list.skip(1));
            let after = added(before, list).0;
            assert(before.push(der).is_prefix_of(after));
            assert(before =~= after.take(before.len() as int)) by {
                assert(before.push(der) =~= after.take(before.len() as int + 1));
                assert forall|i: int| 0 <= i < before.len() implies before[i] == after[i] by {
                    assert(before.push(der)[i] == after.take(before.len() as int + 1)[i]);
                }
            }
        } else {
            assert(before =~= before.take(before.len() as int));
        }
    } else {
        assert(before =~= before.take(before.len() as int));
    }
}

/// What verifying the XML signature itself gives: digests, signature value and covered files.
pub struct CoreOutcome {
    /// Place of the signed properties that the signature covers.
    pub sp_node: Option<usize>,
    /// The signing certificate.
    pub cert_der: Option<Vec<u8>>,
    /// Further certificates from KeyInfo.
    pub extra_certs: Vec<Vec<u8>>,
    /// What is wrong.
    pub errors: Vec<String>,
}

/// The mathematical counterpart of [`CoreOutcome`].
pub struct CoreView {
    pub sp_node: Option<int>,
    pub cert_der: Option<Seq<u8>>,
    pub extra_certs: Seq<Seq<u8>>,
    pub errors: Seq<Seq<char>>,
}

impl View for CoreOutcome {
    type V = CoreView;

    open spec fn view(&self) -> CoreView {
        CoreView {
            sp_node: tree::opt_place(self.sp_node),
            cert_der: text::opt_bytes(self.cert_der),
            extra_certs: text::byte_strings(self.extra_certs@),
            errors: text::texts(self.errors@),
        }
    }
}

/// Something that verifies XML signatures.
pub trait CoreVerifier {
    /// Verifies the XML signature at `sig_node` against the data files.
    fn verify_core(&self, doc: &Tree, sig_node: usize, files: &[DataObject<'_>]) -> CoreOutcome;
}

/// What the qualifying properties say, where they can be looked at.
pub open spec fn properties_of(doc: TreeView, sig: int, core: CoreView) -> Option<
    xades::XadesView,
> {
    match (core.sp_node, core.cert_der) {
        (Some(sp), Some(cert)) => Some(xades::signed_properties_outcome(doc, sig, sp, cert)),
        _ => None,
    }
}

/// What is wrong with the signed properties.
pub open spec fn properties_errors(core: CoreView, found: Option<xades::XadesView>) -> Seq<
    Seq<char>,
> {
    match found {
        Some(properties) => properties.errors,
        None => if core.sp_node is None {
            seq!["SignedProperties could not be resolved"@]
        } else {
            Seq::empty()
        },
    }
}

/// One warning for each certificate from KeyInfo that is none.
pub open spec fn keyinfo_warnings(ders: Seq<Seq<u8>>) -> Seq<Seq<char>>
    decreases ders.len(),
{
    if ders.len() == 0 {
        Seq::empty()
    } else if x509::is_certificate(ders.last()) {
        keyinfo_warnings(ders.drop_last())
    } else {
        keyinfo_warnings(ders.drop_last()).push("KeyInfo certificate does not parse"@)
    }
}

/// Whether a profile goes with a time-stamp.
pub open spec fn has_timestamp(profile: Profile) -> bool {
    profile == Profile::T || profile == Profile::LT
}

/// What the unsigned properties prove, where the profile calls for them.
pub open spec fn unsigned_of(
    doc: TreeView,
    sig: int,
    found: Option<xades::XadesView>,
    leaf: CertView,
    extras: Seq<CertView>,
    anchors: Seq<Seq<u8>>,
    now: TimeView,
) -> Option<ltv::LtvView> {
    match found {
        Some(properties) => match properties.unsigned_node {
            Some(unsigned) => if has_timestamp(properties.profile) {
                Some(ltv::unsigned_outcome(doc, sig, unsigned, leaf, extras, anchors, now))
            } else {
                None
            },
            None => None,
        },
        None => None,
    }
}

/// The warning that a signature with a time-stamp has no revocation data.
pub open spec fn level_warnings(profile: Profile) -> Seq<Seq<char>> {
    if profile == Profile::T {
        seq!["T-level signature: no embedded revocation proof for the signer"@]
    } else {
        Seq::empty()
    }
}

/// The time as of which the signer's certificate is checked: the proved time of the signature, or
/// else the one that was asked for, or else `now`.
pub open spec fn validation_instant(
    proved: Option<TimeView>,
    wanted: Option<TimeView>,
    now: TimeView,
) -> TimeView {
    match proved {
        Some(t) => t,
        None => match wanted {
            Some(t) => t,
            None => now,
        },
    }
}

/// What checking the signer's certificate adds to a report.
pub open spec fn with_signer(
    report: ReportView,
    doc: TreeView,
    sig: int,
    core: CoreView,
    found: Option<xades::XadesView>,
    leaf: CertView,
    anchors: Seq<Seq<u8>>,
    wanted: Option<TimeView>,
    now: TimeView,
) -> ReportView {
    let extras = ltv::parseable(core.extra_certs);
    let unsigned = unsigned_of(doc, sig, found, leaf, extras, anchors, now);
    let (proved, ocsp_time, certs, errors, warnings) = match unsigned {
        Some(u) => (u.timestamp_time, u.ocsp_produced_at, u.pool, u.errors, u.warnings),
        None => (None, None, Seq::empty(), Seq::empty(), Seq::empty()),
    };
    ReportView {
        signer_subject: Some(leaf.subject_text),
        timestamp_time: proved,
        ocsp_time,
        errors: report.errors + errors + chain::chain_errors(
            leaf.der,
            x509::ders(extras + certs),
            anchors,
            validation_instant(proved, wanted, now),
        ),
        warnings: report.warnings + keyinfo_warnings(core.extra_certs) + warnings + level_warnings(
            report.profile,
        ),
        ..report
    }
}

/// The report on one signature, up to its signer's certificate.
pub open spec fn properties_report(
    doc: TreeView,
    sig: int,
    core: CoreView,
    found: Option<xades::XadesView>,
) -> ReportView {
    ReportView {
        signature_id: doc.attribute(sig, "Id"@),
        profile: match found {
            Some(p) => p.profile,
            None => Profile::B,
        },
        errors: core.errors + properties_errors(core, found),
        warnings: match found {
            Some(p) => p.warnings,
            None => Seq::empty(),
        },
        signer_cert_der: core.cert_der,
        signer_subject: None,
        claimed_signing_time: match found {
            Some(p) => p.claimed_signing_time,
            None => None,
        },
        timestamp_time: None,
        ocsp_time: None,
    }
}

/// The errors of a report without a signer's certificate: where nothing else is wrong, that.
pub open spec fn without_signer(errors: Seq<Seq<char>>) -> Seq<Seq<char>> {
    if errors.len() == 0 {
        seq!["no signer certificate"@]
    } else {
        errors
    }
}

/// The report on one signature, whose signer's certificate parses to `leaf`.
pub open spec fn parsed_report(
    doc: TreeView,
    sig: int,
    core: CoreView,
    leaf: Option<Result<CertView, Seq<char>>>,
    anchors: Seq<Seq<u8>>,
    wanted: Option<TimeView>,
    now: TimeView,
) -> ReportView {
    let found = properties_of(doc, sig, core);
    let report = properties_report(doc, sig, core, found);
    match leaf {
        None => ReportView { errors: without_signer(report.errors), ..report },
        Some(Err(e)) => ReportView {
            errors: report.errors.push("signer certificate does not parse: "@ + e),
            ..report
        },
        Some(Ok(cert)) => with_signer(report, doc, sig, core, found, cert, anchors, wanted, now),
    }
}

/// The signer's certificate, as it parses.
pub open spec fn signer_of(core: CoreView) -> Option<Result<CertView, Seq<char>>> {
    match core.cert_der {
        Some(der) => Some(x509::certificate(der)),
        None => None,
    }
}

/// The report on one signature.
pub open spec fn signature_report(
    doc: TreeView,
    sig: int,
    core: CoreView,
    anchors: Seq<Seq<u8>>,
    wanted: Option<TimeView>,
    now: TimeView,
) -> ReportView {
    parsed_report(doc, sig, core, signer_of(core), anchors, wanted, now)
}

/// Checks the qualifying properties and fills in what they say.
fn report_properties(doc: &Tree, sig_node: usize, core: &CoreOutcome) -> (r: (
    SignatureValidation,
    Option<usize>,
))
    ensures
        r.0@ == properties_report(
            doc@,
            sig_node as int,
            core@,
            properties_of(doc@, sig_node as int, core@),
        ),
        tree::opt_place(r.1) == match properties_of(doc@, sig_node as int, core@) {
            Some(p) => p.unsigned_node,
            None => None,
        },
{
    let signature_id = match doc.attribute(sig_node, "Id") {
        Some(id) => Some(id.to_owned()),
        None => None,
    };
    let mut errors = text::copied_texts(&core.errors);
    let mut warnings: Vec<String> = Vec::new();
    assert(text::texts(warnings@) =~= Seq::<Seq<char>>::empty());
    let mut profile = Profile::B;
    let mut claimed_signing_time: Option<String> = None;
    let mut unsigned_node: Option<usize> = None;
    let mut signer_cert_der: Option<Vec<u8>> = None;
    if let Some(der) = &core.cert_der {
        let copy = vstd::slice::slice_to_vec(der.as_slice());
        assert(copy@ =~= der@);
        signer_cert_der = Some(copy);
    }
    match core.sp_node {
        Some(sp_node) => {
            if let Some(cert_der) = &core.cert_der {
                let mut found = xades::check_signed_properties(
                    doc,
                    sig_node,
                    sp_node,
                    cert_der.as_slice(),
                );
                proof {
                    text::lemma_texts_concat(errors@, found.errors@);
                }
                errors.append(&mut found.errors);
                warnings = found.warnings;
                profile = found.profile;
                claimed_signing_time = found.claimed_signing_time;
                unsigned_node = found.unsigned_node;
            }
        },
        None => {
            errors.push("SignedProperties could not be resolved".to_owned());
        },
    }
    assert(text::texts(errors@) =~= core@.errors + properties_errors(
        core@,
        properties_of(doc@, sig_node as int, core@),
    ));
    (
        SignatureValidation {
            signature_id,
            profile,
            errors,
            warnings,
            signer_cert_der,
            signer_subject: None,
            claimed_signing_time,
            timestamp_time: None,
            ocsp_time: None,
        },
        unsigned_node,
    )
}

/// Reads the further certificates from KeyInfo.
fn read_extras(ders: &Vec<Vec<u8>>) -> (r: (Vec<Cert>, Vec<String>))
    ensures
        x509::cert_views(r.0@) == ltv::parseable(text::byte_strings(ders@)),
        text::texts(r.1@) == keyinfo_warnings(text::byte_strings(ders@)),
{
    let ghost all = text::byte_strings(ders@);
    let mut extras: Vec<Cert> = Vec::new();
    let mut warnings: Vec<String> = Vec::new();
    let mut i: usize = 0;
    assert(all.take(0) =~= Seq::<Seq<u8>>::empty());
    assert(x509::cert_views(extras@) =~= Seq::<CertView>::empty());
    assert(text::texts(warnings@) =~= Seq::<Seq<char>>::empty());
    while i < ders.len()
        invariant
            i <= ders@.len(),
            all == text::byte_strings(ders@),
            x509::cert_views(extras@) == ltv::parseable(all.take(i as int)),
            text::texts(warnings@) == keyinfo_warnings(all.take(i as int)),
        decreases ders@.len() - i,
    {
        proof {
            assert(all.take(i + 1).drop_last() =~= all.take(i as int));
            assert(all.take(i + 1).last() == ders@[i as int]@);
        }
        match x509::parse_certificate(ders[i].as_slice()) {
            Ok(cert) => {
                proof {
                    x509::lemma_cert_views_push(extras@, cert);
                }
                extras.push(cert);
            },
            Err(_) => {
                warnings.push("KeyInfo certificate does not parse".to_owned());
            },
        }
        i += 1;
    }
    assert(all.take(i as int) =~= all);
    (extras, warnings)
}

/// Checks the unsigned properties where the profile calls for it, and the signer's chain.
fn report_signer(
    report: SignatureValidation,
    doc: &Tree,
    sig_node: usize,
    core: &CoreOutcome,
    unsigned_node: Option<usize>,
    leaf: Cert,
    trust: &Trust,
    wanted: Option<Time>,
    now: Time,
) -> (r: SignatureValidation)
    requires
        ({
            let found = properties_of(doc@, sig_node as int, core@);
            &&& report@ == properties_report(doc@, sig_node as int, core@, found)
            &&& tree::opt_place(unsigned_node) == match found {
                Some(p) => p.unsigned_node,
                None => None,
            }
        }),
    ensures
        r@ == with_signer(
            report@,
            doc@,
            sig_node as int,
            core@,
            properties_of(doc@, sig_node as int, core@),
            leaf@,
            trust@,
            time::opt_time(wanted),
            now@,
        ),
{
    let mut sv = report;
    let (extras, mut keyinfo) = read_extras(&core.extra_certs);
    proof {
        text::lemma_texts_concat(sv.warnings@, keyinfo@);
    }
    sv.warnings.append(&mut keyinfo);
    sv.signer_subject = Some(leaf.subject_text.clone());
    let mut pool = x509::copies(&extras);
    let ghost mut unsigned_errors: Seq<Seq<char>> = Seq::empty();
    let ghost mut unsigned_warnings: Seq<Seq<char>> = Seq::empty();
    let ghost mut unsigned_pool: Seq<CertView> = Seq::empty();
    assert(x509::cert_views(pool@) =~= x509::cert_views(extras@) + unsigned_pool);
    assert(text::texts(sv.errors@) =~= report@.errors + unsigned_errors);
    assert(text::texts(sv.warnings@) =~= report@.warnings + keyinfo_warnings(core@.extra_certs)
        + unsigned_warnings);
    if sv.profile == Profile::T || sv.profile == Profile::LT {
        if let Some(unsigned) = unsigned_node {
            let mut out = ltv::verify_unsigned(
                doc,
                sig_node,
                unsigned,
                &leaf,
                &extras,
                trust,
                now,
            );
            proof {
                unsigned_errors = out@.errors;
                unsigned_warnings = out@.warnings;
                unsigned_pool = out@.pool;
                text::lemma_texts_concat(sv.errors@, out.errors@);
                text::lemma_texts_concat(sv.warnings@, out.warnings@);
                x509::lemma_cert_views_concat(pool@, out.pool@);
            }
            sv.timestamp_time = out.timestamp_time;
            sv.ocsp_time = out.ocsp_produced_at;
            sv.errors.append(&mut out.errors);
            sv.warnings.append(&mut out.warnings);
            pool.append(&mut out.pool);
        }
        if sv.profile == Profile::T {
            sv.warnings.push(
                "T-level signature: no embedded revocation proof for the signer".to_owned(),
            );
        }
    }
    assert(text::texts(sv.warnings@) =~= report@.warnings + keyinfo_warnings(core@.extra_certs)
        + unsigned_warnings + level_warnings(report@.profile));
    let at = match sv.timestamp_time {
        Some(t) => t,
        None => match wanted {
            Some(t) => t,
            None => now,
        },
    };
    let mut of_chain = chain::check_chain(&leaf, &pool, trust, at);
    proof {
        text::lemma_texts_concat(sv.errors@, of_chain@);
    }
    sv.errors.append(&mut of_chain);
    sv
}

/// A certificate that parses or does not, where there is one.
pub open spec fn leaf_view(leaf: Option<Result<Cert, String>>) -> Option<
    Result<CertView, Seq<char>>,
> {
    match leaf {
        Some(r) => Some(x509::cert_result(r)),
        None => None,
    }
}

/// Reports on one signature, from what verifying the XML signature and parsing its certificate
/// gave.
pub fn assess_parsed(
    doc: &Tree,
    sig_node: usize,
    core: &CoreOutcome,
    leaf: Option<Result<Cert, String>>,
    trust: &Trust,
    wanted: Option<Time>,
    now: Time,
) -> (r: SignatureValidation)
    ensures
        r@ == parsed_report(
            doc@,
            sig_node as int,
            core@,
            leaf_view(leaf),
            trust@,
            time::opt_time(wanted),
            now@,
        ),
{
    let (mut report, unsigned_node) = report_properties(doc, sig_node, core);
    match leaf {
        None => {
            assert(report@.errors.len() == report.errors@.len());
            if report.errors.len() == 0 {
                report.errors.push("no signer certificate".to_owned());
                assert(text::texts(report.errors@) =~= seq!["no signer certificate"@]);
            }
            report
        },
        Some(Err(e)) => {
            report.errors.push(text::joined("signer certificate does not parse: ", e.as_str()));
            report
        },
        Some(Ok(cert)) => report_signer(
            report,
            doc,
            sig_node,
            core,
            unsigned_node,
            cert,
            trust,
            wanted,
            now,
        ),
    }
}

/// Reports on one signature, from what verifying the XML signature gave.
pub fn assess_signature(
    doc: &Tree,
    sig_node: usize,
    core: &CoreOutcome,
    trust: &Trust,
    wanted: Option<Time>,
    now: Time,
) -> (r: SignatureValidation)
    ensures
        r@ == signature_report(
            doc@,
            sig_node as int,
            core@,
            trust@,
            time::opt_time(wanted),
            now@,
        ),
{
    let leaf = match &core.cert_der {
        Some(der) => Some(x509::parse_certificate(der.as_slice())),
        None => None,
    };
    assess_parsed(doc, sig_node, core, leaf, trust, wanted, now)
}

/// The report on a document that cannot be validated.
pub open spec fn invalid_report(error: Seq<char>) -> ReportView {
    ReportView { errors: seq![error], ..blank_report() }
}

/// Reports that a document cannot be validated.
fn invalid_document(error: String) -> (r: Vec<SignatureValidation>)
    ensures
        r@.len() == 1,
        r@[0]@ == invalid_report(error@),
        report_views(r@) == seq![invalid_report(error@)],
{
    let mut sv = SignatureValidation::default();
    sv.errors.push(error);
    assert(text::texts(sv.errors@) =~= seq![error@]);
    let mut out: Vec<SignatureValidation> = Vec::new();
    out.push(sv);
    assert(report_views(out@) =~= seq![invalid_report(error@)]);
    out
}

/// The contents of a list of reports.
pub open spec fn report_views(list: Seq<SignatureValidation>) -> Seq<ReportView> {
    list.map_values(|r: SignatureValidation| r@)
}

/// The contents of a list of core results.
pub open spec fn core_views(list: Seq<CoreOutcome>) -> Seq<CoreView> {
    list.map_values(|c: CoreOutcome| c@)
}

/// Why a document cannot be validated, if it cannot, by how it parses and what is wrong with its
/// identifying attributes.
pub open spec fn document_finding(
    parsed: Result<TreeView, Seq<char>>,
    ids: Result<(), Seq<char>>,
) -> Option<Seq<char>> {
    match parsed {
        Err(e) => Some("signature document is not well-formed XML: "@ + e),
        Ok(doc) => match ids {
            Err(e) => Some("ID attributes: "@ + e),
            Ok(()) => if doc.descendants(0, ns::DSIG@, "Signature"@).len() == 0 {
                Some("document contains no ds:Signature"@)
            } else {
                None
            },
        },
    }
}

/// Judges whether a document that parses can be validated.
pub fn judge_document(doc: &Tree, ids: Result<(), String>) -> (r: Option<String>)
    ensures
        text::opt_text(r) == document_finding(Ok(doc@), text::check_view(ids)),
{
    match ids {
        Err(e) => Some(text::joined("ID attributes: ", e.as_str())),
        Ok(()) => {
            let sig_nodes = doc.descendants(0, ns::DSIG, "Signature");
            assert(tree::places(sig_nodes@).len() == sig_nodes@.len());
            if sig_nodes.len() == 0 {
                Some("document contains no ds:Signature".to_owned())
            } else {
                None
            }
        },
    }
}

/// Why a document cannot be validated, if it cannot.
pub open spec fn document_error(source: Seq<char>) -> Option<Seq<char>> {
    match input::parsed_document(source) {
        Ok(nodes) => document_finding(Ok(TreeView { source, nodes }), input::id_outcome(nodes)),
        Err(e) => document_finding(Err(e), Ok(())),
    }
}

/// The signatures of a document, in document order.
pub open spec fn signatures(source: Seq<char>, nodes: Seq<NodeView>) -> Seq<int> {
    (TreeView { source, nodes }).descendants(0, ns::DSIG@, "Signature"@)
}

/// The reports on some signatures of a document.
pub open spec fn signature_reports(
    doc: TreeView,
    sigs: Seq<int>,
    cores: Seq<CoreView>,
    anchors: Seq<Seq<u8>>,
    wanted: Option<TimeView>,
    now: TimeView,
) -> Seq<ReportView> {
    Seq::new(
        sigs.len(),
        |i: int| signature_report(doc, sigs[i], cores[i], anchors, wanted, now),
    )
}

/// What validating a document gives, from what verifying its XML signatures gave.
pub open spec fn validation_outcome(
    source: Seq<char>,
    cores: Seq<CoreView>,
    trusted: Seq<Seq<u8>>,
    wanted: Option<TimeView>,
    now: TimeView,
) -> Result<Seq<ReportView>, ErrorView> {
    match chain::store_outcome(trusted) {
        Err(e) => Err(e),
        Ok(anchors) => Ok(
            match document_error(source) {
                Some(error) => seq![invalid_report(error)],
                None => {
                    let nodes = input::parsed_document(source)->Ok_0;
                    signature_reports(
                        (TreeView { source, nodes }),
                        signatures(source, nodes),
                        cores,
                        anchors,
                        wanted,
                        now,
                    )
                },
            },
        ),
    }
}

/// Whether `outcomes` can be what `core` gives for the signatures of a document, one by one.
pub open spec fn verified_by<C: CoreVerifier>(
    core: &C,
    doc: &Tree,
    sigs: Seq<int>,
    files: &[DataObject<'_>],
    outcomes: Seq<CoreOutcome>,
) -> bool {
    &&& outcomes.len() == sigs.len()
    &&& forall|i: int|
        0 <= i < sigs.len() ==> call_ensures(
            C::verify_core,
            (core, doc, sigs[i] as usize, files),
            #[trigger] outcomes[i],
        )
}

/// Whether `outcomes` can be what `core` gives for the signatures of a document, if the anchors
/// are certificates and the document can be validated at all.
pub open spec fn core_run<C: CoreVerifier>(
    core: &C,
    source: Seq<char>,
    trusted: Seq<Seq<u8>>,
    files: &[DataObject<'_>],
    doc: &Tree,
    outcomes: Seq<CoreOutcome>,
) -> bool {
    chain::store_outcome(trusted) is Ok && document_error(source) is None ==> {
        &&& doc@.source == source
        &&& input::parsed_document(source) == Ok::<Seq<NodeView>, Seq<char>>(doc@.nodes)
        &&& verified_by(core, doc, signatures(source, doc@.nodes), files, outcomes)
    }
}

/// Reports or an error of the library, by content.
pub open spec fn reports_result(r: Result<Vec<SignatureValidation>, LibError>) -> Result<
    Seq<ReportView>,
    ErrorView,
> {
    match r {
        Ok(list) => Ok(report_views(list@)),
        Err(e) => Err(e@),
    }
}

/// Whether a verifier gives the same for the same signature, document and data files each time.
pub open spec fn is_steady<C: CoreVerifier>(core: &C) -> bool {
    forall|
        first: Tree,
        second: Tree,
        sig: usize,
        files: &[DataObject<'_>],
        a: CoreOutcome,
        b: CoreOutcome,
    |
        first@ == second@ && #[trigger] call_ensures(C::verify_core, (core, &first, sig, files), a)
            && #[trigger] call_ensures(C::verify_core, (core, &second, sig, files), b) ==> a@ == b@
}

/// Verifies and reports on the signatures of a document, one by one.
fn report_signatures<C: CoreVerifier>(
    doc: &Tree,
    sig_nodes: &Vec<usize>,
    files: &[DataObject<'_>],
    core: &C,
    trust: &Trust,
    wanted: Option<Time>,
    now: Time,
) -> (r: (Vec<SignatureValidation>, Ghost<Seq<CoreOutcome>>))
    ensures
        verified_by(core, doc, tree::places(sig_nodes@), files, r.1@),
        report_views(r.0@) == signature_reports(
            doc@,
            tree::places(sig_nodes@),
            core_views(r.1@),
            trust@,
            time::opt_time(wanted),
            now@,
        ),
{
    let ghost sigs = tree::places(sig_nodes@);
    let ghost mut outcomes: Seq<CoreOutcome> = Seq::empty();
    let mut results: Vec<SignatureValidation> = Vec::new();
    let mut i: usize = 0;
    while i < sig_nodes.len()
        invariant
            i <= sig_nodes@.len(),
            sigs == tree::places(sig_nodes@),
            outcomes.len() == i,
            results@.len() == i,
            forall|k: int|
                0 <= k < i ==> call_ensures(
                    C::verify_core,
                    (core, doc, sigs[k] as usize, files),
                    #[trigger] outcomes[k],
                ),
            forall|k: int|
                0 <= k < i ==> (#[trigger] results@[k])@ == signature_report(
                    doc@,
                    sigs[k],
                    outcomes[k]@,
                    trust@,
                    time::opt_time(wanted),
                    now@,
                ),
        decreases sig_nodes@.len() - i,
    {
        let sig_node: usize = sig_nodes[i];
        let outcome = core.verify_core(doc, sig_node, files);
        let sv = assess_signature(doc, sig_node, &outcome, trust, wanted, now);
        assert(sigs[i as int] == sig_node as int);
        results.push(sv);
        proof {
            outcomes = outcomes.push(outcome);
        }
        i += 1;
    }
    assert(report_views(results@) =~= signature_reports(
        doc@,
        sigs,
        core_views(outcomes),
        trust@,
        time::opt_time(wanted),
        now@,
    ));
    (results, Ghost(outcomes))
}

/// Validates every `ds:Signature` in a document against the given data objects, with `now` for
/// the current time.
pub fn validate_at<C: CoreVerifier>(
    signature_xml: &str,
    files: &[DataObject<'_>],
    options: &ValidationOptions,
    core: &C,
    now: Time,
) -> (r: Result<Vec<SignatureValidation>, LibError>)
    ensures
        exists|doc: Tree, outcomes: Seq<CoreOutcome>| #[trigger]
            core_run(
                core,
                signature_xml@,
                text::byte_strings(options.trusted_certs_der@),
                files,
                &doc,
                outcomes,
            ) && reports_result(r) == validation_outcome(
                signature_xml@,
                core_views(outcomes),
                text::byte_strings(options.trusted_certs_der@),
                time::opt_time(options.validation_time),
                now@,
            ),
{
    let ghost trusted = text::byte_strings(options.trusted_certs_der@);
    let trust = match chain::trust_store(&options.trusted_certs_der) {
        Ok(t) => t,
        Err(e) => {
            proof {
                lemma_nothing_to_verify(core, signature_xml@, trusted, files);
            }
            return Err(e);
        },
    };
    let doc = match input::parse(signature_xml) {
        Ok(d) => d,
        Err(e) => {
            proof {
                lemma_nothing_to_verify(core, signature_xml@, trusted, files);
            }
            return Ok(
                invalid_document(
                    text::joined("signature document is not well-formed XML: ", e.as_str()),
                ),
            );
        },
    };
    let finding = judge_document(&doc, input::check_ids(signature_xml));
    assert(text::opt_text(finding) == document_error(signature_xml@));
    if let Some(message) = finding {
        proof {
            lemma_nothing_to_verify(core, signature_xml@, trusted, files);
        }
        return Ok(invalid_document(message));
    }
    let sig_nodes = doc.descendants(0, ns::DSIG, "Signature");
    assert(doc@ == (TreeView { source: signature_xml@, nodes: doc@.nodes }));
    let (results, outcomes) = report_signatures(
        &doc,
        &sig_nodes,
        files,
        core,
        &trust,
        options.validation_time,
        now,
    );
    proof {
        assert(core_run(core, signature_xml@, trusted, files, &doc, outcomes@));
    }
    Ok(results)
}

/// Where nothing is to be verified, any core results will do.
proof fn lemma_nothing_to_verify<C: CoreVerifier>(
    core: &C,
    source: Seq<char>,
    trusted: Seq<Seq<u8>>,
    files: &[DataObject<'_>],
) -> (r: (Tree, Seq<CoreOutcome>))
    requires
        chain::store_outcome(trusted) is Err || document_error(source) is Some,
    ensures
        core_run(core, source, trusted, files, &r.0, r.1),
{
    (arbitrary(), Seq::empty())
}

/// Validates every `ds:Signature` in a signature document against the given data objects.
pub fn validate<C: CoreVerifier>(
    signature_xml: &str,
    files: &[DataObject<'_>],
    options: &ValidationOptions,
    core: &C,
) -> (r: Result<Vec<SignatureValidation>, LibError>)
    ensures
        exists|doc: Tree, outcomes: Seq<CoreOutcome>, now: Time|
            #[trigger] core_run(
                core,
                signature_xml@,
                text::byte_strings(options.trusted_certs_der@),
                files,
                &doc,
                outcomes,
            ) && #[trigger] call_ensures(Time::now, (), now) && reports_result(r)
                == validation_outcome(
                signature_xml@,
                core_views(outcomes),
                text::byte_strings(options.trusted_certs_der@),
                time::opt_time(options.validation_time),
                now@,
            ),
{
    let now = Time::now();
    validate_at(signature_xml, files, options, core, now)
}

} // verus!
