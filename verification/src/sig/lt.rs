//! Extending signatures with a time-stamp and revocation data.
use vstd::prelude::*;
use vstd::string::*;
use vstd::utf8;

use crate::chain;
use crate::error;
use crate::error::{ErrorView, LibError};
use crate::ns;
use crate::sig::readback;
use crate::sig::template;
use crate::sig::template::{Draft, DraftView, UnsignedData, UnsignedView};
use crate::text;
use crate::time::Time;
use crate::validate::ltv;
use crate::validate::ltv::HashAlgorithm;
use crate::x509;
use crate::x509::{Cert, CertView};
use crate::xml::input;
use crate::xml::input::C14nMethod;
use crate::xml::tree;
use crate::xml::tree::TreeView;

verus! {

/// What extending to LT level needs to know.
#[derive(Debug, Clone)]
pub struct LtConfig {
    /// RFC 3161 timestamping service URL.
    pub tsa_url: String,
    /// DER certificates completing the signer's chain.
    ///
    /// If empty, the chain is discovered automatically via the `caIssuers` URL.
    pub issuer_certs_der: Vec<Vec<u8>>,
}

/// A list with the items of another added that it does not hold yet.
pub open spec fn merged(candidates: Seq<Seq<u8>>, fetched: Seq<Seq<u8>>) -> Seq<Seq<u8>>
    decreases fetched.len(),
{
    if fetched.len() == 0 {
        candidates
    } else {
        merged(with_item(candidates, fetched[0]), fetched.skip(1))
    }
}

/// A list with an item added if it does not hold it yet.
pub open spec fn with_item(list: Seq<Seq<u8>>, item: Seq<u8>) -> Seq<Seq<u8>> {
    if list.contains(item) {
        list
    } else {
        list.push(item)
    }
}

/// Adds to the candidates what was fetched, without repeating any.
pub fn merge_candidates(candidates: Vec<Vec<u8>>, fetched: Vec<Vec<u8>>) -> (r: Vec<Vec<u8>>)
    ensures
        text::byte_strings(r@) == merged(
            text::byte_strings(candidates@),
            text::byte_strings(fetched@),
        ),
{
    let mut out = candidates;
    let ghost all = text::byte_strings(fetched@);
    let ghost start = text::byte_strings(candidates@);
    let mut i: usize = 0;
    assert(all.skip(0) =~= all);
    while i < fetched.len()
        invariant
            i <= fetched@.len(),
            all == text::byte_strings(fetched@),
            merged(start, all) == merged(text::byte_strings(out@), all.skip(i as int)),
        decreases fetched@.len() - i,
    {
        proof {
            assert(all.skip(i as int)[0] == fetched@[i as int]@);
            assert(all.skip(i as int).skip(1) =~= all.skip(i + 1));
        }
        if !chain::contains(&out, fetched[i].as_slice()) {
            let copy = vstd::slice::slice_to_vec(fetched[i].as_slice());
            proof {
                assert(copy@ =~= fetched@[i as int]@);
                text::byte_strings_push(out@, copy);
            }
            out.push(copy);
        }
        i += 1;
    }
    assert(all.skip(i as int) =~= Seq::<Seq<u8>>::empty());
    out
}

/// Merging keeps the candidates in front, adds all that was fetched, and adds nothing else.
pub proof fn merging_keeps_and_completes(candidates: Seq<Seq<u8>>, fetched: Seq<Seq<u8>>)
    ensures
        candidates.is_prefix_of(merged(candidates, fetched)),
        forall|x: Seq<u8>| #[trigger]
            merged(candidates, fetched).contains(x) <==> candidates.contains(x)
                || fetched.contains(x),
    decreases fetched.len(),
{
    let all = merged(candidates, fetched);
    if fetched.len() == 0 {
        assert(candidates =~= all.take(candidates.len() as int));
    } else {
        let next = with_item(candidates, fetched[0]);
        let rest = fetched.skip(1);
        merging_keeps_and_completes(next, rest);
        assert(next =~= all.take(next.len() as int));
        assert forall|k: int| 0 <= k < candidates.len() implies candidates[k] == all[k] by {
            assert(next[k] == candidates[k]);
            assert(all.take(next.len() as int)[k] == all[k]);
        }
        assert(candidates =~= all.take(candidates.len() as int));
        assert forall|x: Seq<u8>| #[trigger] all.contains(x) <==> candidates.contains(x)
            || fetched.contains(x) by {
            if next.contains(x) {
                let k = next.index_of(x);
                if k < candidates.len() {
                    assert(candidates[k] == x);
                } else {
                    assert(fetched[0] == x);
                }
            }
            if rest.contains(x) {
                let k = rest.index_of(x);
                assert(fetched[k + 1] == x);
            }
            if candidates.contains(x) {
                let k = candidates.index_of(x);
                assert(next[k] == x);
            }
            if fetched.contains(x) {
                let k = fetched.index_of(x);
                if k == 0 {
                    if candidates.contains(x) {
                        let m = candidates.index_of(x);
                        assert(next[m] == x);
                    } else {
                        assert(next[candidates.len() as int] == x);
                    }
                } else {
                    assert(rest[k - 1] == x);
                }
            }
        }
    }
}

/// What merging adds repeats nothing, neither of itself nor of the candidates.
pub proof fn merging_repeats_nothing(candidates: Seq<Seq<u8>>, fetched: Seq<Seq<u8>>)
    ensures
        ({
            let added = merged(candidates, fetched).skip(candidates.len() as int);
            &&& added.no_duplicates()
            &&& forall|x: Seq<u8>| #[trigger] added.contains(x) ==> !candidates.contains(x)
            &&& candidates.no_duplicates() ==> merged(candidates, fetched).no_duplicates()
        }),
{
    let nothing = Seq::<Seq<u8>>::empty();
    assert(candidates + nothing =~= candidates);
    lemma_added(candidates, nothing, fetched);
    let all = merged(candidates, fetched);
    let added = all.skip(candidates.len() as int);
    if candidates.no_duplicates() {
        assert forall|i: int, j: int|
            0 <= i < all.len() && 0 <= j < all.len() && i != j implies all[i] != all[j] by {
            let n = candidates.len() as int;
            if i >= n {
                assert(added[i - n] == all[i]);
                assert(added.contains(all[i]));
            }
            if j >= n {
                assert(added[j - n] == all[j]);
                assert(added.contains(all[j]));
            }
            if i < n {
                assert(candidates[i] == all[i]);
            }
            if j < n {
                assert(candidates[j] == all[j]);
            }
        }
    }
}

proof fn lemma_added(base: Seq<Seq<u8>>, extra: Seq<Seq<u8>>, fetched: Seq<Seq<u8>>)
    requires
        extra.no_duplicates(),
        forall|x: Seq<u8>| #[trigger] extra.contains(x) ==> !base.contains(x),
    ensures
        ({
            let all = merged(base + extra, fetched);
            let added = all.skip(base.len() as int);
            &&& all == base + added
            &&& added.no_duplicates()
            &&& forall|x: Seq<u8>| #[trigger] added.contains(x) ==> !base.contains(x)
        }),
    decreases fetched.len(),
{
    let start = base + extra;
    if fetched.len() == 0 {
        assert(start.skip(base.len() as int) =~= extra);
    } else if start.contains(fetched[0]) {
        lemma_added(base, extra, fetched.skip(1));
    } else {
        let item = fetched[0];
        let more = extra.push(item);
        assert forall|x: Seq<u8>| #[trigger] more.contains(x) implies !base.contains(x) by {
            let k = more.index_of(x);
            if k < extra.len() {
                assert(extra[k] == x);
                assert(extra.contains(x));
            } else if base.contains(x) {
                let m = base.index_of(x);
                assert(start[m] == x);
            }
        }
        assert forall|i: int, j: int|
            0 <= i < more.len() && 0 <= j < more.len() && i != j implies more[i] != more[j] by {
            if i < extra.len() {
                assert(start[base.len() + i] == more[i]);
            }
            if j < extra.len() {
                assert(start[base.len() + j] == more[j]);
            }
        }
        lemma_added(base, more, fetched.skip(1));
        assert(start.push(item) =~= base + more);
    }
}

/// Merging the same again changes nothing.
pub proof fn merging_twice_is_merging_once(candidates: Seq<Seq<u8>>, fetched: Seq<Seq<u8>>)
    ensures
        merged(merged(candidates, fetched), fetched) == merged(candidates, fetched),
{
    merging_keeps_and_completes(candidates, fetched);
    assert forall|k: int| 0 <= k < fetched.len() implies merged(candidates, fetched).contains(
        #[trigger] fetched[k],
    ) by {
        assert(fetched.contains(fetched[k]));
    }
    lemma_nothing_to_merge(merged(candidates, fetched), fetched);
}

proof fn lemma_nothing_to_merge(candidates: Seq<Seq<u8>>, fetched: Seq<Seq<u8>>)
    requires
        forall|k: int| 0 <= k < fetched.len() ==> candidates.contains(#[trigger] fetched[k]),
    ensures
        merged(candidates, fetched) == candidates,
    decreases fetched.len(),
{
    if fetched.len() > 0 {
        let rest = fetched.skip(1);
        assert(candidates.contains(fetched[0]));
        assert forall|k: int| 0 <= k < rest.len() implies candidates.contains(
            #[trigger] rest[k],
        ) by {
            assert(rest[k] == fetched[k + 1]);
        }
        lemma_nothing_to_merge(candidates, rest);
    }
}

/// The first of some candidates that is the issuer of a certificate, or why there is none.
pub open spec fn issuer_outcome(leaf: CertView, candidates: Seq<Seq<u8>>) -> Result<
    CertView,
    ErrorView,
>
    decreases candidates.len(),
{
    if candidates.len() == 0 {
        Err(ErrorView::Certificate("no issuer certificate provided for "@ + leaf.issuer_text))
    } else {
        match x509::certificate(candidates[0]) {
            Err(e) => Err(ErrorView::Certificate("issuer certificate: "@ + e)),
            Ok(cert) => if cert.subject == leaf.issuer {
                Ok(cert)
            } else {
                issuer_outcome(leaf, candidates.skip(1))
            },
        }
    }
}

/// A certificate or an error of the library, by content.
pub open spec fn cert_result(r: Result<Cert, LibError>) -> Result<CertView, ErrorView> {
    match r {
        Ok(c) => Ok(c@),
        Err(e) => Err(e@),
    }
}

/// Finds the issuer of a certificate among some candidates.
pub fn find_issuer(leaf: &Cert, candidates: &Vec<Vec<u8>>) -> (r: Result<Cert, LibError>)
    ensures
        cert_result(r) == issuer_outcome(leaf@, text::byte_strings(candidates@)),
{
    let ghost all = text::byte_strings(candidates@);
    let mut i: usize = 0;
    assert(all.skip(0) =~= all);
    while i < candidates.len()
        invariant
            i <= candidates@.len(),
            all == text::byte_strings(candidates@),
            issuer_outcome(leaf@, all) == issuer_outcome(leaf@, all.skip(i as int)),
        decreases candidates@.len() - i,
    {
        proof {
            assert(all.skip(i as int)[0] == candidates@[i as int]@);
            assert(all.skip(i as int).skip(1) =~= all.skip(i + 1));
        }
        match x509::parse_certificate(candidates[i].as_slice()) {
            Err(e) => {
                return Err(LibError::Certificate(text::joined("issuer certificate: ", e.as_str())));
            },
            Ok(cert) => {
                if text::same_bytes(cert.subject.as_slice(), leaf.issuer.as_slice()) {
                    return Ok(cert);
                }
            },
        }
        i += 1;
    }
    assert(all.skip(i as int) =~= Seq::<Seq<u8>>::empty());
    Err(
        LibError::Certificate(
            text::joined("no issuer certificate provided for ", leaf.issuer_text.as_str()),
        ),
    )
}

/// An issuer that is found is one of the candidates, and has the name that the certificate gives.
pub proof fn found_issuer_is_a_candidate(leaf: CertView, candidates: Seq<Seq<u8>>)
    ensures
        issuer_outcome(leaf, candidates) matches Ok(issuer) ==> candidates.contains(issuer.der)
            && issuer.subject == leaf.issuer,
    decreases candidates.len(),
{
    if candidates.len() > 0 {
        let rest = candidates.skip(1);
        found_issuer_is_a_candidate(leaf, rest);
        if let Ok(issuer) = issuer_outcome(leaf, candidates) {
            if issuer.der == candidates[0] {
                assert(candidates[0] == issuer.der);
            } else {
                let k = rest.index_of(issuer.der);
                assert(candidates[k + 1] == issuer.der);
            }
        }
    }
}

/// A signature that has been made.
pub struct CreatedSignature {
    draft: Draft,
    xml: String,
}

/// A draft with unsigned properties.
pub open spec fn extended(
    draft: DraftView,
    token: Seq<u8>,
    ocsp_values: Seq<Seq<u8>>,
    cert_values: Seq<Seq<u8>>,
) -> DraftView {
    DraftView {
        unsigned: Some(
            UnsignedView {
                timestamp_der: token,
                timestamp_c14n_uri: draft.c14n_uri,
                cert_values,
                ocsp_values,
            },
        ),
        ..draft
    }
}

/// What a time-stamp of the signature that a draft gives covers, or why it covers nothing.
pub open spec fn covered_outcome(draft: DraftView) -> Result<Seq<u8>, ErrorView> {
    if C14nMethod::is_uri(draft.c14n_uri) {
        Ok(utf8::encode_utf8(readback::covered_text(draft, draft.c14n_uri)))
    } else {
        Err(ErrorView::Unsupported("timestamp canonicalization: "@ + draft.c14n_uri))
    }
}

/// Adding unsigned properties changes nothing of what a time-stamp of a signature covers.
pub proof fn extension_covers_the_same(
    draft: DraftView,
    token: Seq<u8>,
    ocsp_values: Seq<Seq<u8>>,
    cert_values: Seq<Seq<u8>>,
)
    ensures
        covered_outcome(extended(draft, token, ocsp_values, cert_values)) == covered_outcome(draft),
{
}

impl CreatedSignature {
    /// What the signature was made from.
    pub closed spec fn draft(self) -> DraftView {
        self.draft@
    }

    /// The signature document.
    pub closed spec fn document(self) -> Seq<char> {
        self.xml@
    }

    #[verifier::type_invariant]
    spec fn is_built(self) -> bool {
        &&& template::document_outcome(self.draft@) == Ok::<Seq<char>, ErrorView>(self.xml@)
        &&& template::token_reads_back(self.draft@)
        &&& template::data_reads_back(self.draft@)
    }

    /// Makes a signature from its data.
    pub fn new(draft: Draft) -> (r: Result<CreatedSignature, LibError>)
        ensures
            match r {
                Ok(s) => s.draft() == draft@ && template::document_outcome(draft@) == Ok::<
                    Seq<char>,
                    ErrorView,
                >(s.document()) && template::data_reads_back(draft@),
                Err(e) => template::document_outcome(draft@) == Err::<Seq<char>, ErrorView>(e@),
            },
    {
        let xml = template::build_signature_xml(&draft)?;
        Ok(CreatedSignature { draft, xml })
    }

    /// The signature document, which is the one that the signature's data describes. All bytes in
    /// it read back.
    pub fn into_xml(self) -> (r: String)
        ensures
            r@ == self.document(),
            template::document_outcome(self.draft()) == Ok::<Seq<char>, ErrorView>(r@),
            template::token_reads_back(self.draft()),
            template::data_reads_back(self.draft()),
    {
        proof {
            use_type_invariant(&self);
        }
        self.xml
    }

    /// What a time-stamp of the signature covers: the signature value in canonical form, whatever
    /// unsigned properties the signature has.
    pub fn timestamp_input(&self) -> (r: Result<Vec<u8>, LibError>)
        ensures
            error::bytes_result(r) == covered_outcome(self.draft()),
    {
        proof {
            use_type_invariant(self);
            readback::built_document_is_written(self.draft@, self.xml@);
        }
        let method = match C14nMethod::from_uri(self.draft.c14n_uri.as_str()) {
            Some(m) => m,
            None => {
                return Err(
                    LibError::Unsupported(
                        text::joined(
                            "timestamp canonicalization: ",
                            self.draft.c14n_uri.as_str(),
                        ),
                    ),
                );
            },
        };
        let doc = match input::parse(self.xml.as_str()) {
            Ok(d) => d,
            Err(e) => {
                return Err(LibError::Xml(e));
            },
        };
        let sigs = doc.descendants(0, ns::DSIG, "Signature");
        proof {
            assert(doc@ == (TreeView { source: self.xml@, nodes: doc@.nodes }));
            assert(tree::places(sigs@).len() == sigs@.len());
            readback::built_document_holds_one_signature(self.draft@, doc@);
        }
        if sigs.len() == 0 {
            return Err(LibError::Xml("document contains no ds:Signature".to_owned()));
        }
        assert(tree::places(sigs@)[0] == sigs@[0] as int);
        let value = match doc.child(sigs[0], ns::DSIG, "SignatureValue") {
            Some(n) => n,
            None => {
                proof {
                    let uri = self.draft@.c14n_uri;
                    let sig = sigs@[0] as int;
                    assert(doc@.descendants(0, ns::DSIG@, "Signature"@)[0] == sig);
                    readback::built_signature_value_is_covered(self.draft@, doc@, sig, uri);
                }
                return Err(LibError::Xml("signature has no SignatureValue".to_owned()));
            },
        };
        let covered = doc.canonicalize(value, method);
        proof {
            let found = doc@.descendants(0, ns::DSIG@, "Signature"@);
            assert(found[0] == sigs@[0] as int);
            readback::built_signature_value_is_covered(
                self.draft@,
                doc@,
                sigs@[0] as int,
                self.draft@.c14n_uri,
            );
        }
        match covered {
            Some(bytes) => Ok(bytes),
            None => Err(LibError::Xml("SignatureValue canonicalization failed".to_owned())),
        }
    }

    /// The SHA-256 hash that a time-stamping service is asked to time-stamp.
    pub fn timestamp_hash(&self) -> (r: Result<Vec<u8>, LibError>)
        ensures
            error::bytes_result(r) == match covered_outcome(self.draft()) {
                Ok(bytes) => Ok(ltv::hashed("SHA-256"@, bytes)),
                Err(e) => Err(e),
            },
    {
        let covered = self.timestamp_input()?;
        Ok(ltv::hash(HashAlgorithm::Sha256, covered.as_slice()))
    }

    /// Adds unsigned properties.
    fn extend_with(
        self,
        token: Vec<u8>,
        ocsp_values: Vec<Vec<u8>>,
        cert_values: Vec<Vec<u8>>,
    ) -> (r: Result<CreatedSignature, LibError>)
        ensures
            r is Ok,
            r->Ok_0.draft() == extended(
                self.draft(),
                token@,
                text::byte_strings(ocsp_values@),
                text::byte_strings(cert_values@),
            ),
            template::document_outcome(r->Ok_0.draft()) == Ok::<Seq<char>, ErrorView>(
                r->Ok_0.document(),
            ),
            template::data_reads_back(r->Ok_0.draft()),
    {
        proof {
            use_type_invariant(&self);
        }
        let mut draft = self.draft;
        let timestamp_c14n_uri = draft.c14n_uri.clone();
        draft.unsigned = Some(
            UnsignedData { timestamp_der: token, timestamp_c14n_uri, cert_values, ocsp_values },
        );
        assert(draft@ == extended(
            self.draft@,
            token@,
            text::byte_strings(ocsp_values@),
            text::byte_strings(cert_values@),
        ));
        CreatedSignature::new(draft)
    }

    /// Adds a signature time-stamp. Nothing else of the signature changes.
    pub fn extend_to_t_with(self, token: Vec<u8>) -> (r: Result<CreatedSignature, LibError>)
        ensures
            r is Ok,
            r->Ok_0.draft() == extended(self.draft(), token@, Seq::empty(), Seq::empty()),
            template::document_outcome(r->Ok_0.draft()) == Ok::<Seq<char>, ErrorView>(
                r->Ok_0.document(),
            ),
            template::data_reads_back(r->Ok_0.draft()),
    {
        let none: Vec<Vec<u8>> = Vec::new();
        let no_more: Vec<Vec<u8>> = Vec::new();
        assert(text::byte_strings(none@) =~= Seq::<Seq<u8>>::empty());
        assert(text::byte_strings(no_more@) =~= Seq::<Seq<u8>>::empty());
        self.extend_with(token, none, no_more)
    }

    /// Adds a signature time-stamp, OCSP responses and certificates. Nothing else of the signature
    /// changes.
    pub fn extend_to_lt_with(
        self,
        token: Vec<u8>,
        ocsp_values: Vec<Vec<u8>>,
        cert_values: Vec<Vec<u8>>,
    ) -> (r: Result<CreatedSignature, LibError>)
        ensures
            r is Ok,
            r->Ok_0.draft() == extended(
                self.draft(),
                token@,
                text::byte_strings(ocsp_values@),
                text::byte_strings(cert_values@),
            ),
            template::document_outcome(r->Ok_0.draft()) == Ok::<Seq<char>, ErrorView>(
                r->Ok_0.document(),
            ),
            template::data_reads_back(r->Ok_0.draft()),
    {
        self.extend_with(token, ocsp_values, cert_values)
    }

    /// Completes extending the signature to T level.
    ///
    /// `reply` is what the time-stamping service at `tsa_url` answered to the hash of the
    /// signature: a token, or the reason why there is none.
    pub fn extend_to_t(self, tsa_url: &str, reply: Result<Vec<u8>, String>) -> (r: Result<
        CreatedSignature,
        LibError,
    >)
        ensures
            match reply {
                Ok(token) => r is Ok && r->Ok_0.draft() == extended(
                    self.draft(),
                    token@,
                    Seq::empty(),
                    Seq::empty(),
                ) && template::document_outcome(r->Ok_0.draft()) == Ok::<Seq<char>, ErrorView>(
                    r->Ok_0.document(),
                ),
                Err(e) => r matches Err(error) && error@ == ErrorView::Timestamp(
                    "TSA "@ + tsa_url@ + (": "@ + e@),
                ),
            },
    {
        match reply {
            Ok(token) => self.extend_to_t_with(token),
            Err(e) => Err(timestamp_err(tsa_url, e.as_str())),
        }
    }
}

/// Error for a time-stamping service that fails.
fn timestamp_err(tsa_url: &str, e: &str) -> (r: LibError)
    ensures
        r@ == ErrorView::Timestamp("TSA "@ + tsa_url@ + (": "@ + e@)),
{
    let reason = text::joined(": ", e);
    LibError::Timestamp(text::joined3("TSA ", tsa_url, reason.as_str()))
}

/// What is known while a signature is being extended to LT level.
pub struct LtView {
    /// What the signature was made from.
    pub draft: DraftView,
    /// The signature document.
    pub document: Seq<char>,
    /// The signing certificate.
    pub leaf: CertView,
    /// The time-stamping service.
    pub tsa_url: Seq<char>,
    /// Certificates that complete the signer's chain.
    pub candidates: Seq<Seq<u8>>,
}

/// What is known while a signature is being extended to LT level.
struct Extension {
    signature: CreatedSignature,
    leaf: Cert,
    tsa_url: String,
    candidates: Vec<Vec<u8>>,
}

impl View for Extension {
    type V = LtView;

    closed spec fn view(&self) -> LtView {
        LtView {
            draft: self.signature.draft(),
            document: self.signature.document(),
            leaf: self.leaf@,
            tsa_url: self.tsa_url@,
            candidates: text::byte_strings(self.candidates@),
        }
    }
}

/// An extension that has to fetch the signer's chain next.
pub struct IssuerFetch {
    extension: Extension,
}

/// An extension that has to ask for a time-stamp next.
pub struct TimestampRequest {
    extension: Extension,
    issuer: Cert,
}

/// An extension that has its time-stamp and has to ask for the certificate's status next.
///
/// It comes from a [`TimestampRequest`] only, so that the time-stamp predates the OCSP response.
pub struct StatusRequest {
    extension: Extension,
    issuer: Cert,
    token: Vec<u8>,
}

/// How extending to LT level starts.
pub enum LtStart {
    /// The issuer is not among the given certificates.
    FetchIssuers(IssuerFetch),
    /// The issuer is known.
    RequestTimestamp(TimestampRequest),
}

impl View for IssuerFetch {
    type V = LtView;

    closed spec fn view(&self) -> LtView {
        self.extension@
    }
}

impl View for TimestampRequest {
    type V = (LtView, CertView);

    closed spec fn view(&self) -> (LtView, CertView) {
        (self.extension@, self.issuer@)
    }
}

impl View for StatusRequest {
    type V = (LtView, CertView, Seq<u8>);

    closed spec fn view(&self) -> (LtView, CertView, Seq<u8>) {
        (self.extension@, self.issuer@, self.token@)
    }
}

/// Whether an extension starts as it should: by asking for a time-stamp where the issuer is among
/// the given certificates, and by fetching the signer's chain where it is not.
pub open spec fn starts(start: LtStart, known: LtView) -> bool {
    match issuer_outcome(known.leaf, known.candidates) {
        Ok(issuer) => start matches LtStart::RequestTimestamp(next) && next@ == (known, issuer),
        Err(_) => start matches LtStart::FetchIssuers(next) && next@ == known,
    }
}

impl CreatedSignature {
    /// Starts extending the signature to LT level by adding a signature time-stamp, the signer
    /// certificate's OCSP response, and the validation issuer certificates.
    pub fn extend_to_lt(self, config: &LtConfig) -> (r: Result<LtStart, LibError>)
        ensures
            match x509::certificate(self.draft().cert_der) {
                Err(e) => r matches Err(error) && error@ == ErrorView::Certificate(
                    "signer certificate: "@ + e,
                ),
                Ok(leaf) => r is Ok && starts(
                    r->Ok_0,
                    (LtView {
                        draft: self.draft(),
                        document: self.document(),
                        leaf,
                        tsa_url: config.tsa_url@,
                        candidates: text::byte_strings(config.issuer_certs_der@),
                    }),
                ),
            },
    {
        let leaf = match x509::parse_certificate(self.draft.cert_der.as_slice()) {
            Ok(c) => c,
            Err(e) => {
                return Err(LibError::Certificate(text::joined("signer certificate: ", e.as_str())));
            },
        };
        let candidates = text::copied(config.issuer_certs_der.as_slice());
        let found = find_issuer(&leaf, &candidates);
        let extension = Extension {
            signature: self,
            leaf,
            tsa_url: config.tsa_url.clone(),
            candidates,
        };
        match found {
            Ok(issuer) => Ok(LtStart::RequestTimestamp(TimestampRequest { extension, issuer })),
            Err(_) => Ok(LtStart::FetchIssuers(IssuerFetch { extension })),
        }
    }
}

/// Where no certificates are given, the signer's chain is fetched.
pub proof fn without_candidates_the_chain_is_fetched(start: LtStart, known: LtView)
    requires
        starts(start, known),
        known.candidates.len() == 0,
    ensures
        start is FetchIssuers,
{
}

/// The certificates above the first of a chain.
pub open spec fn above_leaf(chain: Seq<Seq<u8>>) -> Seq<Seq<u8>> {
    if chain.len() == 0 {
        chain
    } else {
        chain.skip(1)
    }
}

/// Drops the first certificate of a chain.
fn without_leaf(chain: Vec<Vec<u8>>) -> (r: Vec<Vec<u8>>)
    ensures
        text::byte_strings(r@) == above_leaf(text::byte_strings(chain@)),
{
    let mut chain = chain;
    if chain.len() > 0 {
        let ghost all = text::byte_strings(chain@);
        chain.remove(0);
        assert(text::byte_strings(chain@) =~= all.skip(1));
    }
    chain
}

impl IssuerFetch {
    /// The certificate whose chain is to be fetched.
    pub fn certificate_der(&self) -> (r: &[u8])
        ensures
            r@ == self@.leaf.der,
    {
        self.extension.leaf.der.as_slice()
    }

    /// Goes on with the chain that was fetched, the signer's certificate first; or with the reason
    /// why there is none.
    pub fn complete(self, fetched: Result<Vec<Vec<u8>>, String>) -> (r: Result<
        TimestampRequest,
        LibError,
    >)
        ensures
            match fetched {
                Err(e) => r matches Err(error) && error@ == ErrorView::Certificate(
                    "AIA issuer fetch: "@ + e@,
                ),
                Ok(chain) => {
                    let candidates = merged(
                        self@.candidates,
                        above_leaf(text::byte_strings(chain@)),
                    );
                    match issuer_outcome(self@.leaf, candidates) {
                        Ok(issuer) => r is Ok && r->Ok_0@ == (
                            (LtView { candidates, ..self@ }),
                            issuer,
                        ),
                        Err(_) => r matches Err(error) && error@ == ErrorView::Certificate(
                            "no issuer certificate provided for "@ + self@.leaf.issuer_text
                                + " and caIssuers discovery found none"@,
                        ),
                    }
                },
            },
    {
        let chain = match fetched {
            Ok(c) => c,
            Err(e) => {
                return Err(LibError::Certificate(text::joined("AIA issuer fetch: ", e.as_str())));
            },
        };
        let Extension { signature, leaf, tsa_url, candidates } = self.extension;
        let candidates = merge_candidates(candidates, without_leaf(chain));
        match find_issuer(&leaf, &candidates) {
            Ok(issuer) => Ok(
                TimestampRequest {
                    extension: Extension { signature, leaf, tsa_url, candidates },
                    issuer,
                },
            ),
            Err(_) => Err(
                LibError::Certificate(
                    text::joined3(
                        "no issuer certificate provided for ",
                        leaf.issuer_text.as_str(),
                        " and caIssuers discovery found none",
                    ),
                ),
            ),
        }
    }
}

impl TimestampRequest {
    /// The time-stamping service to ask.
    pub fn tsa_url(&self) -> (r: &str)
        ensures
            r@ == self@.0.tsa_url,
    {
        self.extension.tsa_url.as_str()
    }

    /// The SHA-256 hash to ask for.
    pub fn hash(&self) -> (r: Result<Vec<u8>, LibError>)
        ensures
            error::bytes_result(r) == match covered_outcome(self@.0.draft) {
                Ok(bytes) => Ok(ltv::hashed("SHA-256"@, bytes)),
                Err(e) => Err(e),
            },
    {
        self.extension.signature.timestamp_hash()
    }

    /// Goes on with the token that the service gave, or with the reason why it gave none.
    pub fn complete(self, reply: Result<Vec<u8>, String>) -> (r: Result<StatusRequest, LibError>)
        ensures
            match reply {
                Ok(token) => r is Ok && r->Ok_0@ == (self@.0, self@.1, token@),
                Err(e) => r matches Err(error) && error@ == ErrorView::Timestamp(
                    "TSA "@ + self@.0.tsa_url + (": "@ + e@),
                ),
            },
    {
        match reply {
            Ok(token) => Ok(
                StatusRequest { extension: self.extension, issuer: self.issuer, token },
            ),
            Err(e) => Err(timestamp_err(self.extension.tsa_url.as_str(), e.as_str())),
        }
    }
}

/// What an OCSP response has to say for a signature to be extended: that the certificate is good.
pub open spec fn status_error(status: Result<Option<Seq<char>>, Seq<char>>) -> Option<ErrorView> {
    match status {
        Ok(None) => None,
        Ok(Some(other)) => Some(
            ErrorView::Ocsp("signer certificate revocation status is not good: "@ + other),
        ),
        Err(e) => Some(ErrorView::Ocsp("OCSP response invalid: "@ + e)),
    }
}

/// Accepts a status that is good.
pub fn check_status(status: Result<Option<String>, String>) -> (r: Result<(), LibError>)
    ensures
        match status_error(ltv::status_view(status)) {
            None => r is Ok,
            Some(e) => r matches Err(error) && error@ == e,
        },
{
    match status {
        Ok(None) => Ok(()),
        Ok(Some(other)) => Err(
            LibError::Ocsp(
                text::joined(
                    "signer certificate revocation status is not good: ",
                    other.as_str(),
                ),
            ),
        ),
        Err(e) => Err(LibError::Ocsp(text::joined("OCSP response invalid: ", e.as_str()))),
    }
}

impl StatusRequest {
    /// The certificate whose status is asked for.
    pub fn certificate_der(&self) -> (r: &[u8])
        ensures
            r@ == self@.0.leaf.der,
    {
        self.extension.leaf.der.as_slice()
    }

    /// The issuer of the certificate.
    pub fn issuer_der(&self) -> (r: &[u8])
        ensures
            r@ == self@.1.der,
    {
        self.issuer.der.as_slice()
    }

    /// Completes the extension with an OCSP response and the nonce of its request, or with the
    /// reason why there is none. The response is checked as of `now`.
    pub fn complete(self, reply: Result<(Vec<u8>, Vec<u8>), String>, now: Time) -> (r: Result<
        CreatedSignature,
        LibError,
    >)
        ensures
            match reply {
                Err(e) => r matches Err(error) && error@ == ErrorView::Ocsp("OCSP fetch: "@ + e@),
                Ok((response, nonce)) => match status_error(
                    ltv::revocation_outcome(
                        response@,
                        self@.0.leaf.der,
                        self@.1.der,
                        Some(nonce@),
                        now@.secs,
                        now@.nanos,
                    ),
                ) {
                    Some(e) => r matches Err(error) && error@ == e,
                    None => r is Ok && r->Ok_0.draft() == extended(
                        self@.0.draft,
                        self@.2,
                        seq![response@],
                        self@.0.candidates,
                    ) && template::document_outcome(r->Ok_0.draft()) == Ok::<
                        Seq<char>,
                        ErrorView,
                    >(r->Ok_0.document()),
                },
            },
    {
        let (response, nonce) = match reply {
            Ok(given) => given,
            Err(e) => {
                return Err(LibError::Ocsp(text::joined("OCSP fetch: ", e.as_str())));
            },
        };
        check_status(
            ltv::check_revocation(
                response.as_slice(),
                &self.extension.leaf,
                &self.issuer,
                Some(nonce.as_slice()),
                now,
            ),
        )?;
        let mut ocsp_values: Vec<Vec<u8>> = Vec::new();
        ocsp_values.push(response);
        assert(text::byte_strings(ocsp_values@) =~= seq![response@]);
        let Extension { signature, leaf, tsa_url, candidates } = self.extension;
        signature.extend_to_lt_with(self.token, ocsp_values, candidates)
    }
}

/// The issuer is the first of the candidates with the name that the certificate gives. A candidate
/// before it that is no certificate ends the search, and so does the end of the list; the reason is
/// said.
pub proof fn issuer_is_the_first_of_its_name(leaf: CertView, candidates: Seq<Seq<u8>>, k: int)
    requires
        0 <= k <= candidates.len(),
        forall|i: int|
            0 <= i < k ==> (x509::certificate_parts(#[trigger] candidates[i]) matches Ok(parts)
                && parts.0 != leaf.issuer),
    ensures
        k == candidates.len() ==> issuer_outcome(leaf, candidates) == Err::<CertView, ErrorView>(
            ErrorView::Certificate("no issuer certificate provided for "@ + leaf.issuer_text),
        ),
        k < candidates.len() ==> (x509::certificate_parts(candidates[k]) matches Err(e)
            ==> issuer_outcome(leaf, candidates) == Err::<CertView, ErrorView>(
            ErrorView::Certificate("issuer certificate: "@ + e),
        )),
        k < candidates.len() ==> (x509::certificate_parts(candidates[k]) matches Ok(parts) ==> (
        parts.0 == leaf.issuer ==> issuer_outcome(leaf, candidates) is Ok && (issuer_outcome(
            leaf,
            candidates,
        )->Ok_0).der == candidates[k])),
    decreases candidates.len(),
{
    if k > 0 {
        let rest = candidates.skip(1);
        assert(x509::certificate_parts(candidates[0]) is Ok);
        assert forall|i: int| 0 <= i < k - 1 implies (x509::certificate_parts(
            #[trigger] rest[i],
        ) matches Ok(parts) && parts.0 != leaf.issuer) by {
            assert(rest[i] == candidates[i + 1]);
        }
        issuer_is_the_first_of_its_name(leaf, rest, k - 1);
    }
}

/// Of a fetched chain all but the first certificate is kept.
pub proof fn chain_above_the_first(first: Seq<u8>, rest: Seq<Seq<u8>>)
    ensures
        above_leaf(seq![first] + rest) == rest,
        above_leaf(Seq::empty()).len() == 0,
{
    assert((seq![first] + rest).skip(1) =~= rest);
}

/// Only a status that is good is accepted; what is wrong with another is said.
pub proof fn only_a_good_status_is_accepted(status: Result<Option<Seq<char>>, Seq<char>>)
    ensures
        status_error(status) is None <==> status == Ok::<Option<Seq<char>>, Seq<char>>(None),
        status matches Err(e) ==> status_error(status) == Some(
            ErrorView::Ocsp("OCSP response invalid: "@ + e),
        ),
        status matches Ok(given) ==> (given matches Some(other) ==> status_error(status) == Some(
            ErrorView::Ocsp("signer certificate revocation status is not good: "@ + other),
        )),
{
}

/// An extension asks for a time-stamp at once exactly if one of the given certificates is the
/// issuer, with none before it that is no certificate; and it goes on with all that was given.
pub proof fn extension_starts_with_what_was_given(
    signature: CreatedSignature,
    config: &LtConfig,
    r: Result<LtStart, LibError>,
)
    requires
        call_ensures(CreatedSignature::extend_to_lt, (signature, config), r),
    ensures
        x509::certificate_parts(signature.draft().cert_der) matches Err(e) ==> (r matches Err(error)
            && error@ == ErrorView::Certificate("signer certificate: "@ + e)),
        x509::certificate_parts(signature.draft().cert_der) is Ok ==> {
            &&& r is Ok
            &&& r->Ok_0 is RequestTimestamp <==> issuer_outcome(
                x509::certificate(signature.draft().cert_der)->Ok_0,
                text::byte_strings(config.issuer_certs_der@),
            ) is Ok
            &&& r->Ok_0 matches LtStart::RequestTimestamp(next) ==> {
                &&& next@.0.draft == signature.draft()
                &&& next@.0.document == signature.document()
                &&& next@.0.leaf.der == signature.draft().cert_der
                &&& next@.0.tsa_url == config.tsa_url@
                &&& next@.0.candidates == text::byte_strings(config.issuer_certs_der@)
                &&& next@.0.candidates.contains(next@.1.der)
                &&& next@.1.subject == next@.0.leaf.issuer
            }
            &&& r->Ok_0 matches LtStart::FetchIssuers(next) ==> {
                &&& next@.draft == signature.draft()
                &&& next@.document == signature.document()
                &&& next@.leaf.der == signature.draft().cert_der
                &&& next@.tsa_url == config.tsa_url@
                &&& next@.candidates == text::byte_strings(config.issuer_certs_der@)
            }
        },
{
    if x509::certificate_parts(signature.draft().cert_der) is Ok {
        let leaf = x509::certificate(signature.draft().cert_der)->Ok_0;
        found_issuer_is_a_candidate(leaf, text::byte_strings(config.issuer_certs_der@));
    }
}

/// Going on with a fetched chain keeps the signature, the service and the certificates that were
/// given, and adds those of the chain above the first.
pub proof fn fetched_chain_is_added(
    fetch: IssuerFetch,
    chain: Vec<Vec<u8>>,
    r: Result<TimestampRequest, LibError>,
)
    requires
        call_ensures(IssuerFetch::complete, (fetch, Ok(chain)), r),
    ensures
        r matches Ok(next) ==> {
            &&& next@.0.draft == fetch@.draft
            &&& next@.0.document == fetch@.document
            &&& next@.0.leaf == fetch@.leaf
            &&& next@.0.tsa_url == fetch@.tsa_url
            &&& fetch@.candidates.is_prefix_of(next@.0.candidates)
            &&& forall|i: int|
                1 <= i < chain@.len() ==> next@.0.candidates.contains((#[trigger] chain@[i])@)
            &&& forall|x: Seq<u8>| #[trigger]
                next@.0.candidates.contains(x) ==> fetch@.candidates.contains(x) || exists|i: int|
                    1 <= i < chain@.len() && (#[trigger] chain@[i])@ == x
            &&& next@.0.candidates.contains(next@.1.der)
            &&& next@.1.subject == fetch@.leaf.issuer
        },
{
    let all = text::byte_strings(chain@);
    let more = above_leaf(all);
    merging_keeps_and_completes(fetch@.candidates, more);
    let candidates = merged(fetch@.candidates, more);
    found_issuer_is_a_candidate(fetch@.leaf, candidates);
    assert forall|i: int| 1 <= i < chain@.len() implies candidates.contains(
        (#[trigger] chain@[i])@,
    ) by {
        assert(more[i - 1] == chain@[i]@);
        assert(more.contains(chain@[i]@));
    }
    let given = fetch@.candidates;
    assert forall|x: Seq<u8>| #[trigger] candidates.contains(x) implies given.contains(x)
        || exists|i: int| 1 <= i < chain@.len() && (#[trigger] chain@[i])@ == x by {
        if more.contains(x) {
            let k = more.index_of(x);
            assert(chain@[k + 1]@ == x);
        }
    }
}

/// Going on with a token keeps what is known, and the token; a service that gave none is an error
/// with its address and its reason.
pub proof fn token_is_kept(
    request: TimestampRequest,
    reply: Result<Vec<u8>, String>,
    r: Result<StatusRequest, LibError>,
)
    requires
        call_ensures(TimestampRequest::complete, (request, reply), r),
    ensures
        reply matches Ok(token) ==> (r matches Ok(next) && next@.0 == request@.0 && next@.1
            == request@.1 && next@.2 == token@),
        reply matches Err(e) ==> (r matches Err(error) && error@ == ErrorView::Timestamp(
            "TSA "@ + request@.0.tsa_url + (": "@ + e@),
        )),
{
}

/// Merging goes item by item, in order: two lists one after the other are merged as the one and
/// then the other, and a single item is put at the end unless it is there.
pub proof fn merging_goes_in_order(
    candidates: Seq<Seq<u8>>,
    first: Seq<Seq<u8>>,
    second: Seq<Seq<u8>>,
    item: Seq<u8>,
)
    ensures
        merged(candidates, first + second) == merged(merged(candidates, first), second),
        candidates.contains(item) ==> merged(candidates, seq![item]) == candidates,
        !candidates.contains(item) ==> merged(candidates, seq![item]) == candidates.push(item),
        merged(candidates, Seq::empty()) == candidates,
    decreases first.len(),
{
    reveal_with_fuel(merged, 2);
    assert(seq![item].skip(1) =~= Seq::<Seq<u8>>::empty());
    if first.len() == 0 {
        assert(first + second =~= second);
    } else {
        let next = with_item(candidates, first[0]);
        merging_goes_in_order(next, first.skip(1), second, item);
        assert((first + second).skip(1) =~= first.skip(1) + second);
        assert((first + second)[0] == first[0]);
    }
}

/// What an extension asks for is about the signature that it extends: the chain and the status of
/// the signer's certificate, the status by its issuer, and a time-stamp from the service that was
/// named.
pub proof fn extension_asks_about_its_signature(
    fetch: &IssuerFetch,
    stamping: &TimestampRequest,
    checking: &StatusRequest,
    fetched_for: &[u8],
    url: &str,
    checked: &[u8],
    issuer: &[u8],
)
    requires
        call_ensures(IssuerFetch::certificate_der, (fetch,), fetched_for),
        call_ensures(TimestampRequest::tsa_url, (stamping,), url),
        call_ensures(StatusRequest::certificate_der, (checking,), checked),
        call_ensures(StatusRequest::issuer_der, (checking,), issuer),
    ensures
        fetched_for@ == fetch@.leaf.der,
        url@ == stamping@.0.tsa_url,
        checked@ == checking@.0.leaf.der,
        issuer@ == checking@.1.der,
{
}

/// A request for a time-stamp asks for the hash that the signature asks for.
pub proof fn extension_asks_for_the_hash(
    stamping: &TimestampRequest,
    signature: &CreatedSignature,
    r: Result<Vec<u8>, LibError>,
    s: Result<Vec<u8>, LibError>,
)
    requires
        call_ensures(TimestampRequest::hash, (stamping,), r),
        call_ensures(CreatedSignature::timestamp_hash, (signature,), s),
        stamping@.0.draft == signature.draft(),
    ensures
        r is Ok <==> s is Ok,
        r matches Ok(a) ==> (s matches Ok(b) && a@ == b@),
        r matches Err(e) ==> (s matches Err(f) && e@ == f@),
{
}

/// What fails outside while a signature is extended is an error that says where and why.
pub proof fn outside_failures_are_named(
    fetch: IssuerFetch,
    checking: StatusRequest,
    now: Time,
    signature: CreatedSignature,
    tsa_url: &str,
    reason: String,
    r: Result<TimestampRequest, LibError>,
    s: Result<CreatedSignature, LibError>,
    t: Result<CreatedSignature, LibError>,
)
    requires
        call_ensures(IssuerFetch::complete, (fetch, Err(reason)), r),
        call_ensures(StatusRequest::complete, (checking, Err(reason), now), s),
        call_ensures(CreatedSignature::extend_to_t, (signature, tsa_url, Err(reason)), t),
    ensures
        r matches Err(e) && e@ == ErrorView::Certificate("AIA issuer fetch: "@ + reason@),
        s matches Err(e) && e@ == ErrorView::Ocsp("OCSP fetch: "@ + reason@),
        t matches Err(e) && e@ == ErrorView::Timestamp("TSA "@ + tsa_url@ + (": "@ + reason@)),
{
}

/// A chain that does not lead to the issuer is an error that names the issuer.
pub proof fn missing_issuer_is_named(
    fetch: IssuerFetch,
    chain: Vec<Vec<u8>>,
    r: Result<TimestampRequest, LibError>,
)
    requires
        call_ensures(IssuerFetch::complete, (fetch, Ok(chain)), r),
    ensures
        r is Ok <==> issuer_outcome(
            fetch@.leaf,
            merged(fetch@.candidates, above_leaf(text::byte_strings(chain@))),
        ) is Ok,
        r matches Err(e) ==> e@ == ErrorView::Certificate(
            "no issuer certificate provided for "@ + fetch@.leaf.issuer_text
                + " and caIssuers discovery found none"@,
        ),
{
}

/// A signature that is extended with what a time-stamping service answered is the one that is
/// extended with the token itself.
pub proof fn answered_token_is_added(
    signature: CreatedSignature,
    tsa_url: &str,
    token: Vec<u8>,
    r: Result<CreatedSignature, LibError>,
    s: Result<CreatedSignature, LibError>,
)
    requires
        call_ensures(CreatedSignature::extend_to_t, (signature, tsa_url, Ok(token)), r),
        call_ensures(CreatedSignature::extend_to_t_with, (signature, token), s),
    ensures
        r is Ok && s is Ok,
        r->Ok_0.document() == s->Ok_0.document(),
        r->Ok_0.draft() == s->Ok_0.draft(),
{
}

/// A signature that is made from a draft is the document of that draft, and it is handed out as it
/// is.
pub proof fn made_signature_is_handed_out(
    draft: Draft,
    r: Result<CreatedSignature, LibError>,
    xml: String,
)
    requires
        call_ensures(CreatedSignature::new, (draft,), r),
        r matches Ok(s) ==> call_ensures(CreatedSignature::into_xml, (s,), xml),
    ensures
        r is Ok <==> template::document_outcome(draft@) is Ok,
        r is Ok ==> template::document_outcome(draft@) == Ok::<Seq<char>, ErrorView>(xml@),
        r matches Err(e) ==> template::document_outcome(draft@) == Err::<Seq<char>, ErrorView>(e@),
{
}

} // verus!
